use conway::{Board, Cell};

fn sorted(mut v: Vec<Cell>) -> Vec<Cell> {
    v.sort();
    v
}

fn board_with(width: u64, height: u64, cells: &[Cell]) -> Board {
    let mut b = Board::new(width, height);
    for c in cells {
        b.spawn(c);
    }
    b
}

#[test]
fn new_board_is_empty() {
    let b = Board::new(30, 30);
    assert_eq!(b.width(), 30);
    assert_eq!(b.height(), 30);
    assert_eq!(b.living_count(), 0);
    assert!(b.living_cells().is_empty());
}

#[test]
fn contains_checks_both_bounds() {
    let b = Board::new(4, 3);
    assert!(b.contains(&(0, 0)));
    assert!(b.contains(&(3, 2)));
    assert!(!b.contains(&(4, 0)));
    assert!(!b.contains(&(0, 3)));
    assert!(!b.contains(&(u64::MAX, u64::MAX)));
}

#[test]
fn spawn_in_bounds_makes_alive() {
    let mut b = Board::new(10, 10);
    assert!(!b.is_alive(&(3, 4)));
    b.spawn(&(3, 4));
    assert!(b.is_alive(&(3, 4)));
    assert!(!b.is_alive(&(4, 3)));
}

#[test]
fn spawn_out_of_bounds_is_ignored() {
    let mut b = Board::new(10, 10);
    b.spawn(&(10, 4));
    b.spawn(&(4, 10));
    assert!(!b.is_alive(&(10, 4)));
    assert!(!b.is_alive(&(4, 10)));
    assert_eq!(b.living_count(), 0);
}

#[test]
fn spawn_then_kill_restores_dead() {
    let mut b = Board::new(10, 10);
    b.spawn(&(5, 5));
    b.kill(&(5, 5));
    assert!(!b.is_alive(&(5, 5)));
    assert_eq!(b.living_count(), 0);
}

#[test]
fn spawn_and_kill_are_idempotent() {
    let mut b = Board::new(10, 10);
    b.spawn(&(5, 5));
    b.spawn(&(5, 5));
    assert!(b.is_alive(&(5, 5)));
    assert_eq!(b.living_count(), 1);
    b.kill(&(5, 5));
    b.kill(&(5, 5));
    assert!(!b.is_alive(&(5, 5)));
    assert_eq!(b.living_count(), 0);
    b.kill(&(7, 7));
    assert_eq!(b.living_count(), 0);
}

#[test]
fn kill_leaves_other_cells() {
    let mut b = board_with(10, 10, &[(1, 1), (2, 2), (3, 3)]);
    b.kill(&(2, 2));
    assert_eq!(sorted(b.living_cells()), vec![(1, 1), (3, 3)]);
}

#[test]
fn neighbors_of_interior_cell() {
    let b = Board::new(10, 10);
    let n = sorted(b.neighbors_of(&(5, 5)));
    assert_eq!(
        n,
        vec![(4, 4), (4, 5), (4, 6), (5, 4), (5, 6), (6, 4), (6, 5), (6, 6)]
    );
}

#[test]
fn neighbors_of_corners() {
    let b = Board::new(10, 8);
    assert_eq!(sorted(b.neighbors_of(&(0, 0))), vec![(0, 1), (1, 0), (1, 1)]);
    assert_eq!(sorted(b.neighbors_of(&(9, 0))), vec![(8, 0), (8, 1), (9, 1)]);
    assert_eq!(sorted(b.neighbors_of(&(0, 7))), vec![(0, 6), (1, 6), (1, 7)]);
    assert_eq!(sorted(b.neighbors_of(&(9, 7))), vec![(8, 6), (8, 7), (9, 6)]);
}

#[test]
fn neighbors_of_edge_cell() {
    let b = Board::new(10, 10);
    assert_eq!(
        sorted(b.neighbors_of(&(0, 5))),
        vec![(0, 4), (0, 6), (1, 4), (1, 5), (1, 6)]
    );
}

#[test]
fn neighbors_never_include_the_cell_itself() {
    let b = Board::new(1, 1);
    assert!(b.neighbors_of(&(0, 0)).is_empty());
    let b = Board::new(1, 3);
    assert_eq!(sorted(b.neighbors_of(&(0, 1))), vec![(0, 0), (0, 2)]);
}

#[test]
fn neighbors_saturate_at_the_largest_coordinate() {
    let b = Board::new(u64::MAX, u64::MAX);
    assert_eq!(
        b.neighbors_of(&(u64::MAX, u64::MAX)),
        vec![(u64::MAX - 1, u64::MAX - 1)]
    );
    let n = b.neighbors_of(&(u64::MAX - 1, 0));
    assert_eq!(sorted(n), vec![(u64::MAX - 2, 0), (u64::MAX - 2, 1), (u64::MAX - 1, 1)]);
}

#[test]
fn neighbors_of_outside_cell_stay_inside() {
    let b = Board::new(3, 3);
    assert_eq!(sorted(b.neighbors_of(&(3, 3))), vec![(2, 2)]);
    assert!(b.neighbors_of(&(5, 5)).is_empty());
}

#[test]
fn count_living_neighbors() {
    let b = board_with(10, 10, &[(1, 1), (1, 2), (2, 1), (5, 5), (2, 2)]);
    assert_eq!(b.count_living_neighbors_of(&(2, 2)), 3);
    assert_eq!(b.count_living_neighbors_of(&(1, 1)), 3);
    assert_eq!(b.count_living_neighbors_of(&(0, 0)), 1);
    assert_eq!(b.count_living_neighbors_of(&(5, 5)), 0);
    assert_eq!(b.count_living_neighbors_of(&(4, 4)), 1);
}

#[test]
fn lonely_cell_dies() {
    let mut b = board_with(10, 10, &[(4, 4)]);
    b.update();
    assert!(!b.is_alive(&(4, 4)));
    assert_eq!(b.living_count(), 0);
}

#[test]
fn block_is_still_life() {
    let cells = vec![(3, 3), (3, 4), (4, 3), (4, 4)];
    let mut b = board_with(10, 10, &cells);
    b.update();
    assert_eq!(sorted(b.living_cells()), cells);
    b.update();
    assert_eq!(sorted(b.living_cells()), cells);
}

#[test]
fn block_in_corner_is_still_life() {
    let cells = vec![(0, 0), (0, 1), (1, 0), (1, 1)];
    let mut b = board_with(2, 2, &cells);
    b.update();
    assert_eq!(sorted(b.living_cells()), cells);
}

#[test]
fn blinker_oscillates() {
    let mut b = board_with(10, 10, &[(1, 2), (2, 2), (3, 2)]);
    b.update();
    assert_eq!(sorted(b.living_cells()), vec![(2, 1), (2, 2), (2, 3)]);
    b.update();
    assert_eq!(sorted(b.living_cells()), vec![(1, 2), (2, 2), (3, 2)]);
}

#[test]
fn run_advances_several_generations() {
    let mut b = board_with(10, 10, &[(1, 2), (2, 2), (3, 2)]);
    b.run(3);
    assert_eq!(sorted(b.living_cells()), vec![(2, 1), (2, 2), (2, 3)]);
    b.run(0);
    assert_eq!(sorted(b.living_cells()), vec![(2, 1), (2, 2), (2, 3)]);
    b.run(1);
    assert_eq!(sorted(b.living_cells()), vec![(1, 2), (2, 2), (3, 2)]);
}

#[test]
fn glider_moves_diagonally() {
    let glider = [(1, 0), (2, 1), (0, 2), (1, 2), (2, 2)];
    let mut b = board_with(20, 20, &glider);
    b.run(4);
    let moved: Vec<Cell> = sorted(glider.iter().map(|c| (c.0 + 1, c.1 + 1)).collect());
    assert_eq!(sorted(b.living_cells()), moved);
}

#[test]
fn empty_board_needs_no_update() {
    let mut b = Board::new(10, 10);
    assert!(b.cells_that_need_update().is_empty());
    b.update();
    assert_eq!(b.living_count(), 0);
}

#[test]
fn cells_that_need_update_cover_neighborhoods() {
    let b = board_with(10, 10, &[(5, 5)]);
    let d = sorted(b.cells_that_need_update());
    let mut expected = Vec::new();
    for x in 4..7 {
        for y in 4..7 {
            expected.push((x, y));
        }
    }
    assert_eq!(d, expected);
    let b = board_with(10, 10, &[(0, 0), (1, 0)]);
    assert_eq!(
        sorted(b.cells_that_need_update()),
        vec![(0, 0), (0, 1), (1, 0), (1, 1), (2, 0), (2, 1)]
    );
}

#[test]
fn next_state_follows_b3_s23() {
    // a dead cell with three living neighbours is born
    let b = board_with(10, 10, &[(1, 1), (1, 2), (1, 3)]);
    assert!(b.next_state(&(2, 2)));
    assert!(b.next_state(&(0, 2)));
    // a living cell with two neighbours survives, with one it dies
    assert!(b.next_state(&(1, 2)));
    assert!(!b.next_state(&(1, 1)));
    // a dead cell with two neighbours stays dead
    assert!(!b.next_state(&(2, 1)));
    assert!(!b.next_state(&(2, 4)));
    // cells outside the board are never alive
    assert!(!b.next_state(&(10, 10)));
}

#[test]
fn overcrowded_cell_dies() {
    let mut b = board_with(10, 10, &[(5, 5), (4, 4), (4, 6), (6, 4), (6, 6)]);
    assert_eq!(b.count_living_neighbors_of(&(5, 5)), 4);
    b.update_cell(&(5, 5));
    assert!(!b.is_alive(&(5, 5)));
}

#[test]
fn update_cell_births_and_survives() {
    let mut b = board_with(10, 10, &[(4, 4), (4, 6), (6, 4)]);
    b.update_cell(&(5, 5));
    assert!(b.is_alive(&(5, 5)));
    let mut b = board_with(10, 10, &[(5, 5), (4, 4), (6, 6)]);
    b.update_cell(&(5, 5));
    assert!(b.is_alive(&(5, 5)));
    b.update_cell(&(4, 4));
    assert!(!b.is_alive(&(4, 4)));
    b.update_cell(&(12, 12));
    assert!(!b.is_alive(&(12, 12)));
}

#[test]
fn update_decides_every_cell_on_the_old_state() {
    // an L of three cells becomes a block: (2,2) is born while (1,1) survives
    let mut b = board_with(10, 10, &[(1, 1), (1, 2), (2, 1)]);
    b.update();
    assert_eq!(sorted(b.living_cells()), vec![(1, 1), (1, 2), (2, 1), (2, 2)]);
}

#[test]
fn extent_of_living_cells() {
    let b = Board::new(10, 10);
    assert_eq!(b.extent(), None);
    let b = board_with(10, 10, &[(4, 2), (1, 7), (6, 5)]);
    assert_eq!(b.extent(), Some(((1, 2), (6, 7))));
    let b = board_with(10, 10, &[(3, 3)]);
    assert_eq!(b.extent(), Some(((3, 3), (3, 3))));
}
