use vstd::prelude::*;

verus! {

/// A cell coordinate: column, then row.
pub type Cell = (u64, u64);

/// True iff two coordinates differ by at most one.
pub open spec fn near(a: u64, b: u64) -> bool {
    a <= b + 1 && b <= a + 1
}

/// True iff `a` lies in the Moore neighbourhood of `b`: a different cell whose
/// coordinates each differ from those of `b` by at most one.
pub open spec fn adjacent(a: Cell, b: Cell) -> bool {
    a != b && near(a.0, b.0) && near(a.1, b.1)
}

/// The abstract state of a board: its fixed dimensions and the set of living cells.
pub struct BoardView {
    pub width: u64,
    pub height: u64,
    pub living: Set<Cell>,
}

impl BoardView {
    /// Every living cell lies inside the grid, and there are finitely many of them.
    pub open spec fn wf(self) -> bool {
        &&& self.living.finite()
        &&& forall|c: Cell| #[trigger] self.living.contains(c) ==> self.contains(c)
    }

    /// True iff `c` lies inside the grid.
    pub open spec fn contains(self, c: Cell) -> bool {
        c.0 < self.width && c.1 < self.height
    }

    /// True iff `c` is a living cell.
    pub open spec fn is_alive(self, c: Cell) -> bool {
        self.living.contains(c)
    }

    /// The Moore neighbourhood of `c`, cut off at the edges of the grid.
    pub open spec fn neighbors(self, c: Cell) -> Set<Cell> {
        Set::new(|n: Cell| self.contains(n) && adjacent(n, c))
    }

    /// The number of living cells in the neighbourhood of `c`.
    pub open spec fn living_neighbor_count(self, c: Cell) -> nat {
        self.neighbors(c).intersect(self.living).len()
    }

    /// Whether `c` is alive in the next generation (rule B3/S23).
    pub open spec fn next_alive(self, c: Cell) -> bool {
        &&& self.contains(c)
        &&& if self.is_alive(c) {
            self.living_neighbor_count(c) == 2 || self.living_neighbor_count(c) == 3
        } else {
            self.living_neighbor_count(c) == 3
        }
    }

    /// The board one generation later.
    pub open spec fn step(self) -> BoardView {
        BoardView { width: self.width, height: self.height, living: Set::new(|c: Cell| self.next_alive(c)) }
    }

    /// The living cells together with the neighbourhood of each living cell.
    pub open spec fn cells_needing_update(self) -> Set<Cell> {
        Set::new(
            |c: Cell|
                self.living.contains(c) || exists|n: Cell|
                    #[trigger] self.living.contains(n) && self.neighbors(n).contains(c),
        )
    }

    /// The board `n` generations later.
    pub open spec fn steps(self, n: nat) -> BoardView
        decreases n,
    {
        if n == 0 {
            self
        } else {
            self.step().steps((n - 1) as nat)
        }
    }

    /// `lo` and `hi` are the smallest and largest coordinates of the living
    /// cells, each taken on its own axis.
    pub open spec fn is_extent(self, lo: Cell, hi: Cell) -> bool {
        &&& forall|c: Cell|
            #[trigger] self.living.contains(c) ==> lo.0 <= c.0 <= hi.0 && lo.1 <= c.1 <= hi.1
        &&& exists|c: Cell| #[trigger] self.living.contains(c) && c.0 == lo.0
        &&& exists|c: Cell| #[trigger] self.living.contains(c) && c.1 == lo.1
        &&& exists|c: Cell| #[trigger] self.living.contains(c) && c.0 == hi.0
        &&& exists|c: Cell| #[trigger] self.living.contains(c) && c.1 == hi.1
    }

    /// `c` made alive, where it lies inside the grid.
    pub open spec fn spawn(self, c: Cell) -> BoardView {
        if self.contains(c) {
            BoardView { living: self.living.insert(c), ..self }
        } else {
            self
        }
    }

    /// `c` made dead.
    pub open spec fn kill(self, c: Cell) -> BoardView {
        BoardView { living: self.living.remove(c), ..self }
    }
}

/// After a spawn a cell inside the grid is alive; a spawn outside the grid
/// changes nothing.
pub proof fn lemma_spawn_makes_alive(b: BoardView, c: Cell)
    ensures
        b.contains(c) ==> b.spawn(c).is_alive(c),
        !b.contains(c) ==> b.spawn(c) == b,
{
}

/// Killing a spawned cell leaves it dead; spawn and kill are each idempotent.
pub proof fn lemma_spawn_kill(b: BoardView, c: Cell)
    ensures
        !b.spawn(c).kill(c).is_alive(c),
        b.spawn(c).spawn(c) == b.spawn(c),
        b.kill(c).kill(c) == b.kill(c),
{
    assert(b.kill(c).kill(c).living =~= b.kill(c).living);
    if b.contains(c) {
        assert(b.spawn(c).spawn(c).living =~= b.spawn(c).living);
    }
}

/// The neighbourhood of a cell never holds the cell itself nor a cell outside the grid.
/// An interior cell has eight neighbours, a corner cell of a grid at least two
/// cells wide and high has three.
pub proof fn lemma_neighbors(b: BoardView, c: Cell)
    ensures
        !b.neighbors(c).contains(c),
        forall|n: Cell| #[trigger] b.neighbors(c).contains(n) ==> b.contains(n),
        0 < c.0 && c.0 + 1 < b.width && 0 < c.1 && c.1 + 1 < b.height ==> b.neighbors(c).len() == 8,
        b.width >= 2 && b.height >= 2 && (c.0 == 0 || c.0 + 1 == b.width) && (c.1 == 0 || c.1 + 1
            == b.height) ==> b.neighbors(c).len() == 3,
{
    let x = c.0;
    let y = c.1;
    if 0 < x && x + 1 < b.width && 0 < y && y + 1 < b.height {
        let s = set![
            ((x - 1) as u64, (y - 1) as u64),
            ((x - 1) as u64, y),
            ((x - 1) as u64, (y + 1) as u64),
            (x, (y - 1) as u64),
            (x, (y + 1) as u64),
            ((x + 1) as u64, (y - 1) as u64),
            ((x + 1) as u64, y),
            ((x + 1) as u64, (y + 1) as u64),
        ];
        assert(b.neighbors(c) =~= s);
        assert(s.len() == 8);
    }
    if b.width >= 2 && b.height >= 2 && (x == 0 || x + 1 == b.width) && (y == 0 || y + 1 == b.height) {
        let ox: u64 = if x == 0 { 1 } else { (x - 1) as u64 };
        let oy: u64 = if y == 0 { 1 } else { (y - 1) as u64 };
        let s = set![(ox, y), (x, oy), (ox, oy)];
        assert(b.neighbors(c) =~= s);
        assert(s.len() == 3);
    }
}

/// Only cells that need an update can be alive after a step, and a cell that
/// needs no update is dead before and after it.
pub proof fn lemma_update_set_covers_changes(b: BoardView, c: Cell)
    requires
        b.wf(),
    ensures
        b.step().is_alive(c) ==> b.cells_needing_update().contains(c),
        !b.cells_needing_update().contains(c) ==> !b.is_alive(c) && !b.step().is_alive(c),
{
    if b.next_alive(c) && !b.is_alive(c) {
        let s = b.neighbors(c).intersect(b.living);
        if s =~= Set::empty() {
            assert(s.len() == 0);
        }
        let n = choose|n: Cell| s.contains(n);
        assert(b.living.contains(n) && b.neighbors(n).contains(c));
    }
}

/// A living cell with no living neighbours is dead after a step.
pub proof fn lemma_lonely_cell_dies(b: BoardView, c: Cell)
    requires
        b.is_alive(c),
        b.living_neighbor_count(c) == 0,
    ensures
        !b.step().is_alive(c),
{
}

/// An empty board needs no update, and stays empty after a step.
pub proof fn lemma_empty_board(b: BoardView)
    requires
        b.living == Set::<Cell>::empty(),
    ensures
        b.cells_needing_update() == Set::<Cell>::empty(),
        b.step().living == Set::<Cell>::empty(),
{
    assert(b.cells_needing_update() =~= Set::empty());
    assert forall|c: Cell| !b.next_alive(c) by {
        assert(b.neighbors(c).intersect(b.living) =~= Set::empty());
    }
    assert(b.step().living =~= Set::empty());
}

} // verus!
