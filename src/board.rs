use vstd::prelude::*;

use crate::model::{BoardView, Cell};

verus! {

/// The index of `c` in `v`, if it occurs there.
fn position_of(v: &Vec<Cell>, c: &Cell) -> (r: Option<usize>)
    ensures
        match r {
            Some(i) => i < v.len() && v@[i as int] == *c,
            None => !v@.contains(*c),
        },
{
    let mut i: usize = 0;
    while i < v.len()
        invariant
            i <= v.len(),
            forall|k: int| 0 <= k < i ==> v@[k] != *c,
        decreases v.len() - i,
    {
        if v[i].0 == c.0 && v[i].1 == c.1 {
            return Some(i);
        }
        i += 1;
    }
    None
}

/// Appends `c`, which `v` does not hold yet.
fn push_new(v: &mut Vec<Cell>, c: Cell)
    requires
        old(v)@.no_duplicates(),
        !old(v)@.contains(c),
    ensures
        final(v)@ == old(v)@.push(c),
        final(v)@.no_duplicates(),
        final(v)@.to_set() == old(v)@.to_set().insert(c),
{
    v.push(c);
    proof {
        let s = v@;
        assert forall|i: int, j: int| 0 <= i < s.len() && 0 <= j < s.len() && i != j implies s[i]
            != s[j] by {
            if i == s.len() - 1 {
                assert(old(v)@.contains(s[j]));
            } else if j == s.len() - 1 {
                assert(old(v)@.contains(s[i]));
            }
        }
        old(v)@.lemma_push_to_set_commute(c);
    }
}

/// Appends `c` unless `v` holds it already.
fn insert_unique(v: &mut Vec<Cell>, c: Cell)
    requires
        old(v)@.no_duplicates(),
    ensures
        final(v)@.no_duplicates(),
        final(v)@.to_set() == old(v)@.to_set().insert(c),
{
    match position_of(v, &c) {
        Some(i) => {
            assert(v@.to_set() =~= v@.to_set().insert(c));
        },
        None => push_new(v, c),
    }
}

/// The cells that need an update on account of the first `i` cells of `cells`:
/// those cells and their neighbourhoods.
spec fn update_set_upto(b: BoardView, cells: Seq<Cell>, i: int) -> Set<Cell>
    decreases i,
{
    if i <= 0 {
        Set::empty()
    } else {
        update_set_upto(b, cells, i - 1).union(b.neighbors(cells[i - 1])).insert(cells[i - 1])
    }
}

/// True iff `c` is `n` or one of its neighbours.
spec fn covers(b: BoardView, n: Cell, c: Cell) -> bool {
    n == c || b.neighbors(n).contains(c)
}

/// A cell is in `update_set_upto(b, cells, i)` iff it is one of the first `i`
/// cells or a neighbour of one of them.
proof fn lemma_update_set_upto(b: BoardView, cells: Seq<Cell>, i: int)
    requires
        0 <= i <= cells.len(),
    ensures
        forall|c: Cell|
            #[trigger] update_set_upto(b, cells, i).contains(c) <==> exists|k: int|
                0 <= k < i && #[trigger] covers(b, cells[k], c),
    decreases i,
{
    if i > 0 {
        lemma_update_set_upto(b, cells, i - 1);
        assert forall|c: Cell| #[trigger] update_set_upto(b, cells, i).contains(c) <==> exists|k: int|
            0 <= k < i && #[trigger] covers(b, cells[k], c) by {
            if update_set_upto(b, cells, i).contains(c) {
                if !update_set_upto(b, cells, i - 1).contains(c) {
                    assert(covers(b, cells[i - 1], c));
                } else {
                    let k = choose|k: int| 0 <= k < i - 1 && #[trigger] covers(b, cells[k], c);
                    assert(covers(b, cells[k], c));
                }
            }
            if exists|k: int| 0 <= k < i && #[trigger] covers(b, cells[k], c) {
                let k = choose|k: int| 0 <= k < i && #[trigger] covers(b, cells[k], c);
                if k < i - 1 {
                    assert(update_set_upto(b, cells, i - 1).contains(c));
                }
            }
        }
    }
}

/// A board of fixed width and height, holding the set of its living cells.
pub struct Board {
    width: u64,
    height: u64,
    living_cells: Vec<Cell>,
}

impl View for Board {
    type V = BoardView;

    closed spec fn view(&self) -> BoardView {
        BoardView { width: self.width, height: self.height, living: self.living_cells@.to_set() }
    }
}

impl Board {
    /// Each living cell is held once.
    pub closed spec fn distinct_cells(&self) -> bool {
        self.living_cells@.no_duplicates()
    }

    /// The board's invariant: no cell held twice, and every living cell inside the grid.
    pub open spec fn inv(&self) -> bool {
        self.distinct_cells() && self@.wf()
    }

    /// An empty board of the given size.
    pub fn new(width: u64, height: u64) -> (b: Board)
        ensures
            b.inv(),
            b@ == (BoardView { width, height, living: Set::empty() }),
    {
        let b = Board { width, height, living_cells: Vec::new() };
        assert(b.living_cells@.to_set() =~= Set::empty());
        b
    }

    /// True iff `cell` lies inside this board.
    pub fn contains(&self, cell: &Cell) -> (r: bool)
        ensures
            r == self@.contains(*cell),
    {
        cell.0 < self.width && cell.1 < self.height
    }

    /// True iff `cell` is alive.
    pub fn is_alive(&self, cell: &Cell) -> (r: bool)
        ensures
            r == self@.is_alive(*cell),
    {
        position_of(&self.living_cells, cell).is_some()
    }

    /// Makes `cell` alive; a cell outside the board is ignored.
    pub fn spawn(&mut self, cell: &Cell)
        requires
            old(self).inv(),
        ensures
            final(self).inv(),
            final(self)@ == old(self)@.spawn(*cell),
    {
        if self.contains(cell) {
            insert_unique(&mut self.living_cells, *cell);
        }
    }

    /// Makes `cell` dead.
    pub fn kill(&mut self, cell: &Cell)
        requires
            old(self).inv(),
        ensures
            final(self).inv(),
            final(self)@ == old(self)@.kill(*cell),
    {
        match position_of(&self.living_cells, cell) {
            Some(i) => {
                let ghost s = self.living_cells@;
                self.living_cells.remove(i);
                proof {
                    let t = self.living_cells@;
                    assert(t =~= s.remove(i as int));
                    assert forall|k: int| 0 <= k < t.len() implies #[trigger] t[k] == (if k < i {
                        s[k]
                    } else {
                        s[k + 1]
                    }) by {}
                    assert forall|a: int, b: int| 0 <= a < t.len() && 0 <= b < t.len() && a != b
                        implies t[a] != t[b] by {
                        let a2 = if a < i { a } else { a + 1 };
                        let b2 = if b < i { b } else { b + 1 };
                        assert(t[a] == s[a2] && t[b] == s[b2]);
                    }
                    assert forall|x: Cell| #[trigger] t.to_set().contains(x) == s.to_set().remove(
                        *cell,
                    ).contains(x) by {
                        if s.contains(x) && x != *cell {
                            let k = choose|k: int| 0 <= k < s.len() && s[k] == x;
                            if k < i {
                                assert(t[k] == x);
                            } else {
                                assert(t[k - 1] == x);
                            }
                        }
                        if t.contains(x) {
                            let k = choose|k: int| 0 <= k < t.len() && t[k] == x;
                            let k2 = if k < i { k } else { k + 1 };
                            assert(s[k2] == x);
                        }
                    }
                    assert(t.to_set() =~= s.to_set().remove(*cell));
                }
            },
            None => {
                assert(self.living_cells@.to_set() =~= self.living_cells@.to_set().remove(*cell));
            },
        }
    }
    /// Appends `cand` to `r` when it lies inside the board and differs from `cell`.
    fn push_if_neighbor(&self, r: &mut Vec<Cell>, cell: &Cell, cand: Cell)
        requires
            old(r)@.no_duplicates(),
        ensures
            final(r)@.no_duplicates(),
            final(r)@.to_set() == (if self@.contains(cand) && cand != *cell {
                old(r)@.to_set().insert(cand)
            } else {
                old(r)@.to_set()
            }),
    {
        if self.contains(&cand) && !(cand.0 == cell.0 && cand.1 == cell.1) {
            insert_unique(r, cand);
        }
    }

    /// The Moore neighbourhood of `cell`, cut off at the edges of the board.
    /// Offsets saturate at the limits of `u64` instead of wrapping.
    pub fn neighbors_of(&self, cell: &Cell) -> (r: Vec<Cell>)
        ensures
            r@.no_duplicates(),
            r@.to_set() == self@.neighbors(*cell),
    {
        let x = cell.0;
        let y = cell.1;
        let x_lo: u64 = if x == 0 { 0 } else { x - 1 };
        let y_lo: u64 = if y == 0 { 0 } else { y - 1 };
        let x_hi: u64 = if x == u64::MAX { u64::MAX } else { x + 1 };
        let y_hi: u64 = if y == u64::MAX { u64::MAX } else { y + 1 };
        let mut r: Vec<Cell> = Vec::new();
        assert(r@.to_set() =~= Set::empty());
        self.push_if_neighbor(&mut r, cell, (x_lo, y_lo));
        self.push_if_neighbor(&mut r, cell, (x_lo, y));
        self.push_if_neighbor(&mut r, cell, (x_lo, y_hi));
        self.push_if_neighbor(&mut r, cell, (x, y_lo));
        self.push_if_neighbor(&mut r, cell, (x, y_hi));
        self.push_if_neighbor(&mut r, cell, (x_hi, y_lo));
        self.push_if_neighbor(&mut r, cell, (x_hi, y));
        self.push_if_neighbor(&mut r, cell, (x_hi, y_hi));
        assert(r@.to_set() =~= self@.neighbors(*cell));
        r
    }

    /// The number of living cells in the neighbourhood of `cell`.
    pub fn count_living_neighbors_of(&self, cell: &Cell) -> (r: usize)
        requires
            self.inv(),
        ensures
            r == self@.living_neighbor_count(*cell),
    {
        let ns = self.neighbors_of(cell);
        let mut count: usize = 0;
        let mut i: usize = 0;
        assert(ns@.subrange(0, 0).to_set().intersect(self@.living) =~= Set::empty());
        while i < ns.len()
            invariant
                i <= ns.len(),
                self.inv(),
                ns@.no_duplicates(),
                count <= i,
                count == ns@.subrange(0, i as int).to_set().intersect(self@.living).len(),
            decreases ns.len() - i,
        {
            let ghost pre = ns@.subrange(0, i as int);
            let ghost x = ns@[i as int];
            proof {
                assert(ns@.subrange(0, i + 1) =~= pre.push(x));
                pre.lemma_push_to_set_commute(x);
                if pre.contains(x) {
                    let k = choose|k: int| 0 <= k < pre.len() && pre[k] == x;
                    assert(ns@[k] == x);
                }
                vstd::seq_lib::seq_to_set_is_finite(pre);
            }
            if self.is_alive(&ns[i]) {
                assert(pre.push(x).to_set().intersect(self@.living) =~= pre.to_set().intersect(
                    self@.living,
                ).insert(x));
                count += 1;
            } else {
                assert(pre.push(x).to_set().intersect(self@.living) =~= pre.to_set().intersect(
                    self@.living,
                ));
            }
            i += 1;
        }
        assert(ns@.subrange(0, ns.len() as int) =~= ns@);
        count
    }

    /// Whether `cell` is alive in the next generation (rule B3/S23).
    pub fn next_state(&self, cell: &Cell) -> (r: bool)
        requires
            self.inv(),
        ensures
            r == self@.next_alive(*cell),
    {
        if !self.contains(cell) {
            return false;
        }
        let alive = self.is_alive(cell);
        let n = self.count_living_neighbors_of(cell);
        if alive {
            n == 2 || n == 3
        } else {
            n == 3
        }
    }

    /// Applies the rule to `cell` alone, against the current state.
    pub fn update_cell(&mut self, cell: &Cell)
        requires
            old(self).inv(),
        ensures
            final(self).inv(),
            final(self)@ == (if old(self)@.next_alive(*cell) {
                old(self)@.spawn(*cell)
            } else {
                old(self)@.kill(*cell)
            }),
    {
        if self.next_state(cell) {
            self.spawn(cell);
        } else {
            self.kill(cell);
        }
    }
    /// The cells whose state can change in the next generation: the living
    /// cells and the neighbourhood of each of them.
    pub fn cells_that_need_update(&self) -> (r: Vec<Cell>)
        requires
            self.inv(),
        ensures
            r@.no_duplicates(),
            r@.to_set() == self@.cells_needing_update(),
    {
        let mut r: Vec<Cell> = Vec::new();
        let mut i: usize = 0;
        assert(r@.to_set() =~= Set::empty());
        while i < self.living_cells.len()
            invariant
                i <= self.living_cells.len(),
                r@.no_duplicates(),
                r@.to_set() == update_set_upto(self@, self.living_cells@, i as int),
            decreases self.living_cells.len() - i,
        {
            let cell = self.living_cells[i];
            let ns = self.neighbors_of(&cell);
            let ghost done = update_set_upto(self@, self.living_cells@, i as int);
            let mut j: usize = 0;
            assert(done.union(ns@.subrange(0, 0).to_set()) =~= done);
            while j < ns.len()
                invariant
                    j <= ns.len(),
                    r@.no_duplicates(),
                    r@.to_set() == done.union(ns@.subrange(0, j as int).to_set()),
                decreases ns.len() - j,
            {
                proof {
                    assert(ns@.subrange(0, j + 1) =~= ns@.subrange(0, j as int).push(ns@[j as int]));
                    ns@.subrange(0, j as int).lemma_push_to_set_commute(ns@[j as int]);
                }
                insert_unique(&mut r, ns[j]);
                assert(r@.to_set() =~= done.union(ns@.subrange(0, j + 1).to_set()));
                j += 1;
            }
            assert(ns@.subrange(0, ns.len() as int) =~= ns@);
            insert_unique(&mut r, cell);
            assert(r@.to_set() =~= update_set_upto(self@, self.living_cells@, i + 1));
            i += 1;
        }
        proof {
            let cells = self.living_cells@;
            lemma_update_set_upto(self@, cells, cells.len() as int);
            assert forall|c: Cell| #[trigger] r@.to_set().contains(c) == self@.cells_needing_update().contains(c) by {
                if self@.cells_needing_update().contains(c) {
                    if cells.contains(c) {
                        let k = choose|k: int| 0 <= k < cells.len() && cells[k] == c;
                        assert(covers(self@, cells[k], c));
                    } else {
                        let n = choose|n: Cell| #[trigger] self@.living.contains(n) && self@.neighbors(n).contains(c);
                        let k = choose|k: int| 0 <= k < cells.len() && cells[k] == n;
                        assert(covers(self@, cells[k], c));
                    }
                }
                if r@.to_set().contains(c) {
                    let k = choose|k: int| 0 <= k < cells.len() && #[trigger] covers(self@, cells[k], c);
                    assert(cells.contains(cells[k]));
                    assert(self@.living.contains(cells[k]));
                }
            }
            assert(r@.to_set() =~= self@.cells_needing_update());
        }
        r
    }

    /// The living cells of the next generation, all decided on the current state.
    fn next_living_cells(&self) -> (r: Vec<Cell>)
        requires
            self.inv(),
        ensures
            r@.no_duplicates(),
            r@.to_set() == self@.step().living,
    {
        let dirty = self.cells_that_need_update();
        let mut next: Vec<Cell> = Vec::new();
        let mut i: usize = 0;
        assert(next@.to_set() =~= dirty@.subrange(0, 0).to_set().filter(|c: Cell| self@.next_alive(c)));
        while i < dirty.len()
            invariant
                i <= dirty.len(),
                self.inv(),
                dirty@.no_duplicates(),
                next@.no_duplicates(),
                next@.to_set() == dirty@.subrange(0, i as int).to_set().filter(|c: Cell| self@.next_alive(c)),
            decreases dirty.len() - i,
        {
            let ghost pre = dirty@.subrange(0, i as int);
            let ghost x = dirty@[i as int];
            proof {
                assert(dirty@.subrange(0, i + 1) =~= pre.push(x));
                pre.lemma_push_to_set_commute(x);
                if pre.contains(x) {
                    let k = choose|k: int| 0 <= k < pre.len() && pre[k] == x;
                    assert(dirty@[k] == x);
                }
                assert(!next@.to_set().contains(x));
            }
            let cell = dirty[i];
            if self.next_state(&cell) {
                push_new(&mut next, cell);
            }
            assert(next@.to_set() =~= pre.push(x).to_set().filter(|c: Cell| self@.next_alive(c)));
            i += 1;
        }
        proof {
            assert(dirty@.subrange(0, dirty.len() as int) =~= dirty@);
            assert forall|c: Cell| #[trigger] self@.step().living.contains(c) implies dirty@.to_set().contains(c) by {
                crate::model::lemma_update_set_covers_changes(self@, c);
            }
            assert(next@.to_set() =~= self@.step().living);
        }
        next
    }

    /// Advances the board by one generation. Every cell's fate is decided on the
    /// state before the step; only the cells that need an update are examined.
    pub fn update(&mut self)
        requires
            old(self).inv(),
        ensures
            final(self).inv(),
            final(self)@ == old(self)@.step(),
    {
        let next = self.next_living_cells();
        self.living_cells = next;
    }
    /// Advances the board by `n` generations.
    pub fn run(&mut self, n: u32)
        requires
            old(self).inv(),
        ensures
            final(self).inv(),
            final(self)@ == old(self)@.steps(n as nat),
    {
        let mut i: u32 = 0;
        while i < n
            invariant
                i <= n,
                self.inv(),
                old(self)@.steps(n as nat) == self@.steps((n - i) as nat),
            decreases n - i,
        {
            self.update();
            i += 1;
        }
    }
    /// The number of columns.
    pub fn width(&self) -> (r: u64)
        ensures
            r == self@.width,
    {
        self.width
    }

    /// The number of rows.
    pub fn height(&self) -> (r: u64)
        ensures
            r == self@.height,
    {
        self.height
    }

    /// The number of living cells.
    pub fn living_count(&self) -> (r: usize)
        requires
            self.inv(),
        ensures
            r == self@.living.len(),
    {
        proof {
            self.living_cells@.unique_seq_to_set();
        }
        self.living_cells.len()
    }

    /// The living cells, each once, in no particular order.
    pub fn living_cells(&self) -> (r: Vec<Cell>)
        requires
            self.inv(),
        ensures
            r@.no_duplicates(),
            r@.to_set() == self@.living,
    {
        let mut r: Vec<Cell> = Vec::new();
        let mut i: usize = 0;
        while i < self.living_cells.len()
            invariant
                i <= self.living_cells.len(),
                self.inv(),
                r@ == self.living_cells@.subrange(0, i as int),
            decreases self.living_cells.len() - i,
        {
            r.push(self.living_cells[i]);
            assert(r@ =~= self.living_cells@.subrange(0, i + 1));
            i += 1;
        }
        assert(r@ =~= self.living_cells@);
        r
    }
    /// The smallest and the largest coordinates of the living cells, each
    /// taken on its own axis; `None` on an empty board.
    pub fn extent(&self) -> (r: Option<(Cell, Cell)>)
        requires
            self.inv(),
        ensures
            match r {
                Some((lo, hi)) => self@.is_extent(lo, hi),
                None => self@.living == Set::<Cell>::empty(),
            },
    {
        let cells = &self.living_cells;
        if cells.len() == 0 {
            assert(cells@.to_set() =~= Set::<Cell>::empty());
            return None;
        }
        let mut lo: Cell = cells[0];
        let mut hi: Cell = cells[0];
        let ghost mut w: (int, int, int, int) = (0, 0, 0, 0);
        let mut i: usize = 1;
        while i < cells.len()
            invariant
                1 <= i <= cells.len(),
                0 <= w.0 < i && 0 <= w.1 < i && 0 <= w.2 < i && 0 <= w.3 < i,
                cells@[w.0].0 == lo.0 && cells@[w.1].1 == lo.1,
                cells@[w.2].0 == hi.0 && cells@[w.3].1 == hi.1,
                forall|k: int|
                    0 <= k < i ==> lo.0 <= #[trigger] cells@[k].0 <= hi.0 && lo.1 <= cells@[k].1
                        <= hi.1,
            decreases cells.len() - i,
        {
            let c = cells[i];
            if c.0 < lo.0 {
                lo.0 = c.0;
                proof { w.0 = i as int; }
            }
            if c.1 < lo.1 {
                lo.1 = c.1;
                proof { w.1 = i as int; }
            }
            if c.0 > hi.0 {
                hi.0 = c.0;
                proof { w.2 = i as int; }
            }
            if c.1 > hi.1 {
                hi.1 = c.1;
                proof { w.3 = i as int; }
            }
            i += 1;
        }
        proof {
            let s = cells@;
            assert(s.contains(s[w.0]) && s.contains(s[w.1]) && s.contains(s[w.2]) && s.contains(s[w.3]));
            assert(self@.living.contains(s[w.0]));
            assert(self@.living.contains(s[w.1]));
            assert(self@.living.contains(s[w.2]));
            assert(self@.living.contains(s[w.3]));
            assert forall|c: Cell| #[trigger] self@.living.contains(c) implies lo.0 <= c.0 <= hi.0
                && lo.1 <= c.1 <= hi.1 by {
                let k = choose|k: int| 0 <= k < s.len() && s[k] == c;
                assert(lo.0 <= s[k].0);
            }
        }
        Some((lo, hi))
    }
}

} // verus!
