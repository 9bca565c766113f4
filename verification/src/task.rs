//! A* path planning on a 4-connected occupancy grid.
//!
//! The search keeps, per cell, the best known cost from the start (`g`), whether
//! the cell has been expanded (`closed`) and the cell it was reached from
//! (`parent`), plus an open list of `(f, g, cell)` entries with `f = g + h`
//! and `h` the Manhattan distance to the goal.

use vstd::prelude::*;
use vstd::string::StringExecFns;
use crate::text::{decimal, decimal_string};
use crate::grid::{
    Cell, Grid, adjacent, is_path, is_shortest_path, is_walk, lemma_manhattan_along_walk,
    lemma_shortest_exists, lemma_shortest_prefix, lemma_walk_push, linked, manhattan, reachable,
};
use crate::table::{
    Table, lemma_table_sum_bound, lemma_table_sum_update, lemma_table_sum_zero, make_table, row_sum,
    table_sum,
};

verus! {

/// Errors that can occur during task execution.
#[derive(Debug)]
pub enum TaskError {
    /// Invalid input provided to the task.
    InvalidInput(String),
    /// Pathfinding specific error.
    Pathfinding(String),
    /// Task-specific error (e.g., decoding failure).
    Task(String),
}

/// Query for pathfinding: find path from start to goal on a grid.
pub struct PathfindingQuery {
    /// The grid to navigate.
    pub grid: Grid,
    /// Start position (row, column).
    pub start: (usize, usize),
    /// Goal position (row, column).
    pub goal: (usize, usize),
}

/// Result of a pathfinding operation.
pub struct Path {
    /// Sequence of grid coordinates from start to goal inclusive.
    pub path: Vec<(usize, usize)>,
    /// Total cost of the path (number of steps).
    pub cost: usize,
}

/// Manhattan distance heuristic.
pub fn heuristic(a: (usize, usize), b: (usize, usize)) -> (d: usize)
    requires
        manhattan(a, b) <= usize::MAX,
    ensures
        d == manhattan(a, b),
{
    let (ar, ac) = a;
    let (br, bc) = b;
    let dr = if ar >= br {
        ar - br
    } else {
        br - ar
    };
    let dc = if ac >= bc {
        ac - bc
    } else {
        bc - ac
    };
    dr + dc
}

/// Inside a grid that fits in memory, Manhattan distances fit in a `usize`.
proof fn lemma_manhattan_fits(grid: &Grid, a: Cell, b: Cell)
    requires
        grid.fits_memory(),
        grid.in_bounds(a),
        grid.in_bounds(b),
    ensures
        manhattan(a, b) + 1 <= usize::MAX,
{
    let w = grid.width as int;
    let h = grid.height as int;
    assert(manhattan(a, b) <= (h - 1) + (w - 1));
    assert((h - 1) + (w - 1) + 1 <= w * h) by (nonlinear_arith)
        requires
            w >= 1,
            h >= 1,
    ;
}

struct OpenEntry {
    f: u128,
    g: usize,
    pos: Cell,
}

spec fn entry_for(p: Cell, g: usize, goal: Cell) -> OpenEntry {
    OpenEntry { f: (g + manhattan(p, goal)) as u128, g, pos: p }
}

/// Open-list entries whose key `f` is no larger than any other's.
fn pop_min(open: &mut Vec<OpenEntry>) -> (e: OpenEntry)
    requires
        old(open)@.len() > 0,
    ensures
        old(open)@.contains(e),
        forall|j: int| 0 <= j < old(open)@.len() ==> e.f <= #[trigger] old(open)@[j].f,
        final(open)@.len() + 1 == old(open)@.len(),
        forall|x: OpenEntry| old(open)@.contains(x) && x != e ==> final(open)@.contains(x),
        forall|x: OpenEntry| #[trigger] final(open)@.contains(x) ==> old(open)@.contains(x),
{
    let n = open.len();
    let mut best: usize = 0;
    let mut i: usize = 1;
    while i < n
        invariant
            n == open@.len(),
            1 <= i <= n,
            best < n,
            forall|j: int| 0 <= j < i ==> open@[best as int].f <= #[trigger] open@[j].f,
        decreases n - i,
    {
        if open[i].f < open[best].f || (open[i].f == open[best].f && open[i].g > open[best].g) {
            best = i;
        }
        i += 1;
    }
    let ghost before = open@;
    let e = open.swap_remove(best);
    proof {
        assert(before[best as int] == e);
        assert forall|x: OpenEntry| before.contains(x) && x != e implies open@.contains(x) by {
            let j = choose|j: int| 0 <= j < before.len() && before[j] == x;
            if j == before.len() - 1 {
                assert(open@[best as int] == x);
            } else {
                assert(open@[j] == x);
            }
        }
        assert forall|x: OpenEntry| #[trigger] open@.contains(x) implies before.contains(x) by {
            let j = choose|j: int| 0 <= j < open@.len() && open@[j] == x;
            if j == best {
                assert(before[before.len() - 1] == x);
            } else {
                assert(before[j] == x);
            }
        }
    }
    e
}

/// The per-cell search tables and the open list.
struct SearchState {
    g: Table<Option<usize>>,
    closed: Table<bool>,
    parent: Table<Cell>,
    open: Vec<OpenEntry>,
    closed_count: usize,
}

spec fn closed_ind() -> spec_fn(Option<usize>, bool) -> nat {
    |x: Option<usize>, c: bool|
        if c {
            1nat
        } else {
            0nat
        }
}

spec fn cap() -> nat {
    usize::MAX as nat + 2
}

/// How far a cell is from being settled: 0 once closed, otherwise one more
/// than its cost, or more than any cost while it has none.
spec fn potential() -> spec_fn(Option<usize>, bool) -> nat {
    |x: Option<usize>, c: bool|
        if c {
            0nat
        } else {
            match x {
                None => cap(),
                Some(v) => v as nat + 1,
            }
        }
}

impl SearchState {
    spec fn gv(&self, p: Cell) -> Option<usize> {
        self.g@[p.0 as int]@[p.1 as int]
    }

    spec fn cl(&self, p: Cell) -> bool {
        self.closed@[p.0 as int]@[p.1 as int]
    }

    spec fn par(&self, p: Cell) -> Cell {
        self.parent@[p.0 as int]@[p.1 as int]
    }

    spec fn shape_ok(&self, grid: &Grid) -> bool {
        &&& self.g@.len() == grid.height
        &&& self.closed@.len() == grid.height
        &&& self.parent@.len() == grid.height
        &&& forall|r: int| 0 <= r < grid.height ==> (#[trigger] self.g@[r])@.len() == grid.width
        &&& forall|r: int| 0 <= r < grid.height ==> (#[trigger] self.closed@[r])@.len() == grid.width
        &&& forall|r: int| 0 <= r < grid.height ==> (#[trigger] self.parent@[r])@.len() == grid.width
    }

    /// Every cell with a cost was reached from a closed neighbour one step cheaper,
    /// and the start is the only cell of cost zero.
    #[verifier::opaque]
    spec fn parents_ok(&self, grid: &Grid, start: Cell) -> bool {
        forall|p: Cell|
            grid.in_bounds(p) && (#[trigger] self.gv(p)) is Some ==> {
                &&& grid.walkable(p)
                &&& (p == start) == (self.gv(p).unwrap() == 0)
                &&& p != start ==> {
                    let q = self.par(p);
                    &&& grid.in_bounds(q)
                    &&& self.cl(q)
                    &&& self.gv(q) is Some
                    &&& self.gv(q).unwrap() + 1 == self.gv(p).unwrap()
                    &&& adjacent(q, p)
                }
            }
    }

    #[verifier::opaque]
    spec fn costs_bounded(&self, grid: &Grid) -> bool {
        &&& forall|p: Cell|
            grid.in_bounds(p) && #[trigger] self.cl(p) ==> self.gv(p) is Some && self.gv(
                p,
            ).unwrap() < self.closed_count
        &&& forall|p: Cell|
            grid.in_bounds(p) && (#[trigger] self.gv(p)) is Some ==> self.gv(p).unwrap()
                <= self.closed_count
    }

    /// Cells with a cost that are not closed wait in the open list with that cost,
    /// and every open entry is keyed by its cost plus the heuristic.
    #[verifier::opaque]
    spec fn open_ok(&self, grid: &Grid, goal: Cell) -> bool {
        &&& forall|p: Cell|
            grid.in_bounds(p) && (#[trigger] self.gv(p)) is Some && !self.cl(p)
                ==> self.open@.contains(entry_for(p, self.gv(p).unwrap(), goal))
        &&& forall|i: int|
            0 <= i < self.open@.len() ==> {
                let e = #[trigger] self.open@[i];
                &&& grid.in_bounds(e.pos)
                &&& self.gv(e.pos) is Some
                &&& self.gv(e.pos).unwrap() <= e.g
                &&& e.f as int == e.g + manhattan(e.pos, goal)
            }
    }

    /// Closed cells `u`, other than `except`, have had their neighbours relaxed.
    #[verifier::opaque]
    spec fn expanded_except(&self, grid: &Grid, except: Option<Cell>) -> bool {
        forall|u: Cell, v: Cell|
            grid.in_bounds(u) && #[trigger] self.cl(u) && Some(u) != except && grid.walkable(v)
                && #[trigger] adjacent(u, v) ==> self.cl(v) || (self.gv(v) is Some && self.gv(
                v,
            ).unwrap() <= self.gv(u).unwrap() + 1)
    }

    spec fn count_ok(&self, grid: &Grid) -> bool {
        self.closed_count == table_sum(
            self.g@,
            self.closed@,
            grid.width as int,
            grid.height as int,
            closed_ind(),
        )
    }

    /// Closed cells on a shortest path from start to goal carry their position
    /// on that path as cost.
    #[verifier::opaque]
    spec fn optimal_ok(&self, grid: &Grid, start: Cell, goal: Cell) -> bool {
        forall|sp: Seq<Cell>, i: int|
            #[trigger] is_shortest_path(grid, sp, start, goal) && 0 <= i < sp.len()
                && #[trigger] self.cl(sp[i]) ==> self.gv(sp[i]) == Some(i as usize)
    }

    spec fn inv_except(&self, grid: &Grid, start: Cell, goal: Cell, except: Option<Cell>) -> bool {
        &&& self.shape_ok(grid)
        &&& self.gv(start) == Some(0usize)
        &&& self.parents_ok(grid, start)
        &&& self.costs_bounded(grid)
        &&& self.open_ok(grid, goal)
        &&& self.expanded_except(grid, except)
        &&& self.count_ok(grid)
        &&& self.optimal_ok(grid, start, goal)
        &&& !self.cl(goal)
    }

    spec fn inv(&self, grid: &Grid, start: Cell, goal: Cell) -> bool {
        self.inv_except(grid, start, goal, None)
    }

    spec fn pot(&self, grid: &Grid) -> nat {
        table_sum(self.g@, self.closed@, grid.width as int, grid.height as int, potential())
    }

    spec fn measure(&self, grid: &Grid) -> nat {
        2 * self.pot(grid) + self.open@.len()
    }
}

/// A cell's cost is the length of a walk from the start that reaches it.
proof fn lemma_cost_walk(st: &SearchState, grid: &Grid, start: Cell, p: Cell) -> (w: Seq<Cell>)
    requires
        grid.wf(),
        st.shape_ok(grid),
        st.parents_ok(grid, start),
        grid.in_bounds(p),
        st.gv(p) is Some,
    ensures
        is_path(grid, w, start, p),
        w.len() == st.gv(p).unwrap() + 1,
    decreases st.gv(p).unwrap(),
{
    reveal(SearchState::parents_ok);
    if p == start {
        let w = seq![p];
        assert(linked(w, 0) ==> true);
        assert(is_walk(grid, w));
        w
    } else {
        let q = st.par(p);
        let wq = lemma_cost_walk(st, grid, start, q);
        lemma_walk_push(grid, wq, p);
        wq.push(p)
    }
}

/// A cell's cost is never below its position on a shortest path.
proof fn lemma_cost_lower(
    st: &SearchState,
    grid: &Grid,
    start: Cell,
    goal: Cell,
    sp: Seq<Cell>,
    i: int,
)
    requires
        grid.wf(),
        st.shape_ok(grid),
        st.parents_ok(grid, start),
        is_shortest_path(grid, sp, start, goal),
        0 <= i < sp.len(),
        st.gv(sp[i]) is Some,
    ensures
        i <= st.gv(sp[i]).unwrap(),
{
    assert(grid.walkable(sp[i]));
    let w = lemma_cost_walk(st, grid, start, sp[i]);
    lemma_shortest_prefix(grid, sp, start, goal, i, w);
}

/// The first cell of a path that is not closed.
proof fn lemma_first_open(st: &SearchState, sp: Seq<Cell>, k: int, i: int) -> (j: int)
    requires
        0 <= k <= i < sp.len(),
        !st.cl(sp[i]),
        forall|m: int| 0 <= m < k ==> st.cl(#[trigger] sp[m]),
    ensures
        k <= j <= i,
        !st.cl(sp[j]),
        forall|m: int| 0 <= m < j ==> st.cl(#[trigger] sp[m]),
    decreases i - k,
{
    if !st.cl(sp[k]) {
        k
    } else {
        lemma_first_open(st, sp, k + 1, i)
    }
}

/// On a shortest path, the first cell that is not closed waits in the open
/// list at its position on the path.
proof fn lemma_frontier_entry(
    st: &SearchState,
    grid: &Grid,
    start: Cell,
    goal: Cell,
    sp: Seq<Cell>,
    j: int,
)
    requires
        grid.wf(),
        st.inv(grid, start, goal),
        is_shortest_path(grid, sp, start, goal),
        0 <= j < sp.len(),
        !st.cl(sp[j]),
        forall|m: int| 0 <= m < j ==> st.cl(#[trigger] sp[m]),
    ensures
        st.gv(sp[j]) == Some(j as usize),
        st.open@.contains(entry_for(sp[j], j as usize, goal)),
{
    reveal(SearchState::optimal_ok);
    reveal(SearchState::expanded_except);
    reveal(SearchState::open_ok);
    assert(grid.walkable(sp[j]));
    if j == 0 {
        assert(sp[0] == start);
    } else {
        assert(st.cl(sp[j - 1]));
        assert(st.gv(sp[j - 1]) == Some((j - 1) as usize));
        assert(linked(sp, j - 1));
        assert(adjacent(sp[j - 1], sp[j]));
        assert(grid.walkable(sp[j - 1]));
        lemma_cost_lower(st, grid, start, goal, sp, j);
    }
}

proof fn lemma_pop_optimal_at(
    st: &SearchState,
    grid: &Grid,
    start: Cell,
    goal: Cell,
    e: OpenEntry,
    sp: Seq<Cell>,
    i: int,
)
    requires
        grid.wf(),
        st.inv(grid, start, goal),
        st.open@.contains(e),
        forall|j: int| 0 <= j < st.open@.len() ==> e.f <= #[trigger] st.open@[j].f,
        !st.cl(e.pos),
        is_shortest_path(grid, sp, start, goal),
        0 <= i < sp.len(),
        sp[i] == e.pos,
    ensures
        st.gv(e.pos) == Some(i as usize),
{
    reveal(SearchState::open_ok);
    let j = lemma_first_open(st, sp, 0, i);
    lemma_frontier_entry(st, grid, start, goal, sp, j);
    let star = entry_for(sp[j], j as usize, goal);
    let k = choose|k: int| 0 <= k < st.open@.len() && st.open@[k] == star;
    assert(e.f <= st.open@[k].f);
    let ke = choose|k: int| 0 <= k < st.open@.len() && st.open@[k] == e;
    assert(st.open@[ke] == e);
    assert(grid.walkable(sp[i]));
    lemma_cost_lower(st, grid, start, goal, sp, i);
    lemma_manhattan_along_walk(grid, sp, j, i, goal);
    assert(grid.walkable(sp[j]));
    lemma_manhattan_fits(grid, sp[j], goal);
}

/// An entry taken with the least key settles its cell at its shortest cost.
proof fn lemma_pop_optimal(st: &SearchState, grid: &Grid, start: Cell, goal: Cell, e: OpenEntry)
    requires
        grid.wf(),
        st.inv(grid, start, goal),
        st.open@.contains(e),
        forall|j: int| 0 <= j < st.open@.len() ==> e.f <= #[trigger] st.open@[j].f,
        !st.cl(e.pos),
    ensures
        forall|sp: Seq<Cell>, i: int|
            #[trigger] is_shortest_path(grid, sp, start, goal) && 0 <= i < sp.len() && #[trigger] sp[i]
                == e.pos ==> st.gv(e.pos) == Some(i as usize),
{
    assert forall|sp: Seq<Cell>, i: int|
        #[trigger] is_shortest_path(grid, sp, start, goal) && 0 <= i < sp.len() && #[trigger] sp[i]
            == e.pos implies st.gv(e.pos) == Some(i as usize) by {
        lemma_pop_optimal_at(st, grid, start, goal, e, sp, i);
    }
}

/// With the open list empty, the goal cannot be reached.
proof fn lemma_exhausted(st: &SearchState, grid: &Grid, start: Cell, goal: Cell)
    requires
        grid.wf(),
        st.inv(grid, start, goal),
        st.open@.len() == 0,
    ensures
        !reachable(grid, start, goal),
{
    if reachable(grid, start, goal) {
        let w = choose|w: Seq<Cell>| is_path(grid, w, start, goal);
        lemma_exhausted_walk(st, grid, start, goal, w);
        assert(st.cl(w[w.len() - 1]));
    }
}

proof fn lemma_exhausted_walk(
    st: &SearchState,
    grid: &Grid,
    start: Cell,
    goal: Cell,
    w: Seq<Cell>,
)
    requires
        grid.wf(),
        st.inv(grid, start, goal),
        st.open@.len() == 0,
        is_path(grid, w, start, goal),
    ensures
        st.cl(w[w.len() - 1]),
{
    reveal(SearchState::open_ok);
    assert(w[0] == start);
    if !st.cl(start) {
        assert(!st.open@.contains(entry_for(start, 0, goal)));
    }
    if 1 < w.len() {
        lemma_exhausted_walk_step(st, grid, start, goal, w, 0);
    }
}

proof fn lemma_exhausted_walk_step(
    st: &SearchState,
    grid: &Grid,
    start: Cell,
    goal: Cell,
    w: Seq<Cell>,
    k: int,
)
    requires
        grid.wf(),
        st.inv(grid, start, goal),
        st.open@.len() == 0,
        is_path(grid, w, start, goal),
        0 <= k,
        k + 1 < w.len(),
        st.cl(w[k]),
    ensures
        st.cl(w[w.len() - 1]),
    decreases w.len() - k,
{
    reveal(SearchState::open_ok);
    reveal(SearchState::expanded_except);
    assert(grid.walkable(w[k]));
    assert(grid.walkable(w[k + 1]));
    assert(linked(w, k));
    assert(adjacent(w[k], w[k + 1]));
    if !st.cl(w[k + 1]) {
        assert(st.gv(w[k + 1]) is Some);
        assert(!st.open@.contains(entry_for(w[k + 1], st.gv(w[k + 1]).unwrap(), goal)));
    }
    if k + 2 < w.len() {
        lemma_exhausted_walk_step(st, grid, start, goal, w, k + 1);
    }
}

/// The state right after an entry was taken from the open list of a state
/// satisfying the invariant.
spec fn popped_from(st: &SearchState, st0: &SearchState, e: OpenEntry) -> bool {
    &&& st.g == st0.g
    &&& st.closed == st0.closed
    &&& st.parent == st0.parent
    &&& st.closed_count == st0.closed_count
    &&& st0.open@.contains(e)
    &&& st.open@.len() + 1 == st0.open@.len()
    &&& forall|x: OpenEntry| st0.open@.contains(x) && x != e ==> st.open@.contains(x)
    &&& forall|x: OpenEntry| #[trigger] st.open@.contains(x) ==> st0.open@.contains(x)
}

spec fn settles_optimally(st0: &SearchState, grid: &Grid, start: Cell, goal: Cell, v: Cell) -> bool {
    forall|sp: Seq<Cell>, i: int|
        #[trigger] is_shortest_path(grid, sp, start, goal) && 0 <= i < sp.len() && #[trigger] sp[i]
            == v ==> st0.gv(v) == Some(i as usize)
}

proof fn lemma_popped_open(st: &SearchState, st0: &SearchState, grid: &Grid, start: Cell, goal: Cell, e: OpenEntry)
    requires
        st0.inv(grid, start, goal),
        popped_from(st, st0, e),
    ensures
        grid.in_bounds(e.pos),
        st0.gv(e.pos) is Some,
        st0.gv(e.pos).unwrap() <= e.g,
        e.f as int == e.g + manhattan(e.pos, goal),
{
    reveal(SearchState::open_ok);
    let k = choose|k: int| 0 <= k < st0.open@.len() && st0.open@[k] == e;
    assert(st0.open@[k] == e);
}

proof fn lemma_popped_parents(st: &SearchState, st0: &SearchState, grid: &Grid, start: Cell, goal: Cell, e: OpenEntry)
    requires
        st0.inv(grid, start, goal),
        popped_from(st, st0, e),
    ensures
        st.shape_ok(grid),
        st.parents_ok(grid, start),
        forall|p: Cell| #[trigger] st.gv(p) == st0.gv(p),
{
    reveal(SearchState::parents_ok);
    assert(forall|p: Cell| #[trigger] st.cl(p) == st0.cl(p));
    assert(forall|p: Cell| #[trigger] st.gv(p) == st0.gv(p));
    assert(forall|p: Cell| #[trigger] st.par(p) == st0.par(p));
}

/// Closing the cell of the entry just taken keeps the invariant, except that the
/// cell's neighbours are still to be relaxed.
proof fn lemma_close_inv(
    st: &SearchState,
    st0: &SearchState,
    grid: &Grid,
    start: Cell,
    goal: Cell,
    e: OpenEntry,
)
    requires
        grid.wf(),
        st0.inv(grid, start, goal),
        st0.open@.contains(e),
        e.pos != goal,
        grid.in_bounds(start),
        grid.in_bounds(goal),
        !st0.cl(e.pos),
        settles_optimally(st0, grid, start, goal, e.pos),
        st.g == st0.g,
        st.parent == st0.parent,
        st.closed@.len() == st0.closed@.len(),
        forall|r: int| 0 <= r < grid.height && r != e.pos.0 ==> st.closed@[r] == st0.closed@[r],
        st.closed@[e.pos.0 as int]@ == st0.closed@[e.pos.0 as int]@.update(e.pos.1 as int, true),
        st.closed_count == st0.closed_count + 1,
        st.closed_count == table_sum(st.g@, st.closed@, grid.width as int, grid.height as int, closed_ind()),
        st.open@.len() + 1 == st0.open@.len(),
        forall|x: OpenEntry| st0.open@.contains(x) && x != e ==> st.open@.contains(x),
        forall|x: OpenEntry| #[trigger] st.open@.contains(x) ==> st0.open@.contains(x),
    ensures
        st.inv_except(grid, start, goal, Some(e.pos)),
        st.cl(e.pos),
{
    let v = e.pos;
    let k = choose|k: int| 0 <= k < st0.open@.len() && st0.open@[k] == e;
    assert(st0.open@[k] == e) by {
        reveal(SearchState::open_ok);
    }
    assert(grid.in_bounds(v) && st0.gv(v) is Some && st0.gv(v).unwrap() <= e.g) by {
        reveal(SearchState::open_ok);
    }
    assert(forall|p: Cell| grid.in_bounds(p) ==> #[trigger] st.cl(p) == (st0.cl(p) || p == v));
    assert(forall|p: Cell| grid.in_bounds(p) ==> #[trigger] st.gv(p) == st0.gv(p));
    assert(st.shape_ok(grid));
    assert(st.parents_ok(grid, start)) by {
        reveal(SearchState::parents_ok);
    }
    assert(st.costs_bounded(grid)) by {
        reveal(SearchState::costs_bounded);
    }
    assert(st.open_ok(grid, goal)) by {
        reveal(SearchState::open_ok);
        assert forall|i: int| 0 <= i < st.open@.len() implies {
            let x = #[trigger] st.open@[i];
            &&& grid.in_bounds(x.pos)
            &&& st.gv(x.pos) is Some
            &&& st.gv(x.pos).unwrap() <= x.g
            &&& x.f as int == x.g + manhattan(x.pos, goal)
        } by {
            let x = st.open@[i];
            assert(st.open@.contains(x));
            let k2 = choose|k2: int| 0 <= k2 < st0.open@.len() && st0.open@[k2] == x;
            assert(st0.open@[k2] == x);
        }
    }
    assert(st.expanded_except(grid, Some(v))) by {
        reveal(SearchState::expanded_except);
    }
    assert(st.optimal_ok(grid, start, goal)) by {
        reveal(SearchState::optimal_ok);
    }
    assert(st.gv(start) == Some(0usize));
    assert(!st.cl(goal));
    assert(st.count_ok(grid));
    assert(st.cl(v));
}

/// Lowering the cost of an open neighbour `nb` of the closed cell `u` keeps the
/// invariant.
proof fn lemma_relax_inv(
    st: &SearchState,
    st0: &SearchState,
    grid: &Grid,
    start: Cell,
    goal: Cell,
    u: Cell,
    nb: Cell,
    t: usize,
)
    requires
        grid.wf(),
        grid.in_bounds(start),
        grid.in_bounds(goal),
        st0.inv_except(grid, start, goal, Some(u)),
        grid.in_bounds(u),
        st0.cl(u),
        grid.walkable(nb),
        adjacent(u, nb),
        !st0.cl(nb),
        st0.gv(u) is Some,
        t == st0.gv(u).unwrap() + 1,
        st0.gv(nb) is None || t < st0.gv(nb).unwrap(),
        st.closed == st0.closed,
        st.closed_count == st0.closed_count,
        st.g@.len() == st0.g@.len(),
        st.parent@.len() == st0.parent@.len(),
        forall|r: int| 0 <= r < grid.height && r != nb.0 ==> st.g@[r] == st0.g@[r],
        forall|r: int| 0 <= r < grid.height && r != nb.0 ==> st.parent@[r] == st0.parent@[r],
        st.g@[nb.0 as int]@ == st0.g@[nb.0 as int]@.update(nb.1 as int, Some(t)),
        st.parent@[nb.0 as int]@ == st0.parent@[nb.0 as int]@.update(nb.1 as int, u),
        st.open@ == st0.open@.push(entry_for(nb, t, goal)),
    ensures
        st.inv_except(grid, start, goal, Some(u)),
{
    assert(forall|p: Cell| grid.in_bounds(p) ==> #[trigger] st.cl(p) == st0.cl(p));
    assert(forall|p: Cell|
        grid.in_bounds(p) && p != nb ==> #[trigger] st.gv(p) == st0.gv(p) && st.par(p) == st0.par(p));
    assert(st.gv(nb) == Some(t) && st.par(nb) == u);
    assert(st.shape_ok(grid));
    assert(st0.gv(start) == Some(0usize));
    assert(nb != start) by {
        if nb == start {
            assert(st0.gv(nb) == Some(0usize));
        }
    }
    assert(st0.gv(u).unwrap() < st0.closed_count) by {
        reveal(SearchState::costs_bounded);
    }
    assert(st.parents_ok(grid, start)) by {
        reveal(SearchState::parents_ok);
    }
    assert(st.costs_bounded(grid)) by {
        reveal(SearchState::costs_bounded);
    }
    assert(st.open_ok(grid, goal)) by {
        reveal(SearchState::open_ok);
        assert forall|p: Cell|
            grid.in_bounds(p) && (#[trigger] st.gv(p)) is Some && !st.cl(p) implies st.open@.contains(
            entry_for(p, st.gv(p).unwrap(), goal),
        ) by {
            if p == nb {
                assert(st.open@[st.open@.len() - 1] == entry_for(nb, t, goal));
            } else {
                let x = entry_for(p, st.gv(p).unwrap(), goal);
                assert(st0.open@.contains(x));
                let k = choose|k: int| 0 <= k < st0.open@.len() && st0.open@[k] == x;
                assert(st.open@[k] == x);
            }
        }
        assert forall|i: int| 0 <= i < st.open@.len() implies {
            let x = #[trigger] st.open@[i];
            &&& grid.in_bounds(x.pos)
            &&& st.gv(x.pos) is Some
            &&& st.gv(x.pos).unwrap() <= x.g
            &&& x.f as int == x.g + manhattan(x.pos, goal)
        } by {
            if i < st0.open@.len() {
                assert(st.open@[i] == st0.open@[i]);
            } else {
                lemma_manhattan_fits(grid, nb, goal);
            }
        }
    }
    assert(st.expanded_except(grid, Some(u))) by {
        reveal(SearchState::expanded_except);
    }
    assert(st.optimal_ok(grid, start, goal)) by {
        reveal(SearchState::optimal_ok);
    }
    assert(!st.cl(goal));
    assert(st.gv(start) == Some(0usize));
    assert(st.count_ok(grid)) by {
        lemma_table_sum_same_closed(st, st0, grid);
    }
}

/// Tables that differ only in costs count the same closed cells.
proof fn lemma_table_sum_same_closed(st: &SearchState, st0: &SearchState, grid: &Grid)
    requires
        st.closed == st0.closed,
    ensures
        table_sum(st.g@, st.closed@, grid.width as int, grid.height as int, closed_ind())
            == table_sum(st0.g@, st0.closed@, grid.width as int, grid.height as int, closed_ind()),
{
    lemma_table_sum_ind_ignores_g(st.g@, st0.g@, st.closed@, grid.width as int, grid.height as int);
}

proof fn lemma_table_sum_ind_ignores_g(
    g1: Seq<Vec<Option<usize>>>,
    g2: Seq<Vec<Option<usize>>>,
    c: Seq<Vec<bool>>,
    w: int,
    k: int,
)
    ensures
        table_sum(g1, c, w, k, closed_ind()) == table_sum(g2, c, w, k, closed_ind()),
    decreases k,
{
    if k > 0 {
        lemma_table_sum_ind_ignores_g(g1, g2, c, w, k - 1);
        lemma_row_sum_ind_ignores_g(g1[k - 1]@, g2[k - 1]@, c[k - 1]@, w);
    }
}

proof fn lemma_row_sum_ind_ignores_g(
    g1: Seq<Option<usize>>,
    g2: Seq<Option<usize>>,
    c: Seq<bool>,
    k: int,
)
    ensures
        row_sum(g1, c, k, closed_ind()) == row_sum(g2, c, k, closed_ind()),
    decreases k,
{
    if k > 0 {
        lemma_row_sum_ind_ignores_g(g1, g2, c, k - 1);
    }
}

/// Closes the cell of the entry just taken from the open list.
fn close(
    st: &mut SearchState,
    grid: &Grid,
    start: Cell,
    goal: Cell,
    v: Cell,
    Ghost(st0): Ghost<SearchState>,
    Ghost(e): Ghost<OpenEntry>,
)
    requires
        grid.wf(),
        grid.in_bounds(start),
        grid.in_bounds(goal),
        st0.inv(grid, start, goal),
        popped_from(old(st), &st0, e),
        e.pos == v,
        v != goal,
        !st0.cl(v) ==> settles_optimally(&st0, grid, start, goal, v),
    ensures
        final(st).inv_except(grid, start, goal, Some(v)),
        grid.in_bounds(v),
        final(st).cl(v),
        final(st).measure(grid) < st0.measure(grid),
{
    proof {
        lemma_popped_open(old(st), &st0, grid, start, goal, e);
    }
    let ghost w = grid.width as int;
    let ghost h = grid.height as int;
    if !st.closed[v.0][v.1] {
        let ghost before = *st;
        st.closed[v.0][v.1] = true;
        proof {
            lemma_table_sum_update(
                before.g@,
                before.closed@,
                st.g@,
                st.closed@,
                w,
                h,
                v.0 as int,
                v.1 as int,
                closed_ind(),
            );
            lemma_table_sum_bound(st.g@, st.closed@, w, h, closed_ind());
            assert(h * w <= usize::MAX) by (nonlinear_arith)
                requires
                    w * h <= usize::MAX,
            ;
            lemma_table_sum_update(
                before.g@,
                before.closed@,
                st.g@,
                st.closed@,
                w,
                h,
                v.0 as int,
                v.1 as int,
                potential(),
            );
        }
        st.closed_count = st.closed_count + 1;
        proof {
            lemma_close_inv(st, &st0, grid, start, goal, e);
        }
    } else {
        proof {
            lemma_reclose_inv(st, &st0, grid, start, goal, e);
        }
    }
}

/// Taking a stale entry of a cell already closed keeps the invariant.
proof fn lemma_reclose_inv(
    st: &SearchState,
    st0: &SearchState,
    grid: &Grid,
    start: Cell,
    goal: Cell,
    e: OpenEntry,
)
    requires
        st0.inv(grid, start, goal),
        popped_from(st, st0, e),
        st0.cl(e.pos),
    ensures
        st.inv_except(grid, start, goal, Some(e.pos)),
{
    assert(forall|p: Cell| #[trigger] st.cl(p) == st0.cl(p));
    assert(forall|p: Cell| #[trigger] st.gv(p) == st0.gv(p));
    assert(forall|p: Cell| #[trigger] st.par(p) == st0.par(p));
    assert(st.parents_ok(grid, start)) by {
        reveal(SearchState::parents_ok);
    }
    assert(st.costs_bounded(grid)) by {
        reveal(SearchState::costs_bounded);
    }
    assert(st.optimal_ok(grid, start, goal)) by {
        reveal(SearchState::optimal_ok);
    }
    assert(st.open_ok(grid, goal)) by {
        reveal(SearchState::open_ok);
        assert forall|p: Cell|
            grid.in_bounds(p) && (#[trigger] st.gv(p)) is Some && !st.cl(p) implies st.open@.contains(
            entry_for(p, st.gv(p).unwrap(), goal),
        ) by {
            assert(st0.open@.contains(entry_for(p, st.gv(p).unwrap(), goal)));
        }
        assert forall|i: int| 0 <= i < st.open@.len() implies {
            let x = #[trigger] st.open@[i];
            &&& grid.in_bounds(x.pos)
            &&& st.gv(x.pos) is Some
            &&& st.gv(x.pos).unwrap() <= x.g
            &&& x.f as int == x.g + manhattan(x.pos, goal)
        } by {
            let x = st.open@[i];
            assert(st.open@.contains(x));
            let k2 = choose|k2: int| 0 <= k2 < st0.open@.len() && st0.open@[k2] == x;
            assert(st0.open@[k2] == x);
        }
    }
    assert(st.expanded_except(grid, Some(e.pos))) by {
        reveal(SearchState::expanded_except);
    }
}

/// Offers the neighbour `nb` of the closed cell `u` a path through `u`.
fn relax(st: &mut SearchState, grid: &Grid, start: Cell, goal: Cell, u: Cell, nb: Cell)
    requires
        grid.wf(),
        grid.in_bounds(start),
        grid.in_bounds(goal),
        old(st).inv_except(grid, start, goal, Some(u)),
        grid.in_bounds(u),
        old(st).cl(u),
        grid.in_bounds(nb),
        adjacent(u, nb),
    ensures
        final(st).inv_except(grid, start, goal, Some(u)),
        final(st).closed == old(st).closed,
        forall|p: Cell| grid.in_bounds(p) && p != nb ==> #[trigger] final(st).gv(p) == old(st).gv(p),
        grid.walkable(nb) ==> final(st).cl(nb) || (final(st).gv(nb) is Some && final(st).gv(
            nb,
        ).unwrap() <= final(st).gv(u).unwrap() + 1),
        old(st).gv(nb) is Some ==> final(st).gv(nb) is Some && final(st).gv(nb).unwrap() <= old(
            st,
        ).gv(nb).unwrap(),
        final(st).measure(grid) <= old(st).measure(grid),
{
    if !grid.cells[nb.0][nb.1] || st.closed[nb.0][nb.1] {
        return;
    }
    proof {
        reveal(SearchState::costs_bounded);
    }
    let gu = st.g[u.0][u.1].unwrap();
    let tentative = gu + 1;
    let better = match st.g[nb.0][nb.1] {
        None => true,
        Some(x) => tentative < x,
    };
    if better {
        let ghost before = *st;
        proof {
            lemma_manhattan_fits(grid, nb, goal);
        }
        st.parent[nb.0][nb.1] = u;
        st.g[nb.0][nb.1] = Some(tentative);
        let h = heuristic(nb, goal);
        st.open.push(OpenEntry { f: tentative as u128 + h as u128, g: tentative, pos: nb });
        proof {
            lemma_relax_inv(st, &before, grid, start, goal, u, nb, tentative);
            lemma_table_sum_update(
                before.g@,
                before.closed@,
                st.g@,
                st.closed@,
                grid.width as int,
                grid.height as int,
                nb.0 as int,
                nb.1 as int,
                potential(),
            );
        }
    }
}

spec fn relaxed(st: &SearchState, grid: &Grid, u: Cell, v: Cell) -> bool {
    grid.walkable(v) ==> st.cl(v) || (st.gv(v) is Some && st.gv(v).unwrap() <= st.gv(u).unwrap() + 1)
}

/// Relaxes the four neighbours of the closed cell `u`.
fn expand(st: &mut SearchState, grid: &Grid, start: Cell, goal: Cell, u: Cell)
    requires
        grid.wf(),
        grid.in_bounds(start),
        grid.in_bounds(goal),
        old(st).inv_except(grid, start, goal, Some(u)),
        grid.in_bounds(u),
        old(st).cl(u),
    ensures
        final(st).inv(grid, start, goal),
        final(st).measure(grid) <= old(st).measure(grid),
{
    let (r, c) = u;
    let ghost e = (r, (c + 1) as usize);
    let ghost s_ = ((r + 1) as usize, c);
    let ghost wv = (r, (c - 1) as usize);
    let ghost n = ((r - 1) as usize, c);
    if c + 1 < grid.width {
        relax(st, grid, start, goal, u, (r, c + 1));
    }
    assert(grid.in_bounds(e) ==> relaxed(st, grid, u, e));
    if r + 1 < grid.height {
        relax(st, grid, start, goal, u, (r + 1, c));
    }
    assert(grid.in_bounds(e) ==> relaxed(st, grid, u, e));
    assert(grid.in_bounds(s_) ==> relaxed(st, grid, u, s_));
    if c > 0 {
        relax(st, grid, start, goal, u, (r, c - 1));
    }
    assert(grid.in_bounds(e) ==> relaxed(st, grid, u, e));
    assert(grid.in_bounds(s_) ==> relaxed(st, grid, u, s_));
    assert(c > 0 ==> relaxed(st, grid, u, wv));
    if r > 0 {
        relax(st, grid, start, goal, u, (r - 1, c));
    }
    assert(grid.in_bounds(e) ==> relaxed(st, grid, u, e));
    assert(grid.in_bounds(s_) ==> relaxed(st, grid, u, s_));
    assert(c > 0 ==> relaxed(st, grid, u, wv));
    assert(r > 0 ==> relaxed(st, grid, u, n));
    proof {
        reveal(SearchState::expanded_except);
        assert forall|a: Cell, v: Cell|
            grid.in_bounds(a) && #[trigger] st.cl(a) && Some(a) != (None::<Cell>) && grid.walkable(v)
                && #[trigger] adjacent(a, v) implies st.cl(v) || (st.gv(v) is Some && st.gv(
            v,
        ).unwrap() <= st.gv(a).unwrap() + 1) by {
            if a == u {
                assert(v == e || v == s_ || v == wv || v == n);
                assert(relaxed(st, grid, u, v));
            }
        }
    }
}

fn init(grid: &Grid, start: Cell, goal: Cell) -> (st: SearchState)
    requires
        grid.wf(),
        grid.walkable(start),
        grid.walkable(goal),
    ensures
        st.inv(grid, start, goal),
{
    let mut g = make_table(grid.height, grid.width, None::<usize>);
    g[start.0][start.1] = Some(0);
    let closed = make_table(grid.height, grid.width, false);
    let parent = make_table(grid.height, grid.width, (0usize, 0usize));
    proof {
        lemma_manhattan_fits(grid, start, goal);
    }
    let hs = heuristic(start, goal);
    let mut open: Vec<OpenEntry> = Vec::new();
    open.push(OpenEntry { f: hs as u128, g: 0, pos: start });
    let st = SearchState { g, closed, parent, open, closed_count: 0 };
    proof {
        assert(forall|p: Cell| grid.in_bounds(p) ==> !#[trigger] st.cl(p));
        assert(forall|p: Cell|
            grid.in_bounds(p) && p != start ==> #[trigger] st.gv(p) == None::<usize>);
        assert(st.gv(start) == Some(0usize));
        assert(st.open@[0] == entry_for(start, 0, goal));
        assert(st.parents_ok(grid, start)) by {
            reveal(SearchState::parents_ok);
        }
        assert(st.costs_bounded(grid)) by {
            reveal(SearchState::costs_bounded);
        }
        assert(st.open_ok(grid, goal)) by {
            reveal(SearchState::open_ok);
        }
        assert(st.expanded_except(grid, None)) by {
            reveal(SearchState::expanded_except);
        }
        assert(st.optimal_ok(grid, start, goal)) by {
            reveal(SearchState::optimal_ok);
            assert forall|sp: Seq<Cell>, i: int|
                #[trigger] is_shortest_path(grid, sp, start, goal) && 0 <= i < sp.len()
                    && #[trigger] st.cl(sp[i]) implies st.gv(sp[i]) == Some(i as usize) by {
                assert(grid.walkable(sp[i]));
            }
        }
        lemma_table_sum_zero(
            st.g@,
            st.closed@,
            grid.width as int,
            grid.height as int,
            closed_ind(),
        );
    }
    st
}

/// Follows parents back from the goal to the start.
fn reconstruct(st: &SearchState, grid: &Grid, start: Cell, goal: Cell) -> (path: Vec<Cell>)
    requires
        grid.wf(),
        st.shape_ok(grid),
        st.parents_ok(grid, start),
        grid.in_bounds(goal),
        st.gv(goal) is Some,
    ensures
        is_path(grid, path@, start, goal),
        path@.len() == st.gv(goal).unwrap() + 1,
{
    proof {
        reveal(SearchState::parents_ok);
    }
    let ghost x = st.gv(goal).unwrap() as int;
    let mut rev: Vec<Cell> = Vec::new();
    let mut curr = goal;
    while curr.0 != start.0 || curr.1 != start.1
        invariant
            grid.wf(),
            st.shape_ok(grid),
            st.parents_ok(grid, start),
            grid.in_bounds(curr),
            st.gv(curr) is Some,
            grid.walkable(curr),
            rev@.len() + st.gv(curr).unwrap() == x,
            forall|k: int| 0 <= k < rev@.len() ==> grid.walkable(#[trigger] rev@[k]),
            forall|k: int| 0 <= k < rev@.len() - 1 ==> adjacent(#[trigger] rev@[k + 1], rev@[k]),
            rev@.len() > 0 ==> rev@[0] == goal && adjacent(curr, rev@[rev@.len() - 1]),
            rev@.len() == 0 ==> curr == goal,
        decreases st.gv(curr).unwrap(),
    {
        proof {
            reveal(SearchState::parents_ok);
            assert(curr != start);
        }
        rev.push(curr);
        let q = st.parent[curr.0][curr.1];
        curr = q;
    }
    rev.push(curr);
    let n = rev.len();
    let mut path: Vec<Cell> = Vec::new();
    let mut k: usize = 0;
    while k < n
        invariant
            n == rev@.len(),
            k <= n,
            path@.len() == k,
            forall|j: int| 0 <= j < k ==> path@[j] == rev@[n - 1 - j],
        decreases n - k,
    {
        path.push(rev[n - 1 - k]);
        k += 1;
    }
    proof {
        assert(rev@[n - 1] == start);
        assert forall|i: int| 0 <= i < path@.len() implies grid.walkable(#[trigger] path@[i]) by {
            assert(path@[i] == rev@[n - 1 - i]);
        }
        assert forall|i: int| 0 <= i < path@.len() - 1 implies #[trigger] linked(path@, i) by {
            assert(path@[i] == rev@[n - 1 - i]);
            assert(path@[i + 1] == rev@[n - 2 - i]);
            assert(adjacent(rev@[(n - 2 - i) + 1], rev@[n - 2 - i]));
        }
        assert(path@[0] == start);
        assert(path@[path@.len() - 1] == rev@[0]);
    }
    path
}

/// Perform A* search on a grid.
///
/// Finds a shortest 4-connected path of walkable cells from the query's start
/// to its goal, or reports that the goal cannot be reached.
pub fn astar_search(query: &PathfindingQuery) -> (res: Result<Vec<(usize, usize)>, TaskError>)
    requires
        query.grid.wf(),
        query.grid.walkable(query.start),
        query.grid.walkable(query.goal),
    ensures
        match res {
            Ok(path) => is_shortest_path(&query.grid, path@, query.start, query.goal),
            Err(e) => e is Pathfinding && !reachable(&query.grid, query.start, query.goal),
        },
{
    let grid = &query.grid;
    let start = query.start;
    let goal = query.goal;
    let mut st = init(grid, start, goal);
    loop
        invariant
            grid == &query.grid,
            start == query.start,
            goal == query.goal,
            grid.wf(),
            grid.walkable(start),
            grid.walkable(goal),
            st.inv(grid, start, goal),
        decreases st.measure(grid),
    {
        if st.open.len() == 0 {
            proof {
                lemma_exhausted(&st, grid, start, goal);
            }
            return Err(TaskError::Pathfinding(String::from_str("No path found")));
        }
        let ghost st0 = st;
        let e = pop_min(&mut st.open);
        proof {
            if !st0.cl(e.pos) {
                lemma_pop_optimal(&st0, grid, start, goal, e);
            }
            lemma_popped_open(&st, &st0, grid, start, goal, e);
            lemma_popped_parents(&st, &st0, grid, start, goal, e);
        }
        if e.pos.0 == goal.0 && e.pos.1 == goal.1 {
            let path = reconstruct(&st, grid, start, goal);
            proof {
                assert(st.gv(goal) == st0.gv(goal));
                lemma_goal_path_shortest(&st0, grid, start, goal, path@);
            }
            return Ok(path);
        }
        close(&mut st, grid, start, goal, e.pos, Ghost(st0), Ghost(e));
        expand(&mut st, grid, start, goal, e.pos);
    }
}

/// A path as long as the goal's settled cost is a shortest path.
proof fn lemma_goal_path_shortest(st0: &SearchState, grid: &Grid, start: Cell, goal: Cell, path: Seq<Cell>)
    requires
        grid.wf(),
        st0.inv(grid, start, goal),
        settles_optimally(st0, grid, start, goal, goal),
        is_path(grid, path, start, goal),
        st0.gv(goal) is Some,
        path.len() == st0.gv(goal).unwrap() + 1,
    ensures
        is_shortest_path(grid, path, start, goal),
{
    lemma_shortest_exists(grid, start, goal);
    let sp = choose|w: Seq<Cell>| is_shortest_path(grid, w, start, goal);
    let k = sp.len() - 1;
    assert(sp[k] == goal);
    assert(st0.gv(goal) == Some(k as usize));
    assert forall|q: Seq<Cell>| #[trigger] is_path(grid, q, start, goal) implies path.len() <= q.len() by {
        assert(sp.len() <= q.len());
    }
}

/// What running A* on a query gives: an invalid-input error when the start or
/// the goal is outside the grid or blocked, otherwise a shortest path with its
/// number of steps, or a pathfinding error exactly when the goal is unreachable.
pub open spec fn astar_outcome(q: &PathfindingQuery, res: Result<Path, TaskError>) -> bool {
    if !q.grid.in_bounds(q.start) {
        res matches Err(TaskError::InvalidInput(m)) && m@ == out_of_bounds_text(
            "Start"@,
            q.start,
            q.grid.height,
            q.grid.width,
        )
    } else if !q.grid.in_bounds(q.goal) {
        res matches Err(TaskError::InvalidInput(m)) && m@ == out_of_bounds_text(
            "Goal"@,
            q.goal,
            q.grid.height,
            q.grid.width,
        )
    } else if !q.grid.walkable(q.start) {
        res matches Err(TaskError::InvalidInput(m)) && m@ == "Start cell is not walkable"@
    } else if !q.grid.walkable(q.goal) {
        res matches Err(TaskError::InvalidInput(m)) && m@ == "Goal cell is not walkable"@
    } else {
        match res {
            Ok(p) => is_shortest_path(&q.grid, p.path@, q.start, q.goal) && p.cost == p.path@.len()
                - 1,
            Err(e) => e is Pathfinding && !reachable(&q.grid, q.start, q.goal),
        }
    }
}

/// The message for a start or goal cell outside a `height` x `width` grid.
pub open spec fn out_of_bounds_text(which: Seq<char>, p: Cell, height: usize, width: usize) -> Seq<
    char,
> {
    which + " position ("@ + decimal(p.0 as nat) + ", "@ + decimal(p.1 as nat) + ") out of bounds ("@
        + decimal(height as nat) + "x"@ + decimal(width as nat) + ")"@
}

/// Message for a start or goal cell outside the grid.
fn out_of_bounds_message(which: &str, p: (usize, usize), height: usize, width: usize) -> (m: String)
    ensures
        m@ == out_of_bounds_text(which@, p, height, width),
{
    String::from_str(which).concat(" position (").concat(decimal_string(p.0).as_str()).concat(
        ", ",
    ).concat(decimal_string(p.1).as_str()).concat(") out of bounds (").concat(
        decimal_string(height).as_str(),
    ).concat("x").concat(decimal_string(width).as_str()).concat(")")
}

/// The shape of a YOLO output tensor `[batch, 4 + num_classes, num_boxes]`,
/// stored row-major.
pub struct YoloLayout {
    pub batch: usize,
    pub features: usize,
    pub boxes: usize,
}

/// What checking the dimensions of a YOLO output gives: three dimensions
/// whose middle one is `4 + num_classes`, or the reason they are refused.
pub open spec fn yolo_layout_outcome(
    dims: Seq<usize>,
    num_classes: usize,
    res: Result<YoloLayout, TaskError>,
) -> bool {
    if dims.len() != 3 {
        res matches Err(TaskError::InvalidInput(m)) && m@ == "Expected 3D tensor, got "@ + decimal(
            dims.len(),
        ) + "D"@
    } else if dims[1] != 4 + num_classes {
        res matches Err(TaskError::InvalidInput(m)) && m@ == "Expected feature dimension "@
            + decimal((4 + num_classes) as nat) + " (4+num_classes), got "@ + decimal(dims[1] as nat)
    } else {
        res matches Ok(l) && l.batch == dims[0] && l.features == dims[1] && l.boxes == dims[2]
    }
}

/// Checks the dimensions of a raw YOLO output tensor.
pub fn yolo_output_layout(dims: &[usize], num_classes: usize) -> (res: Result<YoloLayout, TaskError>)
    requires
        4 + num_classes <= usize::MAX,
    ensures
        yolo_layout_outcome(dims@, num_classes, res),
{
    if dims.len() != 3 {
        let m = String::from_str("Expected 3D tensor, got ").concat(
            decimal_string(dims.len()).as_str(),
        ).concat("D");
        return Err(TaskError::InvalidInput(m));
    }
    let expected = 4 + num_classes;
    if dims[1] != expected {
        let m = String::from_str("Expected feature dimension ").concat(
            decimal_string(expected).as_str(),
        ).concat(" (4+num_classes), got ").concat(decimal_string(dims[1]).as_str());
        return Err(TaskError::InvalidInput(m));
    }
    Ok(YoloLayout { batch: dims[0], features: dims[1], boxes: dims[2] })
}

/// The position of feature `f` of box `bx` in batch element `b` of the flat,
/// row-major output.
pub fn yolo_value_index(layout: &YoloLayout, b: usize, f: usize, bx: usize) -> (i: usize)
    requires
        b < layout.batch,
        f < layout.features,
        bx < layout.boxes,
        layout.batch * layout.features * layout.boxes <= usize::MAX,
    ensures
        i == b * (layout.features * layout.boxes) + f * layout.boxes + bx,
        i < layout.batch * layout.features * layout.boxes,
{
    let ghost nb: int = layout.batch as int;
    let ghost nf: int = layout.features as int;
    let ghost nx: int = layout.boxes as int;
    proof {
        assert(f * nx + bx < nf * nx) by (nonlinear_arith)
            requires
                0 <= f < nf,
                0 <= bx < nx,
        ;
        assert(b * (nf * nx) + nf * nx <= nb * nf * nx) by (nonlinear_arith)
            requires
                0 <= b < nb,
                0 <= nf,
                0 <= nx,
        ;
        assert(0 <= f * nx) by (nonlinear_arith)
            requires
                0 <= f,
                0 <= nx,
        ;
        assert(0 <= b * (nf * nx)) by (nonlinear_arith)
            requires
                0 <= b,
                0 <= nf,
                0 <= nx,
        ;
    }
    b * (layout.features * layout.boxes) + f * layout.boxes + bx
}

/// A* pathfinding algorithm.
///
/// Implements the classic A* algorithm with Manhattan distance heuristic.
/// Supports batch processing for multiple queries (batch size > 1) by
/// processing them sequentially (the batch size is mainly for API compatibility).
pub struct AStar {
    batch_size: usize,
}

impl AStar {
    pub closed spec fn spec_batch_size(&self) -> usize {
        self.batch_size
    }

    /// Create a new A* pathfinder.
    pub fn new() -> (a: Self)
        ensures
            a.spec_batch_size() == 1,
    {
        AStar { batch_size: 1 }
    }

    /// Validates the query, then searches for a shortest path.
    pub fn run(&self, input: PathfindingQuery) -> (res: Result<Path, TaskError>)
        requires
            input.grid.wf(),
        ensures
            astar_outcome(&input, res),
    {
        let (sr, sc) = input.start;
        let (gr, gc) = input.goal;
        let grid = &input.grid;
        if sr >= grid.height || sc >= grid.width {
            return Err(
                TaskError::InvalidInput(
                    out_of_bounds_message("Start", input.start, grid.height, grid.width),
                ),
            );
        }
        if gr >= grid.height || gc >= grid.width {
            return Err(
                TaskError::InvalidInput(
                    out_of_bounds_message("Goal", input.goal, grid.height, grid.width),
                ),
            );
        }
        if !grid.cells[sr][sc] {
            return Err(TaskError::InvalidInput(String::from_str("Start cell is not walkable")));
        }
        if !grid.cells[gr][gc] {
            return Err(TaskError::InvalidInput(String::from_str("Goal cell is not walkable")));
        }
        let path = astar_search(&input)?;
        let cost = path.len() - 1;
        Ok(Path { path, cost })
    }

    /// The number of queries the pathfinder takes per batch.
    pub fn batch_size(&self) -> (b: usize)
        ensures
            b == self.spec_batch_size(),
    {
        self.batch_size
    }

    /// Sets the number of queries per batch (at least one).
    pub fn set_batch_size(&mut self, batch_size: usize)
        ensures
            final(self).spec_batch_size() == if batch_size >= 1 {
                batch_size
            } else {
                1
            },
    {
        self.batch_size = if batch_size >= 1 {
            batch_size
        } else {
            1
        };
    }
}

impl Default for AStar {
    fn default() -> (a: Self)
        ensures
            a.spec_batch_size() == 1,
    {
        Self::new()
    }
}

} // verus!
