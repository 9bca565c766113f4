//! The 2D occupancy grid and the walk/path vocabulary the path planner is
//! specified in.

use vstd::prelude::*;

verus! {

/// A grid cell, as (row, column).
pub type Cell = (usize, usize);

/// A 2D grid for pathfinding.
pub struct Grid {
    /// Width of the grid (number of columns)
    pub width: usize,
    /// Height of the grid (number of rows)
    pub height: usize,
    /// Cell walkability: true = walkable, false = obstacle.
    pub cells: Vec<Vec<bool>>,
}

impl Grid {
    /// `cells` holds `height` rows of `width` flags each.
    pub open spec fn shaped(&self) -> bool {
        &&& self.cells@.len() == self.height
        &&& forall|r: int| 0 <= r < self.height ==> (#[trigger] self.cells@[r])@.len() == self.width
    }

    /// Every cell of the grid occupies memory, so the number of cells fits in a `usize`.
    pub open spec fn fits_memory(&self) -> bool {
        self.width * self.height <= usize::MAX
    }

    pub open spec fn wf(&self) -> bool {
        self.shaped() && self.fits_memory()
    }

    pub open spec fn in_bounds(&self, p: Cell) -> bool {
        p.0 < self.height && p.1 < self.width
    }

    pub open spec fn walkable(&self, p: Cell) -> bool {
        self.in_bounds(p) && self.cells@[p.0 as int]@[p.1 as int]
    }
}

/// `a` and `b` are 4-connected neighbours.
pub open spec fn adjacent(a: Cell, b: Cell) -> bool {
    ||| a.0 == b.0 && (a.1 + 1 == b.1 || b.1 + 1 == a.1)
    ||| a.1 == b.1 && (a.0 + 1 == b.0 || b.0 + 1 == a.0)
}

pub open spec fn udiff(x: usize, y: usize) -> nat {
    if x >= y {
        (x - y) as nat
    } else {
        (y - x) as nat
    }
}

/// Manhattan distance between two cells.
pub open spec fn manhattan(a: Cell, b: Cell) -> nat {
    udiff(a.0, b.0) + udiff(a.1, b.1)
}

/// Consecutive cells `w[i]` and `w[i + 1]` are neighbours.
pub open spec fn linked(w: Seq<Cell>, i: int) -> bool {
    adjacent(w[i], w[i + 1])
}

/// A non-empty sequence of walkable cells, each a neighbour of the next.
pub open spec fn is_walk(grid: &Grid, w: Seq<Cell>) -> bool {
    &&& w.len() > 0
    &&& forall|i: int| 0 <= i < w.len() ==> grid.walkable(#[trigger] w[i])
    &&& forall|i: int| 0 <= i < w.len() - 1 ==> #[trigger] linked(w, i)
}

/// A walk from `s` to `t` (both included).
pub open spec fn is_path(grid: &Grid, w: Seq<Cell>, s: Cell, t: Cell) -> bool {
    &&& is_walk(grid, w)
    &&& w[0] == s
    &&& w.last() == t
}

pub open spec fn reachable(grid: &Grid, s: Cell, t: Cell) -> bool {
    exists|w: Seq<Cell>| is_path(grid, w, s, t)
}

/// A path from `s` to `t` with no more cells than any other.
pub open spec fn is_shortest_path(grid: &Grid, w: Seq<Cell>, s: Cell, t: Cell) -> bool {
    &&& is_path(grid, w, s, t)
    &&& forall|q: Seq<Cell>| #[trigger] is_path(grid, q, s, t) ==> w.len() <= q.len()
}

/// Two walks glued where the first ends and the second begins.
pub proof fn lemma_walk_concat(grid: &Grid, a: Seq<Cell>, b: Seq<Cell>)
    requires
        is_walk(grid, a),
        is_walk(grid, b),
        adjacent(a.last(), b[0]),
    ensures
        is_walk(grid, a + b),
{
    let w = a + b;
    assert forall|i: int| 0 <= i < w.len() implies grid.walkable(#[trigger] w[i]) by {
        if i < a.len() {
            assert(w[i] == a[i]);
        } else {
            assert(w[i] == b[i - a.len()]);
        }
    }
    assert forall|i: int| 0 <= i < w.len() - 1 implies #[trigger] linked(w, i) by {
        if i < a.len() - 1 {
            assert(linked(a, i));
        } else if i == a.len() - 1 {
        } else {
            assert(linked(b, i - a.len()));
        }
    }
}

/// A walk extended by one neighbouring walkable cell.
pub proof fn lemma_walk_push(grid: &Grid, a: Seq<Cell>, p: Cell)
    requires
        is_walk(grid, a),
        grid.walkable(p),
        adjacent(a.last(), p),
    ensures
        is_walk(grid, a.push(p)),
{
    let b = seq![p];
    lemma_walk_concat(grid, a, b);
    assert(a + b =~= a.push(p));
}

/// Any contiguous piece of a walk is a walk.
pub proof fn lemma_walk_subrange(grid: &Grid, a: Seq<Cell>, lo: int, hi: int)
    requires
        is_walk(grid, a),
        0 <= lo < hi <= a.len(),
    ensures
        is_walk(grid, a.subrange(lo, hi)),
{
    let w = a.subrange(lo, hi);
    assert forall|i: int| 0 <= i < w.len() implies grid.walkable(#[trigger] w[i]) by {
        assert(w[i] == a[lo + i]);
    }
    assert forall|i: int| 0 <= i < w.len() - 1 implies #[trigger] linked(w, i) by {
        assert(linked(a, lo + i));
    }
}

/// The Manhattan distance to a fixed cell changes by at most one per step.
pub proof fn lemma_manhattan_step(a: Cell, b: Cell, t: Cell)
    requires
        adjacent(a, b),
    ensures
        manhattan(a, t) <= manhattan(b, t) + 1,
        manhattan(b, t) <= manhattan(a, t) + 1,
{
}

/// Along a walk, the Manhattan distance to a fixed cell changes by at most the
/// number of steps taken.
pub proof fn lemma_manhattan_along_walk(grid: &Grid, w: Seq<Cell>, j: int, i: int, t: Cell)
    requires
        is_walk(grid, w),
        0 <= j <= i < w.len(),
    ensures
        manhattan(w[j], t) <= manhattan(w[i], t) + (i - j),
    decreases i - j,
{
    if j < i {
        lemma_manhattan_along_walk(grid, w, j + 1, i, t);
        assert(linked(w, j));
        lemma_manhattan_step(w[j], w[j + 1], t);
    }
}

/// Every walk is at least as long as the Manhattan distance between its ends, plus one.
pub proof fn lemma_manhattan_lower_bound(grid: &Grid, w: Seq<Cell>)
    requires
        is_walk(grid, w),
    ensures
        manhattan(w[0], w.last()) + 1 <= w.len(),
{
    lemma_manhattan_along_walk(grid, w, 0, w.len() - 1, w.last());
}

/// Every cell of a shortest path is reached no sooner by any other path.
pub proof fn lemma_shortest_prefix(grid: &Grid, sp: Seq<Cell>, s: Cell, t: Cell, i: int, q: Seq<Cell>)
    requires
        is_shortest_path(grid, sp, s, t),
        0 <= i < sp.len(),
        is_path(grid, q, s, sp[i]),
    ensures
        i + 1 <= q.len(),
{
    if i + 1 < sp.len() {
        let rest = sp.subrange(i + 1, sp.len() as int);
        lemma_walk_subrange(grid, sp, i + 1, sp.len() as int);
        assert(linked(sp, i));
        assert(rest[0] == sp[i + 1]);
        lemma_walk_concat(grid, q, rest);
        let w = q + rest;
        assert(w[0] == s);
        assert(w.last() == t);
        assert(is_path(grid, w, s, t));
    } else {
        assert(is_path(grid, q, s, t));
    }
}

/// Among the paths of at most `m` cells, if there is one, there is one no
/// longer than every path.
proof fn lemma_shortest_exists_below(grid: &Grid, s: Cell, t: Cell, m: nat)
    requires
        exists|w: Seq<Cell>| is_path(grid, w, s, t) && w.len() <= m,
    ensures
        exists|w: Seq<Cell>| is_shortest_path(grid, w, s, t),
    decreases m,
{
    if m > 0 && exists|w: Seq<Cell>| is_path(grid, w, s, t) && w.len() <= (m - 1) as nat {
        lemma_shortest_exists_below(grid, s, t, (m - 1) as nat);
    } else {
        let w = choose|w: Seq<Cell>| is_path(grid, w, s, t) && w.len() <= m;
        assert forall|q: Seq<Cell>| #[trigger] is_path(grid, q, s, t) implies w.len() <= q.len() by {
            if q.len() < w.len() {
                assert(q.len() <= (m - 1) as nat);
            }
        }
        assert(is_shortest_path(grid, w, s, t));
    }
}

/// A reachable cell has a shortest path.
pub proof fn lemma_shortest_exists(grid: &Grid, s: Cell, t: Cell)
    requires
        reachable(grid, s, t),
    ensures
        exists|w: Seq<Cell>| is_shortest_path(grid, w, s, t),
{
    let w = choose|w: Seq<Cell>| is_path(grid, w, s, t);
    lemma_shortest_exists_below(grid, s, t, w.len());
}

} // verus!
