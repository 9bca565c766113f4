//! Sums over the cells of the per-cell tables the path planner keeps, and the
//! facts about them its bookkeeping needs.

use vstd::prelude::*;

verus! {

/// A table of per-cell values, one row per grid row.
pub type Table<T> = Vec<Vec<T>>;

/// Sum of `f` over the first `k` cells of one row.
pub open spec fn row_sum(
    gr: Seq<Option<usize>>,
    cr: Seq<bool>,
    k: int,
    f: spec_fn(Option<usize>, bool) -> nat,
) -> nat
    decreases k,
{
    if k <= 0 {
        0
    } else {
        row_sum(gr, cr, k - 1, f) + f(gr[k - 1], cr[k - 1])
    }
}

/// Sum of `f` over the first `k` rows, each `w` cells wide.
pub open spec fn table_sum(
    g: Seq<Vec<Option<usize>>>,
    c: Seq<Vec<bool>>,
    w: int,
    k: int,
    f: spec_fn(Option<usize>, bool) -> nat,
) -> nat
    decreases k,
{
    if k <= 0 {
        0
    } else {
        table_sum(g, c, w, k - 1, f) + row_sum(g[k - 1]@, c[k - 1]@, w, f)
    }
}

pub proof fn lemma_row_sum_same(
    gr1: Seq<Option<usize>>,
    cr1: Seq<bool>,
    gr2: Seq<Option<usize>>,
    cr2: Seq<bool>,
    k: int,
    f: spec_fn(Option<usize>, bool) -> nat,
)
    requires
        forall|i: int| 0 <= i < k ==> gr1[i] == gr2[i] && cr1[i] == cr2[i],
    ensures
        row_sum(gr1, cr1, k, f) == row_sum(gr2, cr2, k, f),
    decreases k,
{
    if k > 0 {
        lemma_row_sum_same(gr1, cr1, gr2, cr2, k - 1, f);
    }
}

/// Changing one cell of a row changes its sum by the change at that cell.
pub proof fn lemma_row_sum_update(
    gr1: Seq<Option<usize>>,
    cr1: Seq<bool>,
    gr2: Seq<Option<usize>>,
    cr2: Seq<bool>,
    k: int,
    j: int,
    f: spec_fn(Option<usize>, bool) -> nat,
)
    requires
        0 <= j < k,
        forall|i: int| 0 <= i < k && i != j ==> gr1[i] == gr2[i] && cr1[i] == cr2[i],
    ensures
        row_sum(gr2, cr2, k, f) + f(gr1[j], cr1[j]) == row_sum(gr1, cr1, k, f) + f(gr2[j], cr2[j]),
    decreases k,
{
    if k - 1 == j {
        lemma_row_sum_same(gr1, cr1, gr2, cr2, k - 1, f);
    } else {
        lemma_row_sum_update(gr1, cr1, gr2, cr2, k - 1, j, f);
    }
}

pub proof fn lemma_table_sum_same(
    g1: Seq<Vec<Option<usize>>>,
    c1: Seq<Vec<bool>>,
    g2: Seq<Vec<Option<usize>>>,
    c2: Seq<Vec<bool>>,
    w: int,
    k: int,
    f: spec_fn(Option<usize>, bool) -> nat,
)
    requires
        forall|r: int| 0 <= r < k ==> g1[r]@ == g2[r]@ && c1[r]@ == c2[r]@,
    ensures
        table_sum(g1, c1, w, k, f) == table_sum(g2, c2, w, k, f),
    decreases k,
{
    if k > 0 {
        lemma_table_sum_same(g1, c1, g2, c2, w, k - 1, f);
    }
}

/// Changing one cell of a table changes its sum by the change at that cell.
pub proof fn lemma_table_sum_update(
    g1: Seq<Vec<Option<usize>>>,
    c1: Seq<Vec<bool>>,
    g2: Seq<Vec<Option<usize>>>,
    c2: Seq<Vec<bool>>,
    w: int,
    k: int,
    r: int,
    j: int,
    f: spec_fn(Option<usize>, bool) -> nat,
)
    requires
        0 <= r < k,
        0 <= j < w,
        forall|i: int| 0 <= i < k && i != r ==> g1[i]@ == g2[i]@ && c1[i]@ == c2[i]@,
        forall|i: int|
            0 <= i < w && i != j ==> g1[r]@[i] == g2[r]@[i] && c1[r]@[i] == c2[r]@[i],
    ensures
        table_sum(g2, c2, w, k, f) + f(g1[r]@[j], c1[r]@[j]) == table_sum(g1, c1, w, k, f) + f(
            g2[r]@[j],
            c2[r]@[j],
        ),
    decreases k,
{
    if k - 1 == r {
        lemma_table_sum_same(g1, c1, g2, c2, w, k - 1, f);
        lemma_row_sum_update(g1[r]@, c1[r]@, g2[r]@, c2[r]@, w, j, f);
    } else {
        lemma_table_sum_update(g1, c1, g2, c2, w, k - 1, r, j, f);
    }
}

/// A sum of values that are at most one is at most the number of cells.
pub proof fn lemma_table_sum_bound(
    g: Seq<Vec<Option<usize>>>,
    c: Seq<Vec<bool>>,
    w: int,
    k: int,
    f: spec_fn(Option<usize>, bool) -> nat,
)
    requires
        0 <= w,
        0 <= k,
        forall|x: Option<usize>, y: bool| #[trigger] f(x, y) <= 1,
    ensures
        table_sum(g, c, w, k, f) <= k * w,
    decreases k,
{
    if k > 0 {
        lemma_table_sum_bound(g, c, w, k - 1, f);
        lemma_row_sum_bound(g[k - 1]@, c[k - 1]@, w, f);
        assert((k - 1) * w + w == k * w) by (nonlinear_arith);
    }
}

pub proof fn lemma_row_sum_bound(
    gr: Seq<Option<usize>>,
    cr: Seq<bool>,
    k: int,
    f: spec_fn(Option<usize>, bool) -> nat,
)
    requires
        0 <= k,
        forall|x: Option<usize>, y: bool| #[trigger] f(x, y) <= 1,
    ensures
        row_sum(gr, cr, k, f) <= k,
    decreases k,
{
    if k > 0 {
        lemma_row_sum_bound(gr, cr, k - 1, f);
    }
}

/// A table where `f` vanishes on every cell sums to zero.
pub proof fn lemma_table_sum_zero(
    g: Seq<Vec<Option<usize>>>,
    c: Seq<Vec<bool>>,
    w: int,
    k: int,
    f: spec_fn(Option<usize>, bool) -> nat,
)
    requires
        forall|r: int, i: int| 0 <= r < k && 0 <= i < w ==> f(g[r]@[i], c[r]@[i]) == 0,
    ensures
        table_sum(g, c, w, k, f) == 0,
    decreases k,
{
    if k > 0 {
        lemma_table_sum_zero(g, c, w, k - 1, f);
        lemma_row_sum_zero(g[k - 1]@, c[k - 1]@, w, f);
    }
}

pub proof fn lemma_row_sum_zero(
    gr: Seq<Option<usize>>,
    cr: Seq<bool>,
    k: int,
    f: spec_fn(Option<usize>, bool) -> nat,
)
    requires
        forall|i: int| 0 <= i < k ==> f(gr[i], cr[i]) == 0,
    ensures
        row_sum(gr, cr, k, f) == 0,
    decreases k,
{
    if k > 0 {
        lemma_row_sum_zero(gr, cr, k - 1, f);
    }
}

/// A `h` by `w` table holding `v` in every cell.
pub fn make_table<T: Copy>(h: usize, w: usize, v: T) -> (t: Table<T>)
    ensures
        t@.len() == h,
        forall|r: int| 0 <= r < h ==> (#[trigger] t@[r])@.len() == w,
        forall|r: int, i: int| 0 <= r < h && 0 <= i < w ==> t@[r]@[i] == v,
{
    let mut t: Table<T> = Vec::new();
    let mut r: usize = 0;
    while r < h
        invariant
            r <= h,
            t@.len() == r,
            forall|q: int| 0 <= q < r ==> (#[trigger] t@[q])@.len() == w,
            forall|q: int, i: int| 0 <= q < r && 0 <= i < w ==> t@[q]@[i] == v,
        decreases h - r,
    {
        let mut row: Vec<T> = Vec::new();
        let mut i: usize = 0;
        while i < w
            invariant
                i <= w,
                row@.len() == i,
                forall|j: int| 0 <= j < i ==> row@[j] == v,
            decreases w - i,
        {
            row.push(v);
            i += 1;
        }
        t.push(row);
        r += 1;
    }
    t
}

} // verus!
