//! Spec-level helpers shared by the two-dimensional containers of this crate:
//! rectangularity of a `Seq<Seq<T>>`, and counting how many cells hold a value.

use vstd::prelude::*;

verus! {

/// `cells` is a `h`-row, `w`-column rectangle.
pub open spec fn rect<T>(cells: Seq<Seq<T>>, w: int, h: int) -> bool {
    cells.len() == h && forall|y: int| 0 <= y < h ==> (#[trigger] cells[y]).len() == w
}

/// `(x, y)` indexes a cell of `cells`.
pub open spec fn in_grid<T>(cells: Seq<Seq<T>>, x: int, y: int) -> bool {
    0 <= y < cells.len() && 0 <= x < cells[y].len()
}

/// How many entries of `row` equal `v`.
pub open spec fn row_count<T>(row: Seq<T>, v: T) -> nat
    decreases row.len(),
{
    if row.len() == 0 {
        0
    } else {
        row_count(row.drop_last(), v) + if row.last() == v { 1nat } else { 0nat }
    }
}

/// How many cells of `cells` equal `v`.
pub open spec fn grid_count<T>(cells: Seq<Seq<T>>, v: T) -> nat
    decreases cells.len(),
{
    if cells.len() == 0 {
        0
    } else {
        grid_count(cells.drop_last(), v) + row_count(cells.last(), v)
    }
}

pub proof fn lemma_row_count_le<T>(row: Seq<T>, v: T)
    ensures
        row_count(row, v) <= row.len(),
    decreases row.len(),
{
    if row.len() > 0 {
        lemma_row_count_le(row.drop_last(), v);
    }
}

pub proof fn lemma_grid_count_le<T>(cells: Seq<Seq<T>>, v: T, w: int, h: int)
    requires
        rect(cells, w, h),
        w >= 0,
    ensures
        grid_count(cells, v) <= w * h,
    decreases cells.len(),
{
    if cells.len() > 0 {
        assert(rect(cells.drop_last(), w, h - 1)) by {
            assert(forall|y: int| 0 <= y < h - 1 ==> cells.drop_last()[y] == cells[y]);
        }
        lemma_grid_count_le(cells.drop_last(), v, w, h - 1);
        lemma_row_count_le(cells.last(), v);
        assert((h - 1) * w + w == h * w) by (nonlinear_arith);
        assert(w * h == h * w) by (nonlinear_arith);
    }
}

pub proof fn lemma_row_count_update<T>(row: Seq<T>, i: int, x: T, v: T)
    requires
        0 <= i < row.len(),
    ensures
        row_count(row.update(i, x), v) == row_count(row, v)
            - (if row[i] == v { 1int } else { 0int })
            + (if x == v { 1int } else { 0int }),
    decreases row.len(),
{
    let row2 = row.update(i, x);
    assert(row2.len() == row.len());
    if i == row.len() - 1 {
        assert(row2.drop_last() =~= row.drop_last());
        assert(row2.last() == x);
    } else {
        assert(row2.drop_last() =~= row.drop_last().update(i, x));
        assert(row2.last() == row.last());
        lemma_row_count_update(row.drop_last(), i, x, v);
    }
}

pub proof fn lemma_grid_count_update<T>(cells: Seq<Seq<T>>, y: int, r: Seq<T>, v: T)
    requires
        0 <= y < cells.len(),
    ensures
        grid_count(cells.update(y, r), v) == grid_count(cells, v)
            - row_count(cells[y], v) + row_count(r, v),
    decreases cells.len(),
{
    let cells2 = cells.update(y, r);
    if y == cells.len() - 1 {
        assert(cells2.drop_last() =~= cells.drop_last());
        assert(cells2.last() == r);
    } else {
        assert(cells2.drop_last() =~= cells.drop_last().update(y, r));
        assert(cells2.last() == cells.last());
        lemma_grid_count_update(cells.drop_last(), y, r, v);
    }
}

} // verus!
