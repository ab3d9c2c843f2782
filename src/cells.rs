//! Two-dimensional integer fields backed by `ndarray::Array2`.

use vstd::prelude::*;

verus! {

/// A rectangular field of `u32`, held in an `ndarray::Array2<u32>`.
#[verifier::external_body]
pub struct CellArray {
    cells: ndarray::Array2<u32>,
}

/// The values of a field, row by row.
pub uninterp spec fn cell_values(a: CellArray) -> Seq<Seq<u32>>;

/// `v` has `rows` rows of `cols` values each.
pub open spec fn shaped(v: Seq<Seq<u32>>, rows: nat, cols: nat) -> bool {
    &&& v.len() == rows
    &&& forall|i: int| 0 <= i < rows ==> (#[trigger] v[i]).len() == cols
}

/// Relies on `Array2::from_elem`: a `rows` by `cols` array with every cell
/// equal to `value`. It panics when the product of the non-zero axis lengths
/// exceeds `isize::MAX`; the bounds below rule that out.
#[verifier::external_body]
pub(crate) fn cells_filled(rows: usize, cols: usize, value: u32) -> (r: CellArray)
    requires
        rows <= isize::MAX,
        cols <= isize::MAX,
        rows * cols <= isize::MAX,
    ensures
        cell_values(r) == Seq::new(rows as nat, |i: int| Seq::new(cols as nat, |j: int| value)),
{
    CellArray { cells: ndarray::Array2::from_elem((rows, cols), value) }
}

/// Relies on indexing an `Array2` with `[row, col]`: the value stored there.
#[verifier::external_body]
pub(crate) fn cells_get(a: &CellArray, row: usize, col: usize) -> (r: u32)
    requires
        row < cell_values(*a).len(),
        col < cell_values(*a)[row as int].len(),
    ensures
        r == cell_values(*a)[row as int][col as int],
{
    a.cells[[row, col]]
}

/// Relies on mutable indexing of an `Array2` with `[row, col]`: one cell
/// changes, the others stay.
#[verifier::external_body]
pub(crate) fn cells_set(a: &mut CellArray, row: usize, col: usize, value: u32)
    requires
        row < cell_values(*old(a)).len(),
        col < cell_values(*old(a))[row as int].len(),
    ensures
        cell_values(*final(a)) == cell_values(*old(a)).update(
            row as int,
            cell_values(*old(a))[row as int].update(col as int, value),
        ),
{
    a.cells[[row, col]] = value;
}

impl CellArray {
    /// The values, row by row.
    pub open spec fn view(&self) -> Seq<Seq<u32>> {
        cell_values(*self)
    }

    /// A `rows` by `cols` field with every cell equal to `value`.
    pub fn filled(rows: usize, cols: usize, value: u32) -> (r: Self)
        requires
            rows <= isize::MAX,
            cols <= isize::MAX,
            rows * cols <= isize::MAX,
        ensures
            shaped(r@, rows as nat, cols as nat),
            forall|i: int, j: int| 0 <= i < rows && 0 <= j < cols ==> r@[i][j] == value,
    {
        cells_filled(rows, cols, value)
    }

    /// The value at `(row, col)`.
    pub fn get(&self, row: usize, col: usize) -> (r: u32)
        requires
            row < self@.len(),
            col < self@[row as int].len(),
        ensures
            r == self@[row as int][col as int],
    {
        cells_get(self, row, col)
    }

    /// Store `value` at `(row, col)`.
    pub fn set(&mut self, row: usize, col: usize, value: u32)
        requires
            row < old(self)@.len(),
            col < old(self)@[row as int].len(),
        ensures
            final(self)@ == old(self)@.update(row as int, old(self)@[row as int].update(col as int, value)),
    {
        cells_set(self, row, col, value)
    }
}

} // verus!
