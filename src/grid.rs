//! The flat cell storage of a board, held in an `ndarray` one-dimensional array.
use crate::board::Pieces;
use ndarray::Array1;
use vstd::prelude::*;

verus! {

/// Row-major storage of a board's cells. Verus cannot declare `ndarray`'s
/// array type (its storage parameter is bounded by an `ndarray` trait), so the
/// array sits in a private field here and is reached only through the
/// functions below.
#[verifier::external_body]
pub struct CellArray {
    cells: Array1<Pieces>,
}

/// The cells that an array holds, in index order.
pub uninterp spec fn cells_of(a: CellArray) -> Seq<Pieces>;

/// Relies on `Array1::from_elem`: an array of `n` copies of `p`
/// (it panics only when `n` overflows `isize`).
#[verifier::external_body]
pub(crate) fn filled(n: usize, p: Pieces) -> (r: CellArray)
    requires
        n <= isize::MAX,
    ensures
        cells_of(r) == Seq::new(n as nat, |i: int| p),
{
    CellArray { cells: Array1::from_elem(n, p) }
}

/// Relies on `Index` of `ndarray::ArrayBase`: the element at index `i`
/// (it panics only when `i` is out of bounds).
#[verifier::external_body]
pub(crate) fn cell_at(a: &CellArray, i: usize) -> (r: Pieces)
    requires
        i < cells_of(*a).len(),
    ensures
        r == cells_of(*a)[i as int],
{
    a.cells[[i]]
}

/// Relies on `IndexMut` of `ndarray::ArrayBase`: overwrites the element at
/// index `i` and leaves the others (it panics only when `i` is out of bounds).
#[verifier::external_body]
pub(crate) fn set_cell(a: &mut CellArray, i: usize, p: Pieces)
    requires
        i < cells_of(*old(a)).len(),
    ensures
        cells_of(*final(a)) == cells_of(*old(a)).update(i as int, p),
{
    a.cells[[i]] = p;
}

/// Relies on `Clone` of `ndarray::ArrayBase`: an owned array with the same
/// elements.
#[verifier::external_body]
pub(crate) fn copy_cells(a: &CellArray) -> (r: CellArray)
    ensures
        cells_of(r) == cells_of(*a),
{
    CellArray { cells: <Array1<Pieces> as Clone>::clone(&a.cells) }
}

} // verus!
