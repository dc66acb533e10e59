use vstd::prelude::*;

use array2d::Array2D;

use crate::cell::Cell;

verus! {

#[verifier::external_type_specification]
#[verifier::external_body]
#[verifier::reject_recursive_types(T)]
pub struct ExArray2D<T>(Array2D<T>);

/// What an occupancy array holds, in its row-major storage order.
pub uninterp spec fn lattice_elements(a: Array2D<Option<Cell>>) -> Seq<Option<Cell>>;

/// The number of columns an occupancy array was made with.
pub uninterp spec fn lattice_columns(a: Array2D<Option<Cell>>) -> nat;

/// Relies on `Array2D::filled_with`: `rows * columns` clones of the element,
/// stored row-major, with `columns` columns. The product is computed in
/// `usize`, hence the bound; the allocation of the storage can fail as any
/// allocation can, which is not modelled here.
#[verifier::external_body]
pub(crate) fn empty_lattice(rows: usize, columns: usize) -> (a: Array2D<Option<Cell>>)
    requires
        rows * columns <= usize::MAX,
    ensures
        lattice_elements(a) == Seq::new((rows * columns) as nat, |i: int| None::<Cell>),
        lattice_columns(a) == columns,
{
    Array2D::filled_with(None, rows, columns)
}

/// Relies on `Index<(usize, usize)>` of `Array2D`: the element stored at
/// `row * num_columns + column`. The call panics unless `row < num_rows` and
/// `column < num_columns`; with `num_rows * num_columns` elements stored, the
/// two conditions below say the same.
#[verifier::external_body]
pub(crate) fn lattice_get(a: &Array2D<Option<Cell>>, row: usize, column: usize) -> (r: Option<Cell>)
    requires
        column < lattice_columns(*a),
        row * lattice_columns(*a) + column < lattice_elements(*a).len(),
    ensures
        r == lattice_elements(*a)[row * lattice_columns(*a) + column],
{
    a[(row, column)]
}

/// Relies on `IndexMut<(usize, usize)>` of `Array2D`: the assignment replaces
/// the element stored at `row * num_columns + column` and nothing else. It
/// panics out of bounds, as `lattice_get` does.
#[verifier::external_body]
pub(crate) fn lattice_set(a: &mut Array2D<Option<Cell>>, row: usize, column: usize, value: Option<Cell>)
    requires
        column < lattice_columns(*old(a)),
        row * lattice_columns(*old(a)) + column < lattice_elements(*old(a)).len(),
    ensures
        lattice_columns(*final(a)) == lattice_columns(*old(a)),
        lattice_elements(*final(a)) == lattice_elements(*old(a)).update(
            row * lattice_columns(*old(a)) + column,
            value,
        ),
{
    a[(row, column)] = value;
}

} // verus!
