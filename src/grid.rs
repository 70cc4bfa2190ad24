use vstd::prelude::*;
use crate::cell::Cell;
use crate::ecosystem::water_flow::{WaterFlow, WaterFlowTarget};

verus! {

/// The square array of cells, stored in an ndarray `Array2`, row by row: row `i` is
/// the `y` coordinate and column `j` the `x` coordinate.
#[verifier::external_body]
#[derive(Debug)]
pub struct CellArray {
    cells: ndarray::Array2<Cell>,
}

/// What a cell array holds, row by row.
pub uninterp spec fn cell_rows(a: CellArray) -> Seq<Seq<Cell>>;

impl CellArray {
    /// Relies on ndarray's `Array2::from_elem`: an `n` by `n` array of copies of `elem`.
    /// It panics when the element count overflows `isize`.
    #[verifier::external_body]
    pub(crate) fn from_elem(n: usize, elem: Cell) -> (r: CellArray)
        requires
            n * n <= isize::MAX,
        ensures
            cell_rows(r).len() == n,
            forall|i: int| 0 <= i < n ==> #[trigger] cell_rows(r)[i].len() == n,
            forall|i: int, j: int| 0 <= i < n && 0 <= j < n ==> #[trigger] cell_rows(r)[i][j] == elem,
    {
        CellArray { cells: ndarray::Array2::from_elem((n, n), elem) }
    }

    /// Relies on ndarray's `ArrayBase::get`: the element at row `i`, column `j`, or
    /// `None` out of bounds.
    #[verifier::external_body]
    pub(crate) fn get(&self, i: usize, j: usize) -> (r: Option<Cell>)
        ensures
            i < cell_rows(*self).len() && j < cell_rows(*self)[i as int].len() ==> r == Some(
                cell_rows(*self)[i as int][j as int],
            ),
            !(i < cell_rows(*self).len() && j < cell_rows(*self)[i as int].len()) ==> r is None,
    {
        self.cells.get((i, j)).copied()
    }

    /// Relies on ndarray's `IndexMut` for `(usize, usize)`: replaces the element at row
    /// `i`, column `j`. It panics out of bounds.
    #[verifier::external_body]
    pub(crate) fn set(&mut self, i: usize, j: usize, cell: Cell)
        requires
            i < cell_rows(*old(self)).len(),
            j < cell_rows(*old(self))[i as int].len(),
        ensures
            cell_rows(*final(self)) == cell_rows(*old(self)).update(
                i as int,
                cell_rows(*old(self))[i as int].update(j as int, cell),
            ),
    {
        self.cells[(i, j)] = cell;
    }
}

/// The square array of water-flow plans, one per source cell, stored in an ndarray
/// `Array2` row by row like the cells.
#[verifier::external_body]
#[derive(Debug)]
pub struct FlowArray {
    flows: ndarray::Array2<WaterFlow>,
}

/// The targets of each source's plan, row by row.
pub uninterp spec fn flow_rows(a: FlowArray) -> Seq<Seq<Seq<WaterFlowTarget>>>;

impl FlowArray {
    /// Relies on ndarray's `Array2::from_shape_vec` with a plain `(n, n)` shape: the
    /// elements are laid out in row-major order, so row `i`, column `j` holds
    /// `flows[i * n + j]`. It fails only when the length is not `n * n` or the count
    /// overflows `isize`.
    #[verifier::external_body]
    pub(crate) fn from_flows(n: usize, flows: Vec<WaterFlow>) -> (r: FlowArray)
        requires
            flows@.len() == n * n,
            n * n <= isize::MAX,
        ensures
            flow_rows(r).len() == n,
            forall|i: int| 0 <= i < n ==> #[trigger] flow_rows(r)[i].len() == n,
            forall|i: int, j: int| 0 <= i < n && 0 <= j < n ==> #[trigger] flow_rows(r)[i][j] == flows@[i * n + j]@,
    {
        FlowArray { flows: ndarray::Array2::from_shape_vec((n, n), flows).unwrap() }
    }

    /// Relies on ndarray's `Index` for `(usize, usize)`: the targets of the plan at row
    /// `i`, column `j`. It panics out of bounds.
    #[verifier::external_body]
    pub(crate) fn targets(&self, i: usize, j: usize) -> (r: &Vec<WaterFlowTarget>)
        requires
            i < flow_rows(*self).len(),
            j < flow_rows(*self)[i as int].len(),
        ensures
            r@ == flow_rows(*self)[i as int][j as int],
    {
        &self.flows[(i, j)].targets
    }
}

} // verus!
