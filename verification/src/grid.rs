use vstd::prelude::*;
use crate::block::Block;

verus! {

/// `ndarray::ShapeError`, which is carried through and never looked into.
#[verifier::external_type_specification]
#[verifier::external_body]
pub struct ExShapeError(ndarray::ShapeError);

/// A two-dimensional array of blocks, stored in an `ndarray::Array2`.
///
/// Nothing of the array is visible to the verifier; everything that is known
/// of a grid is known through `grid_rows` and the three functions of this file.
#[verifier::external_body]
#[derive(Debug, Hash)]
pub struct Grid {
    cells: ndarray::Array2<Block>,
}

/// What a grid holds: its rows from the top, each row its cells from the left.
pub uninterp spec fn grid_rows(grid: Grid) -> Seq<Seq<Block>>;

/// Calls `ndarray::Array2::from_shape_vec` with the shape `(rows, cols)`.
///
/// Claimed of it: an array comes back only when `cells` has exactly
/// `rows * cols` entries, and does come back then if neither axis is empty; it
/// has `rows` rows of `cols` cells, and the cell in row `r` and column `c` is
/// entry `r * cols + c` of `cells` (row-major order).
#[verifier::external_body]
pub(crate) fn grid_from_cells(rows: usize, cols: usize, cells: Vec<Block>) -> (made: Result<
    Grid,
    ndarray::ShapeError,
>)
    ensures
        rows > 0 && cols > 0 && rows * cols == cells@.len() ==> made is Ok,
        made matches Ok(grid) ==> {
            &&& rows * cols == cells@.len()
            &&& grid_rows(grid).len() == rows
            &&& forall|r: int| 0 <= r < rows ==> (#[trigger] grid_rows(grid)[r]).len() == cols
            &&& forall|r: int, c: int|
                0 <= r < rows && 0 <= c < cols ==> #[trigger] grid_rows(grid)[r][c] == cells@[r
                    * cols + c]
        },
{
    match ndarray::Array2::from_shape_vec((rows, cols), cells) {
        Ok(cells) => Ok(Grid { cells }),
        Err(e) => Err(e),
    }
}

/// Reads one cell through `ndarray`'s `Index<(usize, usize)>`.
///
/// Claimed of it: inside the bounds it returns the cell of that row and column.
#[verifier::external_body]
pub(crate) fn grid_get(grid: &Grid, row: usize, col: usize) -> (cell: Block)
    requires
        row < grid_rows(*grid).len(),
        col < grid_rows(*grid)[row as int].len(),
    ensures
        cell == grid_rows(*grid)[row as int][col as int],
{
    grid.cells[(row, col)]
}

/// Writes one cell through `ndarray`'s `IndexMut<(usize, usize)>`.
///
/// Claimed of it: inside the bounds it replaces the cell of that row and column
/// and leaves every other cell, and the shape, as they were.
#[verifier::external_body]
pub(crate) fn grid_set(grid: &mut Grid, row: usize, col: usize, cell: Block)
    requires
        row < grid_rows(*old(grid)).len(),
        col < grid_rows(*old(grid))[row as int].len(),
    ensures
        grid_rows(*final(grid)) == grid_rows(*old(grid)).update(
            row as int,
            grid_rows(*old(grid))[row as int].update(col as int, cell),
        ),
    no_unwind
{
    grid.cells[(row, col)] = cell;
}

} // verus!
