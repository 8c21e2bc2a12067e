use vstd::prelude::*;

use crate::matching::indices_matching;

verus! {

/// Integer coordinate of a grid cell: `floor(position / h)` on each axis.
#[derive(Clone, Copy, Debug, PartialEq, Eq, Hash, Structural)]
pub struct Cell {
    pub x: i32,
    pub y: i32,
}

impl Cell {
    pub fn new(x: i32, y: i32) -> (r: Cell)
        ensures
            r.x == x,
            r.y == y,
    {
        Cell { x, y }
    }
}

/// The predicate "this cell sits at `(x, y)`".
pub open spec fn cell_at(x: int, y: int) -> spec_fn(Cell) -> bool {
    |c: Cell| c.x == x && c.y == y
}

/// Indices of the particles whose cell is `(x, y)`, in increasing order.
pub open spec fn members_at(cells: Seq<Cell>, x: int, y: int) -> Seq<usize> {
    indices_matching(cells, cell_at(x, y))
}

/// The particles of the cells of the 3x3 block around `(x, y)`, taken cell by cell for
/// `k` of the nine offsets; offset `k` is `(k / 3 - 1, k % 3 - 1)`.
pub open spec fn block_prefix(cells: Seq<Cell>, x: int, y: int, k: int) -> Seq<usize>
    decreases k,
{
    if k <= 0 {
        Seq::empty()
    } else {
        block_prefix(cells, x, y, k - 1) + members_at(cells, x + (k - 1) / 3 - 1, y + (k - 1) % 3 - 1)
    }
}

/// Candidate neighbors of a particle in cell `(x, y)`: the particles of the nine cells
/// `(x + dx, y + dy)` with `dx, dy` in `-1..=1`, `dx` varying slowest.
pub open spec fn neighborhood(cells: Seq<Cell>, x: int, y: int) -> Seq<usize> {
    block_prefix(cells, x, y, 9)
}

} // verus!
