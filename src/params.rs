use vstd::prelude::*;

use crate::cell::Cell;

verus! {

/// Smallest entry of a non-empty sequence.
pub open spec fn seq_min(s: Seq<int>) -> int
    decreases s.len(),
{
    if s.len() <= 1 {
        s[0]
    } else {
        let m = seq_min(s.drop_last());
        if s.last() < m {
            s.last()
        } else {
            m
        }
    }
}

/// Largest entry of a non-empty sequence.
pub open spec fn seq_max(s: Seq<int>) -> int
    decreases s.len(),
{
    if s.len() <= 1 {
        s[0]
    } else {
        let m = seq_max(s.drop_last());
        if s.last() > m {
            s.last()
        } else {
            m
        }
    }
}

pub open spec fn xs(cells: Seq<Cell>) -> Seq<int> {
    cells.map_values(|c: Cell| c.x as int)
}

pub open spec fn ys(cells: Seq<Cell>) -> Seq<int> {
    cells.map_values(|c: Cell| c.y as int)
}

/// Lowest coordinate on one axis, or 0 when there is none.
pub open spec fn origin_of(s: Seq<int>) -> int {
    if s.len() == 0 {
        0
    } else {
        seq_min(s)
    }
}

/// Number of cells that the coordinates on one axis span, or 0 when there is none.
pub open spec fn span_of(s: Seq<int>) -> int {
    if s.len() == 0 {
        0
    } else {
        seq_max(s) - seq_min(s) + 1
    }
}

/// The minimum and maximum bound every entry and are attained.
pub proof fn lemma_min_max(s: Seq<int>)
    requires
        s.len() > 0,
    ensures
        forall|j: int| 0 <= j < s.len() ==> seq_min(s) <= #[trigger] s[j] <= seq_max(s),
        exists|j: int| 0 <= j < s.len() && s[j] == seq_min(s),
        exists|j: int| 0 <= j < s.len() && s[j] == seq_max(s),
    decreases s.len(),
{
    if s.len() > 1 {
        let t = s.drop_last();
        lemma_min_max(t);
        assert forall|j: int| 0 <= j < s.len() implies seq_min(s) <= #[trigger] s[j] <= seq_max(
            s,
        ) by {
            if j < t.len() {
                assert(t[j] == s[j]);
            }
        }
        let a = choose|j: int| 0 <= j < t.len() && t[j] == seq_min(t);
        let b = choose|j: int| 0 <= j < t.len() && t[j] == seq_max(t);
        assert(s[a] == t[a]);
        assert(s[b] == t[b]);
        if s.last() < seq_min(t) {
            assert(s[s.len() - 1] == seq_min(s));
        } else {
            assert(s[a] == seq_min(s));
        }
        if s.last() > seq_max(t) {
            assert(s[s.len() - 1] == seq_max(s));
        } else {
            assert(s[b] == seq_max(s));
        }
    } else {
        assert(s[0] == seq_min(s));
        assert(s[0] == seq_max(s));
    }
}

/// Placement of the dense cell grid: the lowest occupied cell on each axis and the
/// number of cells along each axis.
#[derive(Clone, Copy, Debug, PartialEq, Eq, Structural)]
pub struct GridParams {
    pub min_cell: Cell,
    pub nx: usize,
    pub ny: usize,
}

impl GridParams {
    /// The grid that covers exactly the bounding box of `cells`; empty when `cells` is.
    pub open spec fn covers(self, cells: Seq<Cell>) -> bool {
        &&& self.min_cell.x == origin_of(xs(cells))
        &&& self.min_cell.y == origin_of(ys(cells))
        &&& self.nx == span_of(xs(cells))
        &&& self.ny == span_of(ys(cells))
    }

    pub open spec fn spec_num_cells(self) -> int {
        self.nx * self.ny
    }

    /// Whether the cell `(x, y)` lies inside the grid.
    pub open spec fn contains(self, x: int, y: int) -> bool {
        &&& self.min_cell.x <= x < self.min_cell.x + self.nx
        &&& self.min_cell.y <= y < self.min_cell.y + self.ny
    }

    /// Row-major index of cell `(x, y)`.
    pub open spec fn index_of(self, x: int, y: int) -> int {
        (x - self.min_cell.x) + (y - self.min_cell.y) * self.nx
    }

    pub fn num_cells(&self) -> (r: usize)
        requires
            self.spec_num_cells() <= usize::MAX,
        ensures
            r == self.spec_num_cells(),
    {
        self.nx * self.ny
    }

    /// Row-major index of a cell inside the grid.
    pub fn cell_index(&self, c: Cell) -> (r: usize)
        requires
            self.contains(c.x as int, c.y as int),
            self.spec_num_cells() <= usize::MAX,
        ensures
            r == self.index_of(c.x as int, c.y as int),
            r < self.spec_num_cells(),
    {
        let ix = (c.x as i64 - self.min_cell.x as i64) as usize;
        let iy = (c.y as i64 - self.min_cell.y as i64) as usize;
        proof {
            lemma_index_in_range(ix as int, iy as int, self.nx as int, self.ny as int);
        }
        ix + iy * self.nx
    }
}

/// A row-major index of a cell inside an `nx` by `ny` grid is below `nx * ny`.
pub proof fn lemma_index_in_range(ix: int, iy: int, nx: int, ny: int)
    requires
        0 <= ix < nx,
        0 <= iy < ny,
    ensures
        0 <= ix + iy * nx < nx * ny,
{
    assert(iy * nx <= (ny - 1) * nx) by (nonlinear_arith)
        requires
            0 <= iy < ny,
            0 <= nx,
    ;
    assert((ny - 1) * nx + nx == nx * ny) by (nonlinear_arith);
    assert(0 <= iy * nx) by (nonlinear_arith)
        requires
            0 <= iy,
            0 <= nx,
    ;
}

/// Distinct cells inside a grid have distinct row-major indices.
pub proof fn lemma_index_injective(p: GridParams, x1: int, y1: int, x2: int, y2: int)
    requires
        p.contains(x1, y1),
        p.contains(x2, y2),
        p.index_of(x1, y1) == p.index_of(x2, y2),
    ensures
        x1 == x2,
        y1 == y2,
{
    let nx = p.nx as int;
    let a1 = x1 - p.min_cell.x;
    let a2 = x2 - p.min_cell.x;
    let b1 = y1 - p.min_cell.y;
    let b2 = y2 - p.min_cell.y;
    assert(b1 == b2) by (nonlinear_arith)
        requires
            0 <= a1 < nx,
            0 <= a2 < nx,
            0 <= b1,
            0 <= b2,
            a1 + b1 * nx == a2 + b2 * nx,
    {
        if b1 < b2 {
            assert(b2 * nx - b1 * nx == (b2 - b1) * nx);
            assert((b2 - b1) * nx >= nx);
        } else if b1 > b2 {
            assert(b1 * nx - b2 * nx == (b1 - b2) * nx);
            assert((b1 - b2) * nx >= nx);
        }
    }
}

/// The grid that covers the bounding box of `cells`, or `None` when its number of
/// cells, plus the closing sentinel, does not fit in `usize`.
pub fn grid_params(cells: &Vec<Cell>) -> (r: Option<GridParams>)
    ensures
        r is Some <==> span_of(xs(cells@)) * span_of(ys(cells@)) < usize::MAX,
        r matches Some(p) ==> p.covers(cells@),
{
    if cells.len() == 0 {
        return Some(GridParams { min_cell: Cell { x: 0, y: 0 }, nx: 0, ny: 0 });
    }
    let mut lo_x = cells[0].x;
    let mut hi_x = cells[0].x;
    let mut lo_y = cells[0].y;
    let mut hi_y = cells[0].y;
    let mut i: usize = 1;
    while i < cells.len()
        invariant
            1 <= i <= cells.len(),
            lo_x == seq_min(xs(cells@.take(i as int))),
            hi_x == seq_max(xs(cells@.take(i as int))),
            lo_y == seq_min(ys(cells@.take(i as int))),
            hi_y == seq_max(ys(cells@.take(i as int))),
        decreases cells.len() - i,
    {
        proof {
            assert(xs(cells@.take(i + 1)).drop_last() =~= xs(cells@.take(i as int)));
            assert(ys(cells@.take(i + 1)).drop_last() =~= ys(cells@.take(i as int)));
        }
        let c = cells[i];
        if c.x < lo_x {
            lo_x = c.x;
        }
        if c.x > hi_x {
            hi_x = c.x;
        }
        if c.y < lo_y {
            lo_y = c.y;
        }
        if c.y > hi_y {
            hi_y = c.y;
        }
        i = i + 1;
    }
    proof {
        assert(cells@.take(cells.len() as int) =~= cells@);
        lemma_min_max(xs(cells@));
        lemma_min_max(ys(cells@));
    }
    let span_x: u64 = (hi_x as i64 - lo_x as i64 + 1) as u64;
    let span_y: u64 = (hi_y as i64 - lo_y as i64 + 1) as u64;
    match span_x.checked_mul(span_y) {
        Some(total) => {
            if total < usize::MAX as u64 {
                proof {
                    assert(span_x <= total) by (nonlinear_arith)
                        requires
                            total == span_x * span_y,
                            span_y >= 1,
                    ;
                    assert(span_y <= total) by (nonlinear_arith)
                        requires
                            total == span_x * span_y,
                            span_x >= 1,
                    ;
                }
                Some(GridParams {
                    min_cell: Cell { x: lo_x, y: lo_y },
                    nx: span_x as usize,
                    ny: span_y as usize,
                })
            } else {
                None
            }
        },
        None => None,
    }
}

} // verus!
