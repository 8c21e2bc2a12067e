use vstd::prelude::*;

use crate::cell::{block_prefix, cell_at, members_at, neighborhood, Cell};
use crate::matching::{
    indices_matching, lemma_matching_congruent, lemma_matching_contents, lemma_matching_take,
};
use crate::params::{
    grid_params, lemma_index_in_range, lemma_index_injective, lemma_min_max, seq_max, seq_min,
    span_of, xs, ys, GridParams,
};
use crate::scan::{blocked_exclusive_scan, lemma_sum_monotone, sum_to};

verus! {

/// The predicate "this cell index equals `c`".
pub open spec fn id_is(c: int) -> spec_fn(usize) -> bool {
    |v: usize| v as int == c
}

/// Row-major cell index of every particle.
pub open spec fn cell_ids(p: GridParams, cells: Seq<Cell>) -> Seq<usize> {
    Seq::new(cells.len(), |j: int| p.index_of(cells[j].x as int, cells[j].y as int) as usize)
}

/// Particles whose cell index is `c`, in increasing order.
pub open spec fn id_members(ids: Seq<usize>, c: int) -> Seq<usize> {
    indices_matching(ids, id_is(c))
}

/// Number of particles of each of the `m` cells.
pub open spec fn id_counts(ids: Seq<usize>, m: int) -> Seq<u32> {
    Seq::new(m as nat, |c: int| id_members(ids, c).len() as u32)
}

/// Whether the compressed grid fits the integer widths it is stored in: particle
/// indices and counters in `u32`, the cell count and its sentinel in `usize`.
pub open spec fn grid_fits(cells: Seq<Cell>) -> bool {
    &&& cells.len() <= u32::MAX
    &&& span_of(xs(cells)) * span_of(ys(cells)) < usize::MAX
}

/// Every cell lies inside a grid that covers the cells.
pub proof fn lemma_cells_inside(p: GridParams, cells: Seq<Cell>)
    requires
        p.covers(cells),
    ensures
        forall|j: int|
            0 <= j < cells.len() ==> p.contains(#[trigger] cells[j].x as int, cells[j].y as int),
        p.nx <= 0x1_0000_0000,
        p.ny <= 0x1_0000_0000,
{
    if cells.len() > 0 {
        lemma_min_max(xs(cells));
        lemma_min_max(ys(cells));
        assert forall|j: int| 0 <= j < cells.len() implies p.contains(
            #[trigger] cells[j].x as int,
            cells[j].y as int,
        ) by {
            assert(xs(cells)[j] == cells[j].x);
            assert(ys(cells)[j] == cells[j].y);
        }
        let a = choose|j: int| 0 <= j < xs(cells).len() && xs(cells)[j] == seq_min(xs(cells));
        let b = choose|j: int| 0 <= j < xs(cells).len() && xs(cells)[j] == seq_max(xs(cells));
        let c = choose|j: int| 0 <= j < ys(cells).len() && ys(cells)[j] == seq_min(ys(cells));
        let d = choose|j: int| 0 <= j < ys(cells).len() && ys(cells)[j] == seq_max(ys(cells));
        assert(xs(cells)[a] == cells[a].x);
        assert(xs(cells)[b] == cells[b].x);
        assert(ys(cells)[c] == cells[c].y);
        assert(ys(cells)[d] == cells[d].y);
    }
}

/// Every particle's cell index lies below the number of cells.
pub proof fn lemma_ids_in_range(p: GridParams, cells: Seq<Cell>)
    requires
        p.covers(cells),
        p.spec_num_cells() < usize::MAX,
    ensures
        forall|j: int|
            0 <= j < cells.len() ==> #[trigger] cell_ids(p, cells)[j] as int == p.index_of(
                cells[j].x as int,
                cells[j].y as int,
            ) && cell_ids(p, cells)[j] < p.spec_num_cells(),
{
    lemma_cells_inside(p, cells);
    assert forall|j: int| 0 <= j < cells.len() implies #[trigger] cell_ids(p, cells)[j] as int
        == p.index_of(cells[j].x as int, cells[j].y as int) && cell_ids(p, cells)[j]
        < p.spec_num_cells() by {
        let cj = cells[j];
        assert(p.contains(cj.x as int, cj.y as int));
        lemma_index_in_range(
            cj.x - p.min_cell.x,
            cj.y - p.min_cell.y,
            p.nx as int,
            p.ny as int,
        );
    }
}

/// Inside the grid, the particles listed under a cell index are those of that cell;
/// outside it, no particle has the cell.
pub proof fn lemma_members_by_index(p: GridParams, cells: Seq<Cell>, x: int, y: int)
    requires
        p.covers(cells),
        p.spec_num_cells() < usize::MAX,
        cells.len() <= usize::MAX,
    ensures
        p.contains(x, y) ==> id_members(cell_ids(p, cells), p.index_of(x, y)) == members_at(
            cells,
            x,
            y,
        ),
        !p.contains(x, y) ==> members_at(cells, x, y).len() == 0,
{
    lemma_cells_inside(p, cells);
    if p.contains(x, y) {
        let ids = cell_ids(p, cells);
        let c = p.index_of(x, y);
        assert forall|j: int| 0 <= j < ids.len() implies (id_is(c)(ids[j]) <==> cell_at(x, y)(
            cells[j],
        )) by {
            let cj = cells[j];
            assert(p.contains(cj.x as int, cj.y as int));
            lemma_index_in_range(
                cj.x - p.min_cell.x,
                cj.y - p.min_cell.y,
                p.nx as int,
                p.ny as int,
            );
            if ids[j] as int == c {
                lemma_index_injective(p, cj.x as int, cj.y as int, x, y);
            }
        }
        lemma_matching_congruent(ids, id_is(c), cells, cell_at(x, y));
    } else {
        lemma_matching_contents(cells, cell_at(x, y));
        if members_at(cells, x, y).len() > 0 {
            let j = members_at(cells, x, y)[0];
            assert(p.contains(cells[j as int].x as int, cells[j as int].y as int));
        }
    }
}

/// The per-cell counts of indices below `m` sum to the number of indices.
proof fn lemma_counts_total(ids: Seq<usize>, m: int)
    requires
        forall|j: int| 0 <= j < ids.len() ==> ids[j] < m,
        ids.len() <= u32::MAX,
        0 <= m,
    ensures
        sum_to(id_counts(ids, m), m) == ids.len(),
    decreases ids.len(),
{
    if ids.len() == 0 {
        lemma_sum_zero(id_counts(ids, m), m);
    } else {
        let t = ids.drop_last();
        let x = ids.last() as int;
        lemma_counts_total(t, m);
        assert forall|c: int| 0 <= c < m implies #[trigger] id_counts(ids, m)[c] == id_counts(t, m)[c]
            + if c == x {
            1int
        } else {
            0int
        } by {
            lemma_matching_contents(ids, id_is(c));
            lemma_matching_contents(t, id_is(c));
        }
        lemma_sum_bump(id_counts(t, m), id_counts(ids, m), x, m);
    }
}

proof fn lemma_sum_zero(s: Seq<u32>, k: int)
    requires
        0 <= k <= s.len(),
        forall|c: int| 0 <= c < k ==> s[c] == 0,
    ensures
        sum_to(s, k) == 0,
    decreases k,
{
    if k > 0 {
        lemma_sum_zero(s, k - 1);
    }
}

proof fn lemma_sum_bump(s1: Seq<u32>, s2: Seq<u32>, x: int, k: int)
    requires
        0 <= k <= s1.len(),
        k <= s2.len(),
        forall|c: int|
            0 <= c < k ==> #[trigger] s2[c] == s1[c] + if c == x {
                1int
            } else {
                0int
            },
    ensures
        sum_to(s2, k) == sum_to(s1, k) + if 0 <= x < k {
            1int
        } else {
            0int
        },
    decreases k,
{
    if k > 0 {
        lemma_sum_bump(s1, s2, x, k - 1);
    }
}

/// The matching indices of a prefix never outnumber those of the whole sequence.
proof fn lemma_matching_prefix_len<T>(s: Seq<T>, p: spec_fn(T) -> bool, i: int)
    requires
        0 <= i <= s.len(),
    ensures
        indices_matching(s.take(i), p).len() <= indices_matching(s, p).len(),
    decreases s.len() - i,
{
    if i == s.len() {
        assert(s.take(i) =~= s);
    } else {
        lemma_matching_take(s, p, i);
        lemma_matching_prefix_len(s, p, i + 1);
    }
}

/// Row-major cell index of every particle.
pub fn cell_indices(params: &GridParams, cells: &Vec<Cell>) -> (ids: Vec<usize>)
    requires
        params.covers(cells@),
        params.spec_num_cells() < usize::MAX,
    ensures
        ids@ == cell_ids(*params, cells@),
        forall|j: int| 0 <= j < ids.len() ==> #[trigger] ids@[j] < params.spec_num_cells(),
{
    proof {
        lemma_cells_inside(*params, cells@);
    }
    let mut ids: Vec<usize> = Vec::new();
    let mut i: usize = 0;
    while i < cells.len()
        invariant
            i <= cells.len(),
            params.covers(cells@),
            params.spec_num_cells() < usize::MAX,
            forall|j: int|
                0 <= j < cells.len() ==> params.contains(
                    #[trigger] cells@[j].x as int,
                    cells@[j].y as int,
                ),
            ids.len() == i,
            forall|j: int|
                0 <= j < i ==> #[trigger] ids@[j] == params.index_of(
                    cells@[j].x as int,
                    cells@[j].y as int,
                ),
            forall|j: int| 0 <= j < i ==> #[trigger] ids@[j] < params.spec_num_cells(),
        decreases cells.len() - i,
    {
        let id = params.cell_index(cells[i]);
        ids.push(id);
        i = i + 1;
    }
    assert(ids@ =~= cell_ids(*params, cells@));
    ids
}

/// Number of particles in each of the `num_cells` cells.
pub fn histogram(ids: &Vec<usize>, num_cells: usize) -> (counts: Vec<u32>)
    requires
        forall|j: int| 0 <= j < ids.len() ==> #[trigger] ids@[j] < num_cells,
        ids.len() <= u32::MAX,
    ensures
        counts@ == id_counts(ids@, num_cells as int),
{
    let mut counts: Vec<u32> = vec![0u32; num_cells];
    let mut i: usize = 0;
    proof {
        assert forall|c: int| 0 <= c < num_cells implies #[trigger] counts@[c] == indices_matching(
            ids@.take(0),
            id_is(c),
        ).len() by {
            assert(ids@.take(0).len() == 0);
        }
    }
    while i < ids.len()
        invariant
            i <= ids.len(),
            ids.len() <= u32::MAX,
            forall|j: int| 0 <= j < ids.len() ==> #[trigger] ids@[j] < num_cells,
            counts.len() == num_cells,
            forall|c: int|
                0 <= c < num_cells ==> #[trigger] counts@[c] == indices_matching(
                    ids@.take(i as int),
                    id_is(c),
                ).len(),
        decreases ids.len() - i,
    {
        let c = ids[i];
        proof {
            lemma_matching_contents(ids@.take(i as int), id_is(c as int));
            assert forall|k: int| 0 <= k < num_cells implies indices_matching(
                ids@.take(i + 1),
                id_is(k),
            ).len() == indices_matching(ids@.take(i as int), id_is(k)).len() + if k == c {
                1int
            } else {
                0int
            } by {
                lemma_matching_take(ids@, id_is(k), i as int);
            }
        }
        counts.set(c, counts[c] + 1);
        i = i + 1;
    }
    proof {
        assert(ids@.take(ids.len() as int) =~= ids@);
        assert forall|c: int| 0 <= c < num_cells implies counts@[c] == id_counts(
            ids@,
            num_cells as int,
        )[c] by {
            lemma_matching_contents(ids@, id_is(c));
        }
    }
    assert(counts@ =~= id_counts(ids@, num_cells as int));
    counts
}

/// The exclusive prefix sum of the per-cell counts up to cell `c`: the first slot of
/// cell `c`'s range, and the particle count for `c == m`.
pub open spec fn starts_of(ids: Seq<usize>, m: int, c: int) -> int {
    sum_to(id_counts(ids, m), c)
}

/// Facts about the ranges that the prefix sums of the counts delimit.
proof fn lemma_ranges(ids: Seq<usize>, m: int)
    requires
        forall|j: int| 0 <= j < ids.len() ==> ids[j] < m,
        ids.len() <= u32::MAX,
        0 <= m,
    ensures
        starts_of(ids, m, m) == ids.len(),
        forall|c: int|
            0 <= c < m ==> #[trigger] starts_of(ids, m, c + 1) == starts_of(ids, m, c)
                + id_members(ids, c).len(),
        forall|c1: int, c2: int|
            0 <= c1 <= c2 <= m ==> 0 <= #[trigger] starts_of(ids, m, c1) <= #[trigger] starts_of(
                ids,
                m,
                c2,
            ),
{
    lemma_counts_total(ids, m);
    assert forall|c: int| 0 <= c < m implies #[trigger] starts_of(ids, m, c + 1) == starts_of(
        ids,
        m,
        c,
    ) + id_members(ids, c).len() by {
        lemma_matching_contents(ids, id_is(c));
    }
    assert forall|c1: int, c2: int| 0 <= c1 <= c2 <= m implies 0 <= #[trigger] starts_of(
        ids,
        m,
        c1,
    ) <= #[trigger] starts_of(ids, m, c2) by {
        lemma_sum_monotone(id_counts(ids, m), c1, c2);
    }
}

/// Places every particle index into the range of its cell, in increasing order within
/// each cell: a cursor per cell starts at `starts[c]` and advances by one per claim.
pub fn scatter(ids: &Vec<usize>, starts: &Vec<u32>, num_cells: usize) -> (entries: Vec<u32>)
    requires
        forall|j: int| 0 <= j < ids.len() ==> #[trigger] ids@[j] < num_cells,
        ids.len() <= u32::MAX,
        starts.len() == num_cells + 1,
        forall|c: int|
            0 <= c <= num_cells ==> #[trigger] starts@[c] == starts_of(ids@, num_cells as int, c),
    ensures
        entries.len() == ids.len(),
        forall|c: int, k: int|
            0 <= c < num_cells && 0 <= k < id_members(ids@, c).len() ==> entries@[starts@[c] + k]
                as int == #[trigger] id_members(ids@, c)[k] as int,
{
    let m = num_cells;
    let n = ids.len();
    proof {
        lemma_ranges(ids@, m as int);
    }
    let mut cursor: Vec<u32> = Vec::new();
    let mut c: usize = 0;
    while c < m
        invariant
            c <= m,
            starts.len() == m + 1,
            cursor.len() == c,
            forall|k: int| 0 <= k < c ==> #[trigger] cursor@[k] == starts@[k],
        decreases m - c,
    {
        cursor.push(starts[c]);
        c = c + 1;
    }
    let mut entries: Vec<u32> = vec![0u32; n];
    let mut i: usize = 0;
    proof {
        assert forall|c: int| 0 <= c < m implies indices_matching(ids@.take(0), id_is(c)).len()
            == 0 by {
            assert(ids@.take(0).len() == 0);
        }
    }
    while i < n
        invariant
            n == ids.len(),
            i <= n,
            n <= u32::MAX,
            forall|j: int| 0 <= j < n ==> #[trigger] ids@[j] < m,
            starts.len() == m + 1,
            forall|c: int| 0 <= c <= m ==> #[trigger] starts@[c] == starts_of(ids@, m as int, c),
            starts_of(ids@, m as int, m as int) == n,
            forall|c: int|
                0 <= c < m ==> #[trigger] starts_of(ids@, m as int, c + 1) == starts_of(
                    ids@,
                    m as int,
                    c,
                ) + id_members(ids@, c).len(),
            forall|c1: int, c2: int|
                0 <= c1 <= c2 <= m ==> 0 <= #[trigger] starts_of(ids@, m as int, c1)
                    <= #[trigger] starts_of(ids@, m as int, c2),
            cursor.len() == m,
            forall|c: int|
                0 <= c < m ==> #[trigger] cursor@[c] == starts@[c] + indices_matching(
                    ids@.take(i as int),
                    id_is(c),
                ).len(),
            entries.len() == n,
            forall|c: int, k: int|
                0 <= c < m && 0 <= k < indices_matching(ids@.take(i as int), id_is(c)).len()
                    ==> entries@[starts@[c] + k] as int == #[trigger] indices_matching(
                    ids@.take(i as int),
                    id_is(c),
                )[k] as int,
        decreases n - i,
    {
        let c0 = ids[i];
        let ghost before = entries@;
        proof {
            assert forall|c: int| 0 <= c < m implies indices_matching(ids@.take(i + 1), id_is(c))
                == if c == c0 {
                indices_matching(ids@.take(i as int), id_is(c)).push(i)
            } else {
                indices_matching(ids@.take(i as int), id_is(c))
            } by {
                lemma_matching_take(ids@, id_is(c), i as int);
            }
            assert forall|c: int| 0 <= c < m implies indices_matching(
                ids@.take(i + 1),
                id_is(c),
            ).len() <= id_members(ids@, c).len() by {
                lemma_matching_prefix_len(ids@, id_is(c), i + 1);
            }
        }
        let slot = cursor[c0];
        proof {
            let ci = c0 as int;
            assert(indices_matching(ids@.take(i + 1), id_is(ci)).len() <= id_members(ids@, ci).len());
            assert(starts_of(ids@, m as int, ci + 1) == starts_of(ids@, m as int, ci) + id_members(ids@, ci).len());
            assert(starts_of(ids@, m as int, ci + 1) <= starts_of(ids@, m as int, m as int));
            assert(slot < starts_of(ids@, m as int, ci + 1));
            assert(slot >= starts_of(ids@, m as int, ci));
            assert(slot < n);
        }
        entries.set(slot as usize, i as u32);
        cursor.set(c0, slot + 1);
        proof {
            assert forall|c: int, k: int|
                0 <= c < m && 0 <= k < indices_matching(ids@.take(i + 1), id_is(c)).len()
                    implies entries@[starts@[c] + k] as int == #[trigger] indices_matching(
                ids@.take(i + 1),
                id_is(c),
            )[k] as int by {
                let old_len = indices_matching(ids@.take(i as int), id_is(c)).len();
                if c == c0 {
                    if k < old_len {
                        assert(entries@[starts@[c] + k] == before[starts@[c] + k]);
                    }
                } else {
                    assert(indices_matching(ids@.take(i + 1), id_is(c)).len() <= id_members(
                        ids@,
                        c,
                    ).len());
                    let ci = c0 as int;
                    if c < ci {
                        assert(starts_of(ids@, m as int, c + 1) == starts_of(ids@, m as int, c)
                            + id_members(ids@, c).len());
                        assert(starts_of(ids@, m as int, c + 1) <= starts_of(ids@, m as int, ci));
                    } else {
                        assert(starts_of(ids@, m as int, ci + 1) <= starts_of(ids@, m as int, c));
                    }
                    assert(starts_of(ids@, m as int, c + 1) == starts_of(ids@, m as int, c)
                        + id_members(ids@, c).len());
                    assert(starts_of(ids@, m as int, c + 1) <= starts_of(ids@, m as int, m as int));
                    assert(starts@[c] + k != slot);
                    assert(entries@ == before.update(slot as int, i as u32));
                    assert(entries@[starts@[c] + k] == before[starts@[c] + k]);
                }
            }
        }
        i = i + 1;
    }
    proof {
        assert(ids@.take(n as int) =~= ids@);
    }
    entries
}

/// The compressed neighbor index: the particle indices grouped by cell, where the
/// particles of cell `c` are `entries[starts[c]..starts[c + 1]]`, cells numbered row by
/// row over the bounding box of the particles' cells.
pub struct CompressedGrid {
    pub params: GridParams,
    pub starts: Vec<u32>,
    pub entries: Vec<u32>,
    /// The cell of each particle that the grid was built from.
    pub cells: Ghost<Seq<Cell>>,
}

impl CompressedGrid {
    pub open spec fn num_cells_spec(&self) -> int {
        self.params.spec_num_cells()
    }

    pub open spec fn ids(&self) -> Seq<usize> {
        cell_ids(self.params, self.cells@)
    }

    /// The particle indices listed for cell index `c`.
    pub open spec fn slice_of(&self, c: int) -> Seq<usize> {
        self.entries@.subrange(self.starts@[c] as int, self.starts@[c + 1] as int).map_values(
            |e: u32| e as usize,
        )
    }

    /// The grid is the counting sort of its particles by cell.
    pub open spec fn wf(&self) -> bool {
        let cells = self.cells@;
        let m = self.num_cells_spec();
        &&& self.params.covers(cells)
        &&& grid_fits(cells)
        &&& self.starts.len() == m + 1
        &&& self.entries.len() == cells.len()
        &&& forall|c: int| 0 <= c <= m ==> #[trigger] self.starts@[c] == starts_of(self.ids(), m, c)
        &&& forall|c: int, k: int|
            0 <= c < m && 0 <= k < id_members(self.ids(), c).len() ==> self.entries@[self.starts@[c]
                + k] as int == #[trigger] id_members(self.ids(), c)[k] as int
    }

    pub fn num_cells(&self) -> (r: usize)
        requires
            self.wf(),
        ensures
            r == self.num_cells_spec(),
    {
        self.params.num_cells()
    }

    /// Appends the particles of cell `(x, y)` to `out`; a cell outside the grid holds none.
    fn append_cell(&self, x: i64, y: i64, out: &mut Vec<usize>)
        requires
            self.wf(),
            i32::MIN - 1 <= x <= i32::MAX + 1,
            i32::MIN - 1 <= y <= i32::MAX + 1,
        ensures
            final(out)@ == old(out)@ + members_at(self.cells@, x as int, y as int),
    {
        let ghost cells = self.cells@;
        let ghost ids = self.ids();
        let ghost m = self.num_cells_spec();
        proof {
            lemma_members_by_index(self.params, cells, x as int, y as int);
            lemma_cells_inside(self.params, cells);
        }
        let dx: i64 = x - self.params.min_cell.x as i64;
        let dy: i64 = y - self.params.min_cell.y as i64;
        if dx >= 0 && dy >= 0 && (dx as u64) < (self.params.nx as u64) && (dy as u64) < (
        self.params.ny as u64) {
            proof {
                lemma_index_in_range(
                    dx as int,
                    dy as int,
                    self.params.nx as int,
                    self.params.ny as int,
                );
                lemma_ids_in_range(self.params, cells);
                lemma_ranges(ids, m);
            }
            let id: usize = (dx as usize) + (dy as usize) * self.params.nx;
            let ghost members = id_members(ids, id as int);
            assert(members == members_at(cells, x as int, y as int));
            let lo = self.starts[id] as usize;
            let hi = self.starts[id + 1] as usize;
            assert(starts_of(ids, m, id + 1) <= starts_of(ids, m, m));
            let ghost start = out@;
            let mut q: usize = lo;
            while q < hi
                invariant
                    self.wf(),
                    ids == self.ids(),
                    m == self.num_cells_spec(),
                    0 <= id < m,
                    members == id_members(ids, id as int),
                    lo == self.starts@[id as int],
                    hi == lo + members.len(),
                    hi <= self.entries.len(),
                    lo <= q <= hi,
                    out@ == start + members.take(q - lo),
                decreases hi - q,
            {
                proof {
                    let t = q - lo;
                    assert(self.entries@[self.starts@[id as int] + t] as int == id_members(
                        ids,
                        id as int,
                    )[t] as int);
                    assert(members.take(t + 1) =~= members.take(t).push(members[t]));
                }
                out.push(self.entries[q] as usize);
                q = q + 1;
            }
            assert(members.take(hi - lo) =~= members);
        } else {
            assert(members_at(cells, x as int, y as int) =~= Seq::<usize>::empty());
            assert(out@ + Seq::<usize>::empty() =~= out@);
        }
    }

    /// Candidate neighbors of a particle in cell `c`: the particles of the 3x3 block of
    /// cells around `c`, cell by cell.
    pub fn neighbor_candidates(&self, c: Cell) -> (r: Vec<usize>)
        requires
            self.wf(),
        ensures
            r@ == neighborhood(self.cells@, c.x as int, c.y as int),
    {
        let mut r: Vec<usize> = Vec::new();
        let mut k: usize = 0;
        while k < 9
            invariant
                self.wf(),
                k <= 9,
                r@ == block_prefix(self.cells@, c.x as int, c.y as int, k as int),
            decreases 9 - k,
        {
            let x: i64 = c.x as i64 + (k / 3) as i64 - 1;
            let y: i64 = c.y as i64 + (k % 3) as i64 - 1;
            self.append_cell(x, y, &mut r);
            k = k + 1;
        }
        r
    }
}

/// Builds the compressed neighbor index of particles with the given cells: grid
/// placement, histogram of the cells, blocked exclusive scan of the counts into
/// `starts` with the particle count as sentinel, and scatter into `entries`.
///
/// `None` exactly when the grid does not fit its integer widths.
pub fn build_compressed_grid(cells: &Vec<Cell>) -> (r: Option<CompressedGrid>)
    ensures
        r is Some <==> grid_fits(cells@),
        r matches Some(g) ==> g.wf() && g.cells@ == cells@,
{
    if cells.len() > u32::MAX as usize {
        return None;
    }
    let params = match grid_params(cells) {
        Some(p) => p,
        None => {
            return None;
        },
    };
    let m = params.num_cells();
    let ids = cell_indices(&params, cells);
    let counts = histogram(&ids, m);
    proof {
        lemma_ranges(ids@, m as int);
        lemma_counts_total(ids@, m as int);
    }
    let starts = blocked_exclusive_scan(&counts);
    let entries = scatter(&ids, &starts, m);
    Some(CompressedGrid { params, starts, entries, cells: Ghost(cells@) })
}

/// The particle indices listed for a cell of the grid are exactly its members.
pub proof fn lemma_slice_is_members(g: &CompressedGrid, c: int)
    requires
        g.wf(),
        0 <= c < g.num_cells_spec(),
    ensures
        g.slice_of(c) == id_members(g.ids(), c),
{
    let ids = g.ids();
    let m = g.num_cells_spec();
    lemma_ids_in_range(g.params, g.cells@);
    lemma_ranges(ids, m);
    assert(starts_of(ids, m, c + 1) <= starts_of(ids, m, m));
    let members = id_members(ids, c);
    assert forall|t: int| 0 <= t < members.len() implies #[trigger] g.slice_of(c)[t] == members[t] by {
        assert(g.entries@[g.starts@[c] + t] as int == id_members(ids, c)[t] as int);
    }
    assert(g.slice_of(c) =~= members);
}

/// Nothing lost, nothing duplicated: the per-cell counts sum to the number of particles,
/// `entries` holds one slot per particle, and the range of each cell of the grid lists
/// exactly the particles in that cell, each once, in increasing order; every particle is
/// listed in the range of its own cell.
pub proof fn lemma_grid_partition(g: &CompressedGrid)
    requires
        g.wf(),
    ensures
        sum_to(id_counts(g.ids(), g.num_cells_spec()), g.num_cells_spec()) == g.cells@.len(),
        g.starts@[g.num_cells_spec()] == g.cells@.len(),
        g.entries.len() == g.cells@.len(),
        forall|x: int, y: int|
            g.params.contains(x, y) ==> #[trigger] g.slice_of(g.params.index_of(x, y))
                == members_at(g.cells@, x, y),
        forall|j: int|
            0 <= j < g.cells@.len() ==> g.slice_of(
                g.params.index_of(#[trigger] g.cells@[j].x as int, g.cells@[j].y as int),
            ).contains(j as usize),
{
    let cells = g.cells@;
    let p = g.params;
    let m = g.num_cells_spec();
    lemma_ids_in_range(p, cells);
    lemma_counts_total(g.ids(), m);
    lemma_cells_inside(p, cells);
    assert forall|x: int, y: int| p.contains(x, y) implies #[trigger] g.slice_of(
        p.index_of(x, y),
    ) == members_at(cells, x, y) by {
        lemma_index_in_range(
            x - p.min_cell.x,
            y - p.min_cell.y,
            p.nx as int,
            p.ny as int,
        );
        lemma_slice_is_members(g, p.index_of(x, y));
        lemma_members_by_index(p, cells, x, y);
    }
    assert forall|j: int| 0 <= j < cells.len() implies g.slice_of(
        p.index_of(#[trigger] cells[j].x as int, cells[j].y as int),
    ).contains(j as usize) by {
        let x = cells[j].x as int;
        let y = cells[j].y as int;
        assert(p.contains(x, y));
        assert(g.slice_of(p.index_of(x, y)) == members_at(cells, x, y));
        lemma_matching_contents(cells, cell_at(x, y));
    }
}

/// Rebuilding on unchanged cells gives the same placement, the same `starts`, and the
/// same particles in every cell's range.
pub proof fn lemma_rebuild_deterministic(g1: &CompressedGrid, g2: &CompressedGrid)
    requires
        g1.wf(),
        g2.wf(),
        g1.cells@ == g2.cells@,
    ensures
        g1.params == g2.params,
        g1.starts@ == g2.starts@,
        forall|c: int| 0 <= c < g1.num_cells_spec() ==> #[trigger] g1.slice_of(c) == g2.slice_of(c),
{
    assert(g1.params == g2.params);
    assert(g1.starts@ =~= g2.starts@);
    assert forall|c: int| 0 <= c < g1.num_cells_spec() implies #[trigger] g1.slice_of(c)
        == g2.slice_of(c) by {
        lemma_slice_is_members(g1, c);
        lemma_slice_is_members(g2, c);
    }
}

} // verus!
