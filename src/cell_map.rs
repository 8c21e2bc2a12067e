use vstd::prelude::*;

use std::collections::HashMap;

use crate::cell::{block_prefix, cell_at, members_at, neighborhood, Cell};
use crate::csr::{lemma_grid_partition, lemma_members_by_index, CompressedGrid};
use crate::matching::{lemma_matching_contents, lemma_matching_take};

verus! {

broadcast use vstd::std_specs::hash::group_hash_axioms;

/// Hash key of the cell `(x, y)`; distinct cells have distinct keys.
pub open spec fn key_of(x: int, y: int) -> int {
    x * 0x1_0000_0000 + (y + 0x8000_0000)
}

pub open spec fn cell_key_spec(c: Cell) -> i64 {
    key_of(c.x as int, c.y as int) as i64
}

fn cell_key(c: Cell) -> (r: i64)
    ensures
        r == key_of(c.x as int, c.y as int),
        r == cell_key_spec(c),
{
    (c.x as i64) * 0x1_0000_0000 + (c.y as i64 + 0x8000_0000)
}

proof fn lemma_key_injective(a: Cell, b: Cell)
    requires
        cell_key_spec(a) == cell_key_spec(b),
    ensures
        a == b,
{
    let ka = key_of(a.x as int, a.y as int);
    let kb = key_of(b.x as int, b.y as int);
    assert(i64::MIN <= ka <= i64::MAX);
    assert(i64::MIN <= kb <= i64::MAX);
    assert(a.x == b.x) by (nonlinear_arith)
        requires
            a.x * 0x1_0000_0000 + (a.y + 0x8000_0000) == b.x * 0x1_0000_0000 + (b.y + 0x8000_0000),
            i32::MIN <= a.y <= i32::MAX,
            i32::MIN <= b.y <= i32::MAX,
    ;
}

/// Sum of the lengths of the lists.
pub open spec fn total_len(lists: Seq<Vec<usize>>) -> int
    decreases lists.len(),
{
    if lists.len() == 0 {
        0
    } else {
        total_len(lists.drop_last()) + lists.last()@.len()
    }
}

proof fn lemma_total_len_update(lists: Seq<Vec<usize>>, s: int, l: Vec<usize>)
    requires
        0 <= s < lists.len(),
    ensures
        total_len(lists.update(s, l)) == total_len(lists) + l@.len() - lists[s]@.len(),
    decreases lists.len(),
{
    let u = lists.update(s, l);
    if s < lists.len() - 1 {
        assert(u.drop_last() =~= lists.drop_last().update(s, l));
        lemma_total_len_update(lists.drop_last(), s, l);
    } else {
        assert(u.drop_last() =~= lists.drop_last());
    }
}

/// The parts of a cell map describe the particles with cells `src`: one slot per
/// occupied cell, found through the hash map by the cell's key, whose list holds the
/// particles of that cell in increasing order.
pub open spec fn parts_describe(
    slots: Map<i64, usize>,
    occupied: Seq<Cell>,
    lists: Seq<Vec<usize>>,
    src: Seq<Cell>,
) -> bool {
    &&& occupied.len() == lists.len()
    &&& forall|s: int|
        0 <= s < occupied.len() ==> {
            &&& slots.contains_key(#[trigger] cell_key_spec(occupied[s]))
            &&& slots[cell_key_spec(occupied[s])] == s
        }
    &&& forall|k: i64|
        #[trigger] slots.contains_key(k) ==> {
            &&& slots[k] < occupied.len()
            &&& cell_key_spec(occupied[slots[k] as int]) == k
        }
    &&& forall|s: int|
        0 <= s < occupied.len() ==> #[trigger] lists[s]@ == members_at(
            src,
            occupied[s].x as int,
            occupied[s].y as int,
        ) && lists[s]@.len() > 0
    &&& forall|j: int| 0 <= j < src.len() ==> slots.contains_key(cell_key_spec(#[trigger] src[j]))
    &&& total_len(lists) == src.len()
    &&& src.len() <= usize::MAX
}

/// The sequential neighbor index: for every occupied cell, the particles in it.
/// Cells with no particle have no entry.
pub struct CellMap {
    pub slots: HashMap<i64, usize>,
    /// The occupied cells, each once.
    pub occupied: Vec<Cell>,
    /// `lists[s]` holds the particles of `occupied[s]`.
    pub lists: Vec<Vec<usize>>,
    /// The cell of each particle that the map was built from.
    pub cells: Ghost<Seq<Cell>>,
}

impl CellMap {
    pub open spec fn wf(&self) -> bool {
        parts_describe(self.slots@, self.occupied@, self.lists@, self.cells@)
    }

    /// The particles in cell `c`, or `None` when it holds none.
    pub fn get(&self, c: Cell) -> (r: Option<&Vec<usize>>)
        requires
            self.wf(),
        ensures
            r is Some <==> members_at(self.cells@, c.x as int, c.y as int).len() > 0,
            r matches Some(l) ==> l@ == members_at(self.cells@, c.x as int, c.y as int),
    {
        let key = cell_key(c);
        match self.slots.get(&key) {
            Some(s) => {
                let s = *s;
                proof {
                    assert(self.slots@.contains_key(key));
                    lemma_key_injective(self.occupied@[s as int], c);
                    assert(self.lists@[s as int]@ == members_at(
                        self.cells@,
                        self.occupied@[s as int].x as int,
                        self.occupied@[s as int].y as int,
                    ));
                }
                Some(&self.lists[s])
            },
            None => {
                proof {
                    let src = self.cells@;
                    lemma_matching_contents(src, cell_at(c.x as int, c.y as int));
                    if members_at(src, c.x as int, c.y as int).len() > 0 {
                        let j = members_at(src, c.x as int, c.y as int)[0] as int;
                        assert(src[j] == c);
                        assert(self.slots@.contains_key(cell_key_spec(src[j])));
                    }
                }
                None
            },
        }
    }

    /// Candidate neighbors of a particle in cell `c`: the particles of the 3x3 block of
    /// cells around `c`, cell by cell.
    pub fn neighbor_candidates(&self, c: Cell) -> (r: Vec<usize>)
        requires
            self.wf(),
        ensures
            r@ == neighborhood(self.cells@, c.x as int, c.y as int),
    {
        let mut r: Vec<usize> = Vec::new();
        let mut k: usize = 0;
        while k < 9
            invariant
                self.wf(),
                k <= 9,
                r@ == block_prefix(self.cells@, c.x as int, c.y as int, k as int),
            decreases 9 - k,
        {
            let x: i64 = c.x as i64 + (k / 3) as i64 - 1;
            let y: i64 = c.y as i64 + (k % 3) as i64 - 1;
            let ghost before = r@;
            if i32::MIN as i64 <= x && x <= i32::MAX as i64 && i32::MIN as i64 <= y && y
                <= i32::MAX as i64 {
                match self.get(Cell { x: x as i32, y: y as i32 }) {
                    Some(l) => {
                        let mut q: usize = 0;
                        while q < l.len()
                            invariant
                                q <= l.len(),
                                r@ == before + l@.take(q as int),
                            decreases l.len() - q,
                        {
                            proof {
                                assert(l@.take(q + 1) =~= l@.take(q as int).push(l@[q as int]));
                            }
                            r.push(l[q]);
                            q = q + 1;
                        }
                        assert(l@.take(l.len() as int) =~= l@);
                    },
                    None => {
                        assert(members_at(self.cells@, x as int, y as int) =~= Seq::<
                            usize,
                        >::empty());
                        assert(before + Seq::<usize>::empty() =~= before);
                    },
                }
            } else {
                proof {
                    let src = self.cells@;
                    lemma_matching_contents(src, cell_at(x as int, y as int));
                    if members_at(src, x as int, y as int).len() > 0 {
                        let j = members_at(src, x as int, y as int)[0] as int;
                        assert(cell_at(x as int, y as int)(src[j]));
                    }
                    assert(members_at(src, x as int, y as int) =~= Seq::<usize>::empty());
                    assert(before + Seq::<usize>::empty() =~= before);
                }
            }
            k = k + 1;
        }
        r
    }
}

/// Builds the sequential neighbor index of particles with the given cells: each
/// particle index is appended to the list of its cell, a list being opened at the
/// cell's first particle.
pub fn build_cell_map(cells: &Vec<Cell>) -> (r: CellMap)
    ensures
        r.wf(),
        r.cells@ == cells@,
{
    let mut slots: HashMap<i64, usize> = HashMap::with_capacity(cells.len());
    let mut occupied: Vec<Cell> = Vec::new();
    let mut lists: Vec<Vec<usize>> = Vec::new();
    let mut i: usize = 0;
    while i < cells.len()
        invariant
            i <= cells.len(),
            parts_describe(slots@, occupied@, lists@, cells@.take(i as int)),
        decreases cells.len() - i,
    {
        let c = cells[i];
        let key = cell_key(c);
        let ghost src = cells@.take(i as int);
        let ghost next = cells@.take(i + 1);
        proof {
            assert(next.drop_last() =~= src);
            assert(next[i as int] == c);
            assert forall|s: int| 0 <= s < occupied.len() implies members_at(
                next,
                occupied@[s].x as int,
                occupied@[s].y as int,
            ) == if occupied@[s] == c {
                members_at(src, occupied@[s].x as int, occupied@[s].y as int).push(i)
            } else {
                members_at(src, occupied@[s].x as int, occupied@[s].y as int)
            } by {
                lemma_matching_take(cells@, cell_at(occupied@[s].x as int, occupied@[s].y as int), i as int);
            }
        }
        match slots.get(&key) {
            Some(s) => {
                let s = *s;
                proof {
                    lemma_key_injective(occupied@[s as int], c);
                    assert forall|t: int| 0 <= t < occupied.len() && t != s implies occupied@[t] != c by {
                        if occupied@[t] == c {
                            assert(slots@[cell_key_spec(occupied@[t])] == t);
                        }
                    }
                    lemma_total_len_update(lists@, s as int, lists@[s as int]);
                }
                let ghost old_lists = lists@;
                lists[s].push(i);
                proof {
                    lemma_total_len_update(old_lists, s as int, lists@[s as int]);
                    assert(lists@ == old_lists.update(s as int, lists@[s as int]));
                }
            },
            None => {
                proof {
                    lemma_matching_contents(src, cell_at(c.x as int, c.y as int));
                    if members_at(src, c.x as int, c.y as int).len() > 0 {
                        let j = members_at(src, c.x as int, c.y as int)[0] as int;
                        assert(src[j] == c);
                        assert(slots@.contains_key(cell_key_spec(src[j])));
                    }
                    assert forall|t: int| 0 <= t < occupied.len() implies occupied@[t] != c by {
                        assert(slots@.contains_key(cell_key_spec(occupied@[t])));
                    }
                    lemma_matching_take(cells@, cell_at(c.x as int, c.y as int), i as int);
                    assert(members_at(src, c.x as int, c.y as int) =~= Seq::<usize>::empty());
                }
                let ghost old_slots = slots@;
                let ghost old_lists = lists@;
                slots.insert(key, lists.len());
                occupied.push(c);
                let mut list: Vec<usize> = Vec::new();
                list.push(i);
                lists.push(list);
                proof {
                    assert(lists@.drop_last() =~= old_lists);
                    assert(members_at(next, c.x as int, c.y as int) =~= list@);
                    assert forall|k: i64| #[trigger] slots@.contains_key(k) implies {
                        &&& slots@[k] < occupied.len()
                        &&& cell_key_spec(occupied@[slots@[k] as int]) == k
                    } by {
                        if k != key {
                            assert(old_slots.contains_key(k));
                        }
                    }
                }
            },
        }
        proof {
            assert forall|j: int| 0 <= j < next.len() implies slots@.contains_key(
                cell_key_spec(#[trigger] next[j]),
            ) by {
                if j < i {
                    assert(next[j] == src[j]);
                }
            }
        }
        i = i + 1;
    }
    proof {
        assert(cells@.take(cells.len() as int) =~= cells@);
    }
    CellMap { slots, occupied, lists, cells: Ghost(cells@) }
}

/// Every particle's cell has a slot whose list holds that particle.
proof fn lemma_particle_has_slot(map: &CellMap, j: int) -> (s: int)
    requires
        map.wf(),
        0 <= j < map.cells@.len(),
    ensures
        0 <= s < map.occupied@.len(),
        map.occupied@[s] == map.cells@[j],
        map.lists@[s]@.contains(j as usize),
{
    let c = map.cells@[j];
    let k = cell_key_spec(c);
    assert(map.slots@.contains_key(k));
    let s = map.slots@[k] as int;
    lemma_key_injective(map.occupied@[s], c);
    lemma_matching_contents(map.cells@, cell_at(c.x as int, c.y as int));
    assert(map.lists@[s]@ == members_at(map.cells@, c.x as int, c.y as int));
    s
}

/// Nothing lost, nothing duplicated: the lists' lengths sum to the number of particles,
/// the occupied cells are distinct, each list holds exactly the particles of its cell,
/// and every particle is listed under its own cell.
pub proof fn lemma_map_partition(map: &CellMap)
    requires
        map.wf(),
    ensures
        total_len(map.lists@) == map.cells@.len(),
        forall|s: int, t: int|
            0 <= s < t < map.occupied@.len() ==> #[trigger] map.occupied@[s]
                != #[trigger] map.occupied@[t],
        forall|s: int|
            0 <= s < map.occupied@.len() ==> #[trigger] map.lists@[s]@ == members_at(
                map.cells@,
                map.occupied@[s].x as int,
                map.occupied@[s].y as int,
            ),
        forall|j: int|
            0 <= j < map.cells@.len() ==> exists|s: int|
                0 <= s < map.occupied@.len() && map.occupied@[s] == #[trigger] map.cells@[j]
                    && map.lists@[s]@.contains(j as usize),
{
    assert forall|j: int| 0 <= j < map.cells@.len() implies exists|s: int|
        0 <= s < map.occupied@.len() && map.occupied@[s] == #[trigger] map.cells@[j]
            && map.lists@[s]@.contains(j as usize) by {
        let s = lemma_particle_has_slot(map, j);
    }
    assert forall|s: int, t: int| 0 <= s < t < map.occupied@.len() implies #[trigger] map.occupied@[s]
        != #[trigger] map.occupied@[t] by {
        assert(map.slots@[cell_key_spec(map.occupied@[s])] == s);
        assert(map.slots@[cell_key_spec(map.occupied@[t])] == t);
    }
}

/// Rebuilding on unchanged cells gives the same list for every cell: a cell is occupied
/// in one map exactly when it is in the other, with the same particles.
pub proof fn lemma_map_deterministic(m1: &CellMap, m2: &CellMap)
    requires
        m1.wf(),
        m2.wf(),
        m1.cells@ == m2.cells@,
    ensures
        forall|s1: int|
            0 <= s1 < m1.occupied@.len() ==> exists|s2: int|
                0 <= s2 < m2.occupied@.len() && m2.occupied@[s2] == #[trigger] m1.occupied@[s1]
                    && m2.lists@[s2]@ == m1.lists@[s1]@,
{
    assert forall|s1: int| 0 <= s1 < m1.occupied@.len() implies exists|s2: int|
        0 <= s2 < m2.occupied@.len() && m2.occupied@[s2] == #[trigger] m1.occupied@[s1]
            && m2.lists@[s2]@ == m1.lists@[s1]@ by {
        let c = m1.occupied@[s1];
        assert(m1.lists@[s1]@.len() > 0);
        let j = m1.lists@[s1]@[0] as int;
        lemma_matching_contents(m1.cells@, cell_at(c.x as int, c.y as int));
        assert(m1.cells@[j] == c);
        let s2 = lemma_particle_has_slot(m2, j);
        assert(m2.lists@[s2]@ == members_at(m2.cells@, c.x as int, c.y as int));
    }
}

/// The two builders agree on the same particles: the list of every occupied cell of the
/// map is that cell's range in the compressed grid, and the range of every other cell of
/// the grid is empty.
pub proof fn lemma_builders_agree(map: &CellMap, grid: &CompressedGrid)
    requires
        map.wf(),
        grid.wf(),
        map.cells@ == grid.cells@,
    ensures
        forall|s: int|
            0 <= s < map.occupied@.len() ==> {
                let c = #[trigger] map.occupied@[s];
                &&& grid.params.contains(c.x as int, c.y as int)
                &&& grid.slice_of(grid.params.index_of(c.x as int, c.y as int))
                    == map.lists@[s]@
            },
        forall|x: int, y: int|
            grid.params.contains(x, y) && (forall|s: int|
                0 <= s < map.occupied@.len() ==> !(#[trigger] map.occupied@[s].x == x
                    && map.occupied@[s].y == y)) ==> #[trigger] grid.slice_of(
                grid.params.index_of(x, y),
            ).len() == 0,
{
    let cells = map.cells@;
    lemma_grid_partition(grid);
    assert forall|s: int| 0 <= s < map.occupied@.len() implies {
        let c = #[trigger] map.occupied@[s];
        &&& grid.params.contains(c.x as int, c.y as int)
        &&& grid.slice_of(grid.params.index_of(c.x as int, c.y as int)) == map.lists@[s]@
    } by {
        let c = map.occupied@[s];
        assert(map.lists@[s]@.len() > 0);
        lemma_members_by_index(grid.params, cells, c.x as int, c.y as int);
    }
    assert forall|x: int, y: int|
        grid.params.contains(x, y) && (forall|s: int|
            0 <= s < map.occupied@.len() ==> !(#[trigger] map.occupied@[s].x == x
                && map.occupied@[s].y == y)) implies #[trigger] grid.slice_of(
        grid.params.index_of(x, y),
    ).len() == 0 by {
        lemma_matching_contents(cells, cell_at(x, y));
        if members_at(cells, x, y).len() > 0 {
            let j = members_at(cells, x, y)[0] as int;
            let s = lemma_particle_has_slot(map, j);
            assert(map.occupied@[s].x == x && map.occupied@[s].y == y);
        }
    }
}

} // verus!
