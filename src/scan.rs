use vstd::prelude::*;

verus! {

/// Number of cells that one unit of parallel work scans.
pub const BLOCK_SIZE: usize = 256;

/// Sum of the first `i` entries of `s`.
pub open spec fn sum_to(s: Seq<u32>, i: int) -> int
    decreases i,
{
    if i <= 0 {
        0
    } else {
        sum_to(s, i - 1) + s[i - 1]
    }
}

/// Number of blocks of `BLOCK_SIZE` cells that cover `n` cells.
pub open spec fn num_blocks(n: int) -> int {
    (n + BLOCK_SIZE - 1) / BLOCK_SIZE as int
}

/// First cell of the block that holds cell `c`.
pub open spec fn block_start(c: int) -> int {
    (c / BLOCK_SIZE as int) * BLOCK_SIZE as int
}

/// Sum of the counts of the cells of block `b`, the last block possibly short.
pub open spec fn block_total(s: Seq<u32>, b: int) -> int {
    let hi = if (b + 1) * BLOCK_SIZE as int <= s.len() {
        (b + 1) * BLOCK_SIZE as int
    } else {
        s.len() as int
    };
    sum_to(s, hi) - sum_to(s, b * BLOCK_SIZE as int)
}

/// Prefix sums of non-negative entries never decrease.
pub proof fn lemma_sum_monotone(s: Seq<u32>, i: int, j: int)
    requires
        0 <= i <= j <= s.len(),
    ensures
        0 <= sum_to(s, i) <= sum_to(s, j),
    decreases j,
{
    if j > 0 {
        if i < j {
            lemma_sum_monotone(s, i, j - 1);
        } else {
            lemma_sum_monotone(s, i - 1, j - 1);
        }
    }
}

/// Within-block exclusive prefix sums, and the total of each block.
///
/// `local[c]` is the sum of the counts that precede `c` in its own block;
/// `block_sums[b]` is the sum of the counts of block `b`.
pub fn block_scan(counts: &Vec<u32>) -> (r: (Vec<u32>, Vec<u32>))
    requires
        sum_to(counts@, counts.len() as int) <= u32::MAX,
    ensures
        r.0.len() == counts.len(),
        forall|c: int|
            0 <= c < counts.len() ==> #[trigger] r.0@[c] == sum_to(counts@, c) - sum_to(
                counts@,
                block_start(c),
            ),
        r.1.len() == num_blocks(counts.len() as int),
        forall|b: int| 0 <= b < r.1.len() ==> #[trigger] r.1@[b] == block_total(counts@, b),
{
    let n = counts.len();
    let nb: usize = n / BLOCK_SIZE + if n % BLOCK_SIZE == 0 {
        0
    } else {
        1
    };
    let mut local: Vec<u32> = Vec::new();
    let mut block_sums: Vec<u32> = Vec::new();
    let mut b: usize = 0;
    while b < nb
        invariant
            n == counts.len(),
            nb == num_blocks(n as int),
            sum_to(counts@, n as int) <= u32::MAX,
            b <= nb,
            local.len() == if b * BLOCK_SIZE <= n {
                b * BLOCK_SIZE
            } else {
                n as int
            },
            forall|c: int|
                0 <= c < local.len() ==> #[trigger] local@[c] == sum_to(counts@, c) - sum_to(
                    counts@,
                    block_start(c),
                ),
            block_sums.len() == b,
            forall|k: int| 0 <= k < b ==> #[trigger] block_sums@[k] == block_total(counts@, k),
        decreases nb - b,
    {
        let lo: usize = b * BLOCK_SIZE;
        let hi: usize = if n - lo >= BLOCK_SIZE {
            lo + BLOCK_SIZE
        } else {
            n
        };
        let mut running: u32 = 0;
        let mut c: usize = lo;
        while c < hi
            invariant
                n == counts.len(),
                sum_to(counts@, n as int) <= u32::MAX,
                lo == b * BLOCK_SIZE,
                lo <= c <= hi <= n,
                hi <= lo + BLOCK_SIZE,
                local.len() == c,
                running == sum_to(counts@, c as int) - sum_to(counts@, lo as int),
                forall|k: int|
                    0 <= k < local.len() ==> #[trigger] local@[k] == sum_to(counts@, k) - sum_to(
                        counts@,
                        block_start(k),
                    ),
            decreases hi - c,
        {
            proof {
                lemma_sum_monotone(counts@, lo as int, c as int + 1);
                lemma_sum_monotone(counts@, c as int + 1, n as int);
                assert(block_start(c as int) == lo);
            }
            local.push(running);
            running = running + counts[c];
            c = c + 1;
        }
        block_sums.push(running);
        b = b + 1;
    }
    (local, block_sums)
}

/// Exclusive prefix sum: `r[i]` is the sum of the entries before `i`.
pub fn exclusive_scan(v: &Vec<u32>) -> (r: Vec<u32>)
    requires
        sum_to(v@, v.len() as int) <= u32::MAX,
    ensures
        r.len() == v.len(),
        forall|i: int| 0 <= i < r.len() ==> #[trigger] r@[i] == sum_to(v@, i),
{
    let mut r: Vec<u32> = Vec::new();
    let mut running: u32 = 0;
    let mut i: usize = 0;
    while i < v.len()
        invariant
            i <= v.len(),
            sum_to(v@, v.len() as int) <= u32::MAX,
            r.len() == i,
            running == sum_to(v@, i as int),
            forall|k: int| 0 <= k < i ==> #[trigger] r@[k] == sum_to(v@, k),
        decreases v.len() - i,
    {
        proof {
            lemma_sum_monotone(v@, i as int + 1, v.len() as int);
        }
        r.push(running);
        running = running + v[i];
        i = i + 1;
    }
    r
}

/// Adds each block's offset into the local sums of its cells, then appends `total` as the
/// sentinel that closes the last cell.
pub fn add_back(starts: &mut Vec<u32>, offsets: &Vec<u32>, total: u32)
    requires
        old(starts).len() < usize::MAX,
        offsets.len() >= num_blocks(old(starts).len() as int),
        forall|c: int|
            0 <= c < old(starts).len() ==> old(starts)@[c] + offsets@[c / BLOCK_SIZE as int]
                <= u32::MAX,
    ensures
        final(starts).len() == old(starts).len() + 1,
        forall|c: int|
            0 <= c < old(starts).len() ==> #[trigger] final(starts)@[c] == old(starts)@[c]
                + offsets@[c / BLOCK_SIZE as int],
        final(starts)@[old(starts).len() as int] == total,
{
    let n = starts.len();
    let mut c: usize = 0;
    while c < n
        invariant
            n == old(starts).len(),
            starts.len() == n,
            c <= n,
            offsets.len() >= num_blocks(n as int),
            forall|k: int|
                0 <= k < n ==> old(starts)@[k] + offsets@[k / BLOCK_SIZE as int] <= u32::MAX,
            forall|k: int|
                0 <= k < c ==> #[trigger] starts@[k] == old(starts)@[k] + offsets@[k
                    / BLOCK_SIZE as int],
            forall|k: int| c <= k < n ==> #[trigger] starts@[k] == old(starts)@[k],
        decreases n - c,
    {
        let v = starts[c] + offsets[c / BLOCK_SIZE];
        starts.set(c, v);
        c = c + 1;
    }
    starts.push(total);
}

/// The scanned block totals are the prefix sums of the counts at block boundaries.
pub proof fn lemma_block_offsets(counts: Seq<u32>, sums: Seq<u32>, b: int)
    requires
        sums.len() == num_blocks(counts.len() as int),
        forall|k: int| 0 <= k < sums.len() ==> #[trigger] sums[k] == block_total(counts, k),
        0 <= b <= sums.len(),
    ensures
        sum_to(sums, b) == sum_to(
            counts,
            if b * BLOCK_SIZE as int <= counts.len() {
                b * BLOCK_SIZE as int
            } else {
                counts.len() as int
            },
        ),
    decreases b,
{
    if b > 0 {
        lemma_block_offsets(counts, sums, b - 1);
    }
}

/// Exclusive prefix sum of the counts with a closing sentinel, computed as the three
/// passes of a parallel scan: a scan within blocks of `BLOCK_SIZE` cells, a scan of
/// the block totals, and the add-back of each block's offset.
///
/// `starts[c]` is the sum of the counts of the cells before `c`, for every
/// `c <= counts.len()`; the last entry is the total.
pub fn blocked_exclusive_scan(counts: &Vec<u32>) -> (starts: Vec<u32>)
    requires
        sum_to(counts@, counts.len() as int) <= u32::MAX,
        counts.len() < usize::MAX,
    ensures
        starts.len() == counts.len() + 1,
        forall|c: int| 0 <= c <= counts.len() ==> #[trigger] starts@[c] == sum_to(counts@, c),
{
    let n = counts.len();
    let (mut starts, block_sums) = block_scan(counts);
    proof {
        lemma_block_offsets(counts@, block_sums@, block_sums.len() as int);
    }
    let offsets = exclusive_scan(&block_sums);
    let total: u32 = if n == 0 {
        0
    } else {
        starts[n - 1] + offsets[(n - 1) / BLOCK_SIZE] + counts[n - 1]
    };
    proof {
        assert forall|c: int| 0 <= c < n implies starts@[c] + offsets@[c / BLOCK_SIZE as int]
            == sum_to(counts@, c) by {
            let b = c / BLOCK_SIZE as int;
            lemma_block_offsets(counts@, block_sums@, b);
            assert(b * BLOCK_SIZE as int == block_start(c));
            assert(block_start(c) <= n);
        }
        assert forall|c: int| 0 <= c < n implies starts@[c] + offsets@[c / BLOCK_SIZE as int]
            <= u32::MAX by {
            lemma_sum_monotone(counts@, c, n as int);
        }
    }
    add_back(&mut starts, &offsets, total);
    starts
}

} // verus!
