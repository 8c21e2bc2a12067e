use vstd::prelude::*;

use vstd::arithmetic::div_mod::lemma_fundamental_div_mod_converse;

verus! {

/// Lattice coordinates of the particles of an `n_x` by `n_y` lattice, row by row: the
/// particle with index `k` sits at column `k % n_x` and row `k / n_x`, so that its
/// position is `(column * spacing, row * spacing)`.
pub fn lattice_indices(n_x: usize, n_y: usize) -> (r: Vec<(usize, usize)>)
    requires
        n_x * n_y <= usize::MAX,
    ensures
        r.len() == n_x * n_y,
        forall|k: int|
            0 <= k < r.len() ==> #[trigger] r@[k] == ((k % n_x as int) as usize, (k
                / n_x as int) as usize),
{
    let mut r: Vec<(usize, usize)> = Vec::new();
    let mut iy: usize = 0;
    while iy < n_y
        invariant
            n_x * n_y <= usize::MAX,
            iy <= n_y,
            r.len() == iy * n_x,
            forall|k: int|
                0 <= k < r.len() ==> #[trigger] r@[k] == ((k % n_x as int) as usize, (k
                    / n_x as int) as usize),
        decreases n_y - iy,
    {
        let mut ix: usize = 0;
        while ix < n_x
            invariant
                n_x * n_y <= usize::MAX,
                iy < n_y,
                ix <= n_x,
                r.len() == iy * n_x + ix,
                forall|k: int|
                    0 <= k < r.len() ==> #[trigger] r@[k] == ((k % n_x as int) as usize, (k
                        / n_x as int) as usize),
            decreases n_x - ix,
        {
            proof {
                let k = iy * n_x + ix;
                lemma_fundamental_div_mod_converse(k, n_x as int, iy as int, ix as int);
                assert(iy * n_x + ix < n_x * n_y) by (nonlinear_arith)
                    requires
                        iy < n_y,
                        ix < n_x,
                ;
            }
            r.push((ix, iy));
            ix = ix + 1;
        }
        proof {
            assert((iy + 1) * n_x == iy * n_x + n_x) by (nonlinear_arith);
        }
        iy = iy + 1;
    }
    assert(n_y * n_x == n_x * n_y) by (nonlinear_arith);
    r
}

} // verus!
