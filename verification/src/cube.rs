//! The instance lattice for the ray-bounds rasterizer.
//!
//! The rasterizer draws the volume's bounding cuboid as an `n`-by-`n`-by-`n`
//! grid of cube instances packed edge to edge inside the unit cuboid
//! spanning -1 to 1 along each axis, so that a view ray starting inside the
//! cuboid still hits geometry.  Each instance is scaled by `1/n` and
//! translated to its cell centre `(2i + 1 - n) / n` along each axis.  The
//! centres are exact rationals; they are kept as integer numerators over
//! the common denominator `n`, so nothing here rounds.  A caller that
//! uploads the lattice divides once when building its matrices.

use vstd::prelude::*;

verus! {

/// One cube instance: the numerators of its centre over the common
/// denominator, which is also the reciprocal of its uniform scale.
pub struct Model {
    /// Centre numerators along x, y and z.
    pub num: (i64, i64, i64),
    /// Common denominator: the lattice subdivision count.
    pub den: i64,
}

/// The centre numerator of cell `i` in a lattice of `n` cells: the cells
/// split the span from -1 to 1 evenly, so cell `i` is centred on
/// `(2i + 1 - n) / n`.
pub open spec fn centre_num(i: int, n: int) -> int {
    2 * i + 1 - n
}

/// The instance at lattice cell `(i, j, k)` of a lattice of `n` cells per
/// axis.
pub open spec fn model_ok(m: Model, i: int, j: int, k: int, n: int) -> bool {
    m.num.0 == centre_num(i, n) && m.num.1 == centre_num(j, n) && m.num.2 == centre_num(k, n)
        && m.den == n
}

proof fn lemma_idx3(ii: int, jj: int, kk: int, i: int, n: int)
    by (nonlinear_arith)
    requires
        0 <= ii < i,
        0 <= jj < n,
        0 <= kk < n,
    ensures
        0 <= ii * (n * n) + jj * n + kk < i * (n * n),
{
}

proof fn lemma_idx2(jj: int, kk: int, j: int, n: int)
    by (nonlinear_arith)
    requires
        0 <= jj < j,
        0 <= kk < n,
    ensures
        0 <= jj * n + kk < j * n,
{
}

proof fn lemma_nonneg_mul(a: int, b: int)
    by (nonlinear_arith)
    requires
        0 <= a,
        0 <= b,
    ensures
        0 <= a * b,
{
}

/// Builds the lattice of `n * n * n` cube instances, the x index varying
/// slowest and the z index fastest.
pub fn make_matrices(n: usize) -> (r: Vec<Model>)
    requires
        n <= 0x7fffffff,
    ensures
        r@.len() == n * n * n,
        forall|i: int, j: int, k: int|
            0 <= i < n && 0 <= j < n && 0 <= k < n ==> model_ok(
                #[trigger] r@[i * (n * n) + j * n + k],
                i,
                j,
                k,
                n as int,
            ),
{
    let mut r: Vec<Model> = Vec::new();
    let mut i: usize = 0;
    while i < n
        invariant
            0 <= i <= n <= 0x7fffffff,
            r@.len() == i * (n * n),
            forall|ii: int, jj: int, kk: int|
                0 <= ii < i && 0 <= jj < n && 0 <= kk < n ==> model_ok(
                    #[trigger] r@[ii * (n * n) + jj * n + kk],
                    ii,
                    jj,
                    kk,
                    n as int,
                ),
        decreases n - i,
    {
        let x: i64 = 2 * (i as i64) + 1 - (n as i64);
        let mut j: usize = 0;
        while j < n
            invariant
                0 <= i < n <= 0x7fffffff,
                0 <= j <= n,
                x == centre_num(i as int, n as int),
                r@.len() == i * (n * n) + j * n,
                forall|ii: int, jj: int, kk: int|
                    0 <= ii < i && 0 <= jj < n && 0 <= kk < n ==> model_ok(
                        #[trigger] r@[ii * (n * n) + jj * n + kk],
                        ii,
                        jj,
                        kk,
                        n as int,
                    ),
                forall|jj: int, kk: int|
                    0 <= jj < j && 0 <= kk < n ==> model_ok(
                        #[trigger] r@[i * (n * n) + jj * n + kk],
                        i as int,
                        jj,
                        kk,
                        n as int,
                    ),
            decreases n - j,
        {
            let y: i64 = 2 * (j as i64) + 1 - (n as i64);
            let mut k: usize = 0;
            while k < n
                invariant
                    0 <= i < n <= 0x7fffffff,
                    0 <= j < n,
                    0 <= k <= n,
                    x == centre_num(i as int, n as int),
                    y == centre_num(j as int, n as int),
                    r@.len() == i * (n * n) + j * n + k,
                    forall|ii: int, jj: int, kk: int|
                        0 <= ii < i && 0 <= jj < n && 0 <= kk < n ==> model_ok(
                            #[trigger] r@[ii * (n * n) + jj * n + kk],
                            ii,
                            jj,
                            kk,
                            n as int,
                        ),
                    forall|jj: int, kk: int|
                        0 <= jj < j && 0 <= kk < n ==> model_ok(
                            #[trigger] r@[i * (n * n) + jj * n + kk],
                            i as int,
                            jj,
                            kk,
                            n as int,
                        ),
                    forall|kk: int|
                        0 <= kk < k ==> model_ok(
                            #[trigger] r@[i * (n * n) + j * n + kk],
                            i as int,
                            j as int,
                            kk,
                            n as int,
                        ),
                decreases n - k,
            {
                let z: i64 = 2 * (k as i64) + 1 - (n as i64);
                let ghost oldr = r@;
                let m = Model { num: (x, y, z), den: n as i64 };
                r.push(m);
                k = k + 1;
                proof {
                    lemma_nonneg_mul(j as int, n as int);
                    assert forall|ii: int, jj: int, kk: int|
                        0 <= ii < i && 0 <= jj < n && 0 <= kk < n implies model_ok(
                        #[trigger] r@[ii * (n * n) + jj * n + kk],
                        ii,
                        jj,
                        kk,
                        n as int,
                    ) by {
                        lemma_idx3(ii, jj, kk, i as int, n as int);
                        assert(ii * (n * n) + jj * n + kk < oldr.len());
                        assert(r@[ii * (n * n) + jj * n + kk] == oldr[ii * (n * n) + jj * n + kk]);
                    }
                    assert forall|jj: int, kk: int|
                        0 <= jj < j && 0 <= kk < n implies model_ok(
                        #[trigger] r@[i * (n * n) + jj * n + kk],
                        i as int,
                        jj,
                        kk,
                        n as int,
                    ) by {
                        lemma_idx2(jj, kk, j as int, n as int);
                        assert(i * (n * n) + jj * n + kk < oldr.len());
                        assert(r@[i * (n * n) + jj * n + kk] == oldr[i * (n * n) + jj * n + kk]);
                    }
                    assert(r@[i * (n * n) + j * n + (k - 1)] == m);
                }
            }
            j = j + 1;
            proof {
                assert(i * (n * n) + (j - 1) * n + n == i * (n * n) + j * n) by (nonlinear_arith);
            }
        }
        i = i + 1;
        proof {
            assert((i - 1) * (n * n) + n * n == i * (n * n)) by (nonlinear_arith);
        }
    }
    proof {
        assert(n * (n * n) == n * n * n) by (nonlinear_arith);
    }
    r
}

} // verus!
