//! The per-pixel volumetric sampler and compositor.
//!
//! Per output pixel the rasterizer supplies the 3D positions where the view
//! ray enters and leaves the volume's bounding cuboid, each with a coverage
//! alpha; zero front-face alpha means the ray misses the volume entirely.
//! The compositor marches from the entry point towards the exit point at a
//! fixed step, sampling the scalar field with tri-linear interpolation, and
//! produces one colour under the active policy: the brightest sample seen
//! (maximum-intensity projection), or Phong shading at the first sample
//! over a threshold (isosurface extraction).
//!
//! All quantities are fixed-point integers scaled by [`FX`]: positions and
//! colour channels live in `0 ..= FX` for the unit range, and the gamma
//! exponent is a positive rational.  Every operation is exact integer
//! arithmetic with explicit truncation, so the whole pipeline is a total
//! function of its inputs, stated by [`spec_composite`]; degenerate inputs
//! (a zero-length ray) degrade to a fully transparent pixel, never to an
//! undefined value.

use vstd::prelude::*;

verus! {

/// The fixed-point scale: values scaled by this represent the unit range.
pub const FX: i64 = 65536;

/// The fixed-point scale as a spec integer.
pub open spec fn fxi() -> int {
    65536
}

/// Signed division truncating towards zero, on a positive divisor.
pub open spec fn sdiv(a: int, b: int) -> int {
    if a >= 0 {
        a / b
    } else {
        -((-a) / b)
    }
}

/// Runs [`sdiv`]: division truncating towards zero.
pub fn div_trunc(a: i64, b: i64) -> (r: i64)
    requires
        b > 0,
        a > i64::MIN,
    ensures
        r == sdiv(a as int, b as int),
{
    if a >= 0 {
        a / b
    } else {
        -((-a) / b)
    }
}

/// Truncating towards zero never grows the magnitude beyond `m / b`.
pub proof fn lemma_sdiv_bound(a: int, b: int, m: int)
    requires
        b > 0,
        0 <= m,
        -m <= a <= m,
    ensures
        -(m / b) <= sdiv(a, b) <= m / b,
{
    if a >= 0 {
        vstd::arithmetic::div_mod::lemma_div_is_ordered(a, m, b);
        vstd::arithmetic::div_mod::lemma_div_pos_is_pos(a, b);
    } else {
        vstd::arithmetic::div_mod::lemma_div_is_ordered(-a, m, b);
        vstd::arithmetic::div_mod::lemma_div_pos_is_pos(-a, b);
    }
}

/// The integer square root: the exact floor of the real square root.
pub open spec fn spec_isqrt(x: nat) -> nat
    decreases x,
{
    if x == 0 {
        0
    } else {
        let r = spec_isqrt((x - 1) as nat);
        if (r + 1) * (r + 1) <= x {
            r + 1
        } else {
            r
        }
    }
}

/// The defining bracket of the integer square root.
pub proof fn lemma_isqrt_bracket(x: nat)
    ensures
        spec_isqrt(x) * spec_isqrt(x) <= x,
        (spec_isqrt(x) + 1) * (spec_isqrt(x) + 1) > x,
    decreases x,
{
    if x == 0 {
        assert(spec_isqrt(0nat) == 0);
        assert((spec_isqrt(x) + 1) * (spec_isqrt(x) + 1) > x) by (nonlinear_arith)
            requires
                spec_isqrt(x) == 0,
                x == 0nat,
        ;
    } else {
        lemma_isqrt_bracket((x - 1) as nat);
        let r = spec_isqrt((x - 1) as nat);
        assert(r * r <= x - 1);
        assert((r + 1) * (r + 1) > x - 1);
        if (r + 1) * (r + 1) <= x {
            assert(spec_isqrt(x) == r + 1);
            assert((r + 2) * (r + 2) > x) by (nonlinear_arith)
                requires
                    (r + 1) * (r + 1) > x - 1,
                    (r + 1) * (r + 1) <= x,
                    r >= 0,
            ;
            assert((spec_isqrt(x) + 1) * (spec_isqrt(x) + 1) == (r + 2) * (r + 2));
        } else {
            assert(spec_isqrt(x) == r);
            assert(spec_isqrt(x) * spec_isqrt(x) <= x);
            assert((spec_isqrt(x) + 1) * (spec_isqrt(x) + 1) > x);
        }
    }
}

/// Any two values bracketing the same square are equal.
proof fn lemma_sqrt_unique(x: int, r1: int, r2: int)
    by (nonlinear_arith)
    requires
        0 <= r1,
        0 <= r2,
        r1 * r1 <= x,
        (r1 + 1) * (r1 + 1) > x,
        r2 * r2 <= x,
        (r2 + 1) * (r2 + 1) > x,
    ensures
        r1 == r2,
{
}

/// Computes the integer square root by bisection.
pub fn isqrt(x: i64) -> (r: i64)
    requires
        x >= 0,
    ensures
        r == spec_isqrt(x as nat),
        r >= 0,
        r * r <= x < (r + 1) * (r + 1),
{
    let mut lo: i64 = 0;
    let mut hi: i64 = if x < 3037000499 {
        x
    } else {
        3037000499
    };
    proof {
        assert((hi + 1) * (hi + 1) > x) by (nonlinear_arith)
            requires
                hi >= 0 && hi >= x || hi == 3037000499,
                x <= i64::MAX,
                hi <= x,
        ;
    }
    while lo < hi
        invariant
            0 <= lo <= hi <= 3037000499,
            lo * lo <= x,
            (hi + 1) * (hi + 1) > x,
        decreases hi - lo,
    {
        let mid = lo + (hi - lo + 1) / 2;
        assert(lo < mid <= hi);
        if mid <= x / mid {
            proof {
                vstd::arithmetic::div_mod::lemma_fundamental_div_mod(x as int, mid as int);
                assert(mid * mid <= x) by (nonlinear_arith)
                    requires
                        mid >= 1,
                        mid <= x / mid,
                        x == (x / mid) * mid + x % mid,
                        x % mid >= 0,
                ;
            }
            lo = mid;
        } else {
            proof {
                vstd::arithmetic::div_mod::lemma_fundamental_div_mod(x as int, mid as int);
                assert(mid * mid > x) by (nonlinear_arith)
                    requires
                        mid >= 1,
                        mid > x / mid,
                        x == (x / mid) * mid + x % mid,
                        x % mid < mid,
                ;
            }
            hi = mid - 1;
        }
    }
    proof {
        lemma_isqrt_bracket(x as nat);
        lemma_sqrt_unique(x as int, lo as int, spec_isqrt(x as nat) as int);
    }
    lo
}

/// The fixed-point power: `b/FX` raised to `e`, accumulating one
/// truncating rescale per factor, exactly as the executable loop does.
pub open spec fn spec_powfx(b: int, e: nat) -> int
    decreases e,
{
    if e == 0 {
        fxi()
    } else {
        spec_powfx(b, (e - 1) as nat) * b / fxi()
    }
}

/// A fixed-point power of a unit-range base stays in the unit range.
pub proof fn lemma_powfx_range(b: int, e: nat)
    requires
        0 <= b <= fxi(),
    ensures
        0 <= spec_powfx(b, e) <= fxi(),
    decreases e,
{
    if e > 0 {
        lemma_powfx_range(b, (e - 1) as nat);
        let p = spec_powfx(b, (e - 1) as nat);
        assert(0 <= p * b <= fxi() * fxi()) by (nonlinear_arith)
            requires
                0 <= p <= fxi(),
                0 <= b <= fxi(),
        ;
        vstd::arithmetic::div_mod::lemma_div_pos_is_pos(p * b, fxi());
        vstd::arithmetic::div_mod::lemma_div_is_ordered(p * b, fxi() * fxi(), fxi());
        assert(fxi() * fxi() / fxi() == fxi()) by (nonlinear_arith);
    }
}

/// Computes the fixed-point power of a unit-range base.
pub fn powfx(b: i64, e: u32) -> (r: i64)
    requires
        0 <= b <= FX,
    ensures
        r == spec_powfx(b as int, e as nat),
        0 <= r <= FX,
{
    let mut acc: i64 = FX;
    let mut i: u32 = 0;
    proof {
        lemma_powfx_range(b as int, 0);
    }
    while i < e
        invariant
            0 <= i <= e,
            0 <= b <= FX,
            acc == spec_powfx(b as int, i as nat),
            0 <= acc <= FX,
        decreases e - i,
    {
        proof {
            lemma_powfx_range(b as int, (i + 1) as nat);
            assert(0 <= acc * b <= fxi() * fxi()) by (nonlinear_arith)
                requires
                    0 <= acc <= fxi(),
                    0 <= b <= fxi(),
            ;
        }
        acc = (acc * b) / FX;
        i = i + 1;
    }
    acc
}

/// The largest value not above `hi` whose fixed-point `p`-th power is at
/// most `t`.
pub open spec fn root_below(t: int, p: nat, hi: nat) -> int
    decreases hi,
{
    if hi == 0 {
        0
    } else if spec_powfx(hi as int, p) <= t {
        hi as int
    } else {
        root_below(t, p, (hi - 1) as nat)
    }
}

/// The defining bracket of `root_below`: its power is within the bound and
/// the next value's power is beyond it (unless the root is `hi` itself).
pub proof fn lemma_root_below_bracket(t: int, p: nat, hi: nat)
    requires
        t >= 0,
        p >= 1,
    ensures
        0 <= root_below(t, p, hi) <= hi,
        spec_powfx(root_below(t, p, hi), p) <= t,
        root_below(t, p, hi) == hi || spec_powfx(root_below(t, p, hi) + 1, p) > t,
    decreases hi,
{
    if hi == 0 {
        assert(spec_powfx(0, (p - 1) as nat) * 0 == 0) by (nonlinear_arith);
        assert(spec_powfx(0, p) == 0);
    } else if spec_powfx(hi as int, p) <= t {
    } else {
        lemma_root_below_bracket(t, p, (hi - 1) as nat);
    }
}

/// Any two values satisfying the bracket agree, because they pin the same
/// crossing point of a function of one argument.
proof fn lemma_root_unique(t: int, p: nat, hi: int, r1: int, r2: int)
    requires
        0 <= r1 <= hi,
        0 <= r2 <= hi,
        spec_powfx(r1, p) <= t,
        r1 == hi || spec_powfx(r1 + 1, p) > t,
        spec_powfx(r2, p) <= t,
        r2 == hi || spec_powfx(r2 + 1, p) > t,
        forall|a: int, b: int|
            0 <= a <= b <= hi ==> #[trigger] spec_powfx(a, p) <= #[trigger] spec_powfx(b, p),
    ensures
        r1 == r2,
{
    if r1 < r2 {
        assert(spec_powfx(r1 + 1, p) <= spec_powfx(r2, p));
    }
    if r2 < r1 {
        assert(spec_powfx(r2 + 1, p) <= spec_powfx(r1, p));
    }
}

/// The fixed-point power is monotone in the base.
pub proof fn lemma_powfx_monotone(b1: int, b2: int, e: nat)
    requires
        0 <= b1 <= b2 <= fxi(),
    ensures
        spec_powfx(b1, e) <= spec_powfx(b2, e),
    decreases e,
{
    if e > 0 {
        lemma_powfx_monotone(b1, b2, (e - 1) as nat);
        let p1 = spec_powfx(b1, (e - 1) as nat);
        let p2 = spec_powfx(b2, (e - 1) as nat);
        lemma_powfx_range(b1, (e - 1) as nat);
        lemma_powfx_range(b2, (e - 1) as nat);
        assert(p1 * b1 <= p2 * b2) by (nonlinear_arith)
            requires
                0 <= p1 <= p2,
                0 <= b1 <= b2,
        ;
        vstd::arithmetic::div_mod::lemma_div_is_ordered(p1 * b1, p2 * b2, fxi());
    }
}

/// Computes the largest unit-range value whose fixed-point `p`-th power
/// does not exceed `t`, by bisection.
pub fn rootfx(t: i64, p: u32) -> (r: i64)
    requires
        0 <= t,
        p >= 1,
    ensures
        r == root_below(t as int, p as nat, 65536nat),
        0 <= r <= FX,
{
    let mut lo: i64 = 0;
    let mut hi: i64 = FX;
    proof {
        assert(spec_powfx(0, (p - 1) as nat) * 0 == 0) by (nonlinear_arith);
        assert(spec_powfx(0, p as nat) == 0);
    }
    while lo < hi
        invariant
            0 <= lo <= hi <= FX,
            0 <= t,
            p >= 1,
            spec_powfx(lo as int, p as nat) <= t,
            hi == FX || spec_powfx(hi as int + 1, p as nat) > t,
        decreases hi - lo,
    {
        let mid = lo + (hi - lo + 1) / 2;
        assert(lo < mid <= hi);
        let pw = powfx(mid, p);
        if pw <= t {
            lo = mid;
        } else {
            hi = mid - 1;
        }
    }
    proof {
        lemma_root_below_bracket(t as int, p as nat, 65536nat);
        assert forall|a: int, b: int|
            0 <= a <= b <= 65536 implies #[trigger] spec_powfx(a, p as nat) <= #[trigger] spec_powfx(
            b,
            p as nat,
        ) by {
            lemma_powfx_monotone(a, b, p as nat);
        }
        lemma_root_unique(
            t as int,
            p as nat,
            65536,
            lo as int,
            root_below(t as int, p as nat, 65536nat),
        );
    }
    lo
}

/// Gamma correction of one unit-range channel, for gamma `p / q`: the
/// channel raised to `q / p`, computed as the `p`-th fixed-point root of
/// the `q`-th fixed-point power.  Black stays black: the truncating
/// fixed-point power flattens a run of small values to zero, and taking
/// the largest root of zero would brighten them, so zero is mapped
/// through unchanged.
pub open spec fn spec_gamma(c: int, p: nat, q: nat) -> int {
    if c == 0 {
        0
    } else {
        root_below(spec_powfx(c, q), p, 65536nat)
    }
}

/// Applies gamma correction to one unit-range channel.
pub fn gamma_correct(c: i64, p: u32, q: u32) -> (r: i64)
    requires
        0 <= c <= FX,
        p >= 1,
        q >= 1,
    ensures
        r == spec_gamma(c as int, p as nat, q as nat),
        0 <= r <= FX,
{
    if c == 0 {
        return 0;
    }
    let t = powfx(c, q);
    rootfx(t, p)
}

/// Unit gamma is the identity: correcting a unit-range channel with gamma
/// one returns the channel unchanged.
pub proof fn lemma_gamma_one_identity(c: int)
    requires
        0 <= c <= fxi(),
    ensures
        spec_gamma(c, 1, 1) == c,
{
    assert(spec_powfx(c, 0) == fxi());
    assert(spec_powfx(c, 1) == fxi() * c / fxi());
    assert(fxi() * c / fxi() == c) by (nonlinear_arith)
        requires
            0 <= c,
    ;
    lemma_root_below_bracket(c, 1, 65536nat);
    let r = root_below(c, 1, 65536nat);
    assert(spec_powfx(r, 0) == fxi());
    assert(spec_powfx(r, 1) == fxi() * r / fxi());
    assert(fxi() * r / fxi() == r) by (nonlinear_arith)
        requires
            0 <= r,
    ;
    if r < c {
        assert(spec_powfx(r + 1, 0) == fxi());
        assert(spec_powfx(r + 1, 1) == fxi() * (r + 1) / fxi());
        assert(fxi() * (r + 1) / fxi() == r + 1) by (nonlinear_arith)
            requires
                0 <= r + 1,
        ;
    }
}

/// A fixed-point 3D vector, components scaled by [`FX`].
#[derive(Clone, Copy, Debug, PartialEq, Eq, Structural)]
pub struct Fx3 {
    pub x: i64,
    pub y: i64,
    pub z: i64,
}

/// `v` clamped into `lo ..= hi`.
pub open spec fn clampi(v: int, lo: int, hi: int) -> int {
    if v < lo {
        lo
    } else if v > hi {
        hi
    } else {
        v
    }
}

/// The texel-space coordinate sampled along one axis of `n` texels for a
/// position `p`: the position is clamped to the unit range (sampling
/// clamps to the volume's edge), scaled to texel space with the half-texel
/// offset of centre-based filtering, and clamped to the last texel centre.
pub open spec fn axis_coord(p: int, n: int) -> int {
    clampi(clampi(p, 0, fxi()) * n - fxi() / 2, 0, (n - 1) * fxi())
}

/// One sample byte as a unit-range fixed-point value.
pub open spec fn byte_val(b: u8) -> int {
    b * fxi() / 255
}

/// The value of the grid sample at integer cell `(xi, yi, zi)`; the x
/// index varies fastest in the payload.
pub open spec fn cell_val(v: crate::spoints::SpointsView, xi: int, yi: int, zi: int) -> int {
    byte_val(v.data[xi + v.dims.0 as int * (yi + v.dims.1 as int * zi)])
}

/// Linear interpolation between `a` and `b` by the unit-range weight `w`,
/// with one truncating rescale.
pub open spec fn lerp(a: int, b: int, w: int) -> int {
    (a * (fxi() - w) + b * w) / fxi()
}

/// The tri-linearly interpolated field value at a fixed-point position:
/// what sampling the volume as a clamped, linearly filtered texture reads.
/// Opaque: callers reason through [`sample_volume`], [`lemma_sample_bound`]
/// and [`lemma_sample_range`].
#[verifier::opaque]
pub open spec fn spec_sample(v: crate::spoints::SpointsView, px: int, py: int, pz: int) -> int {
    let nx = v.dims.0 as int;
    let ny = v.dims.1 as int;
    let nz = v.dims.2 as int;
    let cx = axis_coord(px, nx);
    let cy = axis_coord(py, ny);
    let cz = axis_coord(pz, nz);
    let x0 = cx / fxi();
    let wx = cx % fxi();
    let y0 = cy / fxi();
    let wy = cy % fxi();
    let z0 = cz / fxi();
    let wz = cz % fxi();
    let x1 = if x0 + 1 < nx {
        x0 + 1
    } else {
        nx - 1
    };
    let y1 = if y0 + 1 < ny {
        y0 + 1
    } else {
        ny - 1
    };
    let z1 = if z0 + 1 < nz {
        z0 + 1
    } else {
        nz - 1
    };
    lerp(
        lerp(
            lerp(cell_val(v, x0, y0, z0), cell_val(v, x1, y0, z0), wx),
            lerp(cell_val(v, x0, y1, z0), cell_val(v, x1, y1, z0), wx),
            wy,
        ),
        lerp(
            lerp(cell_val(v, x0, y0, z1), cell_val(v, x1, y0, z1), wx),
            lerp(cell_val(v, x0, y1, z1), cell_val(v, x1, y1, z1), wx),
            wy,
        ),
        wz,
    )
}

proof fn lemma_grid_index(xi: int, yi: int, zi: int, nx: int, ny: int, nz: int)
    by (nonlinear_arith)
    requires
        0 <= xi < nx,
        0 <= yi < ny,
        0 <= zi < nz,
    ensures
        0 <= xi + nx * (yi + ny * zi) < nx * ny * nz,
{
}

/// Bounds of the texel coordinate, its texel index and its weight.
pub proof fn lemma_axis_bounds(p: int, n: int)
    requires
        n >= 1,
    ensures
        0 <= axis_coord(p, n) <= (n - 1) * fxi(),
        0 <= axis_coord(p, n) / fxi() <= n - 1,
        0 <= axis_coord(p, n) % fxi() < fxi(),
{
    assert(0 <= (n - 1) * fxi()) by (nonlinear_arith)
        requires
            n >= 1,
    ;
    let c = axis_coord(p, n);
    vstd::arithmetic::div_mod::lemma_div_pos_is_pos(c, fxi());
    vstd::arithmetic::div_mod::lemma_div_is_ordered(c, (n - 1) * fxi(), fxi());
    assert((n - 1) * fxi() / fxi() == n - 1) by (nonlinear_arith)
        requires
            n >= 1,
    ;
    assert(0 <= c % fxi() < fxi()) by {
        vstd::arithmetic::div_mod::lemma_mod_bound(c, fxi());
    }
}

/// A sample byte is in the unit range.
pub proof fn lemma_byte_val_range(b: u8)
    ensures
        0 <= byte_val(b) <= fxi(),
        byte_val(b) <= byte_val(255),
        byte_val(255) == fxi(),
{
    vstd::arithmetic::div_mod::lemma_div_pos_is_pos(b * fxi(), 255);
    vstd::arithmetic::div_mod::lemma_div_is_ordered(b * fxi(), 255 * fxi(), 255);
    assert(b * fxi() <= 255 * fxi()) by (nonlinear_arith)
        requires
            b <= 255,
    ;
    assert(255 * fxi() / 255 == fxi()) by (nonlinear_arith);
}

/// Interpolation stays within the bounds of its endpoints.
pub proof fn lemma_lerp_bound(a: int, b: int, w: int, m: int)
    requires
        0 <= a <= m,
        0 <= b <= m,
        0 <= w <= fxi(),
    ensures
        0 <= lerp(a, b, w) <= m,
{
    assert(0 <= a * (fxi() - w) + b * w <= m * fxi()) by (nonlinear_arith)
        requires
            0 <= a <= m,
            0 <= b <= m,
            0 <= w <= fxi(),
    ;
    vstd::arithmetic::div_mod::lemma_div_pos_is_pos(a * (fxi() - w) + b * w, fxi());
    vstd::arithmetic::div_mod::lemma_div_is_ordered(a * (fxi() - w) + b * w, m * fxi(), fxi());
    assert(m * fxi() / fxi() == m) by (nonlinear_arith)
        requires
            m >= 0,
    ;
}

/// When every sample byte is worth at most `m`, every interpolated value
/// is too, and it is never negative.
pub proof fn lemma_sample_bound(v: crate::spoints::SpointsView, px: int, py: int, pz: int, m: int)
    requires
        v.wf(),
        0 <= m,
        forall|i: int| 0 <= i < v.data.len() ==> byte_val(#[trigger] v.data[i]) <= m,
    ensures
        0 <= spec_sample(v, px, py, pz) <= m,
{
    reveal(spec_sample);
    let nx = v.dims.0 as int;
    let ny = v.dims.1 as int;
    let nz = v.dims.2 as int;
    lemma_axis_bounds(px, nx);
    lemma_axis_bounds(py, ny);
    lemma_axis_bounds(pz, nz);
    let x0 = axis_coord(px, nx) / fxi();
    let wx = axis_coord(px, nx) % fxi();
    let y0 = axis_coord(py, ny) / fxi();
    let wy = axis_coord(py, ny) % fxi();
    let z0 = axis_coord(pz, nz) / fxi();
    let wz = axis_coord(pz, nz) % fxi();
    let x1 = if x0 + 1 < nx {
        x0 + 1
    } else {
        nx - 1
    };
    let y1 = if y0 + 1 < ny {
        y0 + 1
    } else {
        ny - 1
    };
    let z1 = if z0 + 1 < nz {
        z0 + 1
    } else {
        nz - 1
    };
    assert forall|xi: int, yi: int, zi: int|
        0 <= xi < nx && 0 <= yi < ny && 0 <= zi < nz implies 0 <= #[trigger] cell_val(
        v,
        xi,
        yi,
        zi,
    ) <= m by {
        lemma_grid_index(xi, yi, zi, nx, ny, nz);
        lemma_byte_val_range(v.data[xi + nx * (yi + ny * zi)]);
    }
    lemma_lerp_bound(cell_val(v, x0, y0, z0), cell_val(v, x1, y0, z0), wx, m);
    lemma_lerp_bound(cell_val(v, x0, y1, z0), cell_val(v, x1, y1, z0), wx, m);
    lemma_lerp_bound(cell_val(v, x0, y0, z1), cell_val(v, x1, y0, z1), wx, m);
    lemma_lerp_bound(cell_val(v, x0, y1, z1), cell_val(v, x1, y1, z1), wx, m);
    lemma_lerp_bound(
        lerp(cell_val(v, x0, y0, z0), cell_val(v, x1, y0, z0), wx),
        lerp(cell_val(v, x0, y1, z0), cell_val(v, x1, y1, z0), wx),
        wy,
        m,
    );
    lemma_lerp_bound(
        lerp(cell_val(v, x0, y0, z1), cell_val(v, x1, y0, z1), wx),
        lerp(cell_val(v, x0, y1, z1), cell_val(v, x1, y1, z1), wx),
        wy,
        m,
    );
    lemma_lerp_bound(
        lerp(
            lerp(cell_val(v, x0, y0, z0), cell_val(v, x1, y0, z0), wx),
            lerp(cell_val(v, x0, y1, z0), cell_val(v, x1, y1, z0), wx),
            wy,
        ),
        lerp(
            lerp(cell_val(v, x0, y0, z1), cell_val(v, x1, y0, z1), wx),
            lerp(cell_val(v, x0, y1, z1), cell_val(v, x1, y1, z1), wx),
            wy,
        ),
        wz,
        m,
    );
}

/// Every interpolated sample of a well-formed volume is in the unit range.
pub proof fn lemma_sample_range(v: crate::spoints::SpointsView, px: int, py: int, pz: int)
    requires
        v.wf(),
    ensures
        0 <= spec_sample(v, px, py, pz) <= fxi(),
{
    assert forall|i: int| 0 <= i < v.data.len() implies byte_val(#[trigger] v.data[i]) <= fxi() by {
        lemma_byte_val_range(v.data[i]);
    }
    lemma_sample_bound(v, px, py, pz, fxi());
}

/// Fetches one grid sample as a unit-range value.
fn cell_fetch(vol: &crate::spoints::StructuredPoints, xi: i64, yi: i64, zi: i64) -> (r: i64)
    requires
        vol@.wf(),
        0 <= xi < vol.dims.0,
        0 <= yi < vol.dims.1,
        0 <= zi < vol.dims.2,
    ensures
        r == cell_val(vol@, xi as int, yi as int, zi as int),
        0 <= r <= FX,
{
    proof {
        lemma_grid_index(
            xi as int,
            yi as int,
            zi as int,
            vol.dims.0 as int,
            vol.dims.1 as int,
            vol.dims.2 as int,
        );
        let nxi = vol.dims.0 as int;
        let nyi = vol.dims.1 as int;
        assert(0 <= nyi * (zi as int) < 0x10000000000000000int && 0 <= nxi * ((yi as int) + nyi * (
        zi as int)) < 0x1000000000000000000000000int) by (nonlinear_arith)
            requires
                0 <= (zi as int) < 0x100000000,
                0 <= (yi as int) < 0x100000000,
                0 <= nyi < 0x100000000,
                0 <= nxi < 0x100000000,
        ;
    }
    let idx128: u128 = (xi as u128) + (vol.dims.0 as u128) * ((yi as u128) + (vol.dims.1 as u128)
        * (zi as u128));
    let dlen = vol.data.len();
    proof {
        assert(idx128 == xi as int + vol.dims.0 as int * (yi as int + vol.dims.1 as int
            * (zi as int)));
        assert(idx128 < dlen);
    }
    let idx: usize = idx128 as usize;
    let b = vol.data[idx];
    proof {
        lemma_byte_val_range(b);
    }
    (b as i64) * FX / 255
}

/// Interpolates between two unit-range values.
fn lerp_fx(a: i64, b: i64, w: i64) -> (r: i64)
    requires
        0 <= a <= FX,
        0 <= b <= FX,
        0 <= w <= FX,
    ensures
        r == lerp(a as int, b as int, w as int),
        0 <= r <= FX,
{
    proof {
        assert(0 <= a * (FX - w) + b * w <= 0x100000000000000000i128) by (nonlinear_arith)
            requires
                0 <= a <= FX,
                0 <= b <= FX,
                0 <= w <= FX,
        ;
        lemma_lerp_bound(a as int, b as int, w as int, fxi());
    }
    (a * (FX - w) + b * w) / FX
}

/// Samples the scalar field at a fixed-point position with tri-linear
/// interpolation, clamping to the volume's edge.
pub fn sample_volume(vol: &crate::spoints::StructuredPoints, p: &Fx3) -> (r: i64)
    requires
        vol@.wf(),
    ensures
        r == spec_sample(vol@, p.x as int, p.y as int, p.z as int),
        0 <= r <= FX,
{
    proof {
        reveal(spec_sample);
        lemma_sample_range(vol@, p.x as int, p.y as int, p.z as int);
        lemma_axis_bounds(p.x as int, vol.dims.0 as int);
        lemma_axis_bounds(p.y as int, vol.dims.1 as int);
        lemma_axis_bounds(p.z as int, vol.dims.2 as int);
    }
    let (x0, wx, x1) = axis_setup(p.x, vol.dims.0);
    let (y0, wy, y1) = axis_setup(p.y, vol.dims.1);
    let (z0, wz, z1) = axis_setup(p.z, vol.dims.2);
    let c000 = cell_fetch(vol, x0, y0, z0);
    let c100 = cell_fetch(vol, x1, y0, z0);
    let c010 = cell_fetch(vol, x0, y1, z0);
    let c110 = cell_fetch(vol, x1, y1, z0);
    let c001 = cell_fetch(vol, x0, y0, z1);
    let c101 = cell_fetch(vol, x1, y0, z1);
    let c011 = cell_fetch(vol, x0, y1, z1);
    let c111 = cell_fetch(vol, x1, y1, z1);
    let front = lerp_fx(lerp_fx(c000, c100, wx), lerp_fx(c010, c110, wx), wy);
    let back = lerp_fx(lerp_fx(c001, c101, wx), lerp_fx(c011, c111, wx), wy);
    lerp_fx(front, back, wz)
}

/// The texel index, weight and neighbour index along one axis.
fn axis_setup(p: i64, n: u32) -> (r: (i64, i64, i64))
    requires
        n >= 1,
    ensures
        r.0 == axis_coord(p as int, n as int) / fxi(),
        r.1 == axis_coord(p as int, n as int) % fxi(),
        r.2 == if r.0 + 1 < n {
            r.0 + 1int
        } else {
            n - 1int
        },
        0 <= r.0 < n,
        0 <= r.1 < FX,
        0 <= r.2 < n,
{
    proof {
        lemma_axis_bounds(p as int, n as int);
    }
    let n64 = n as i64;
    let pc: i64 = if p < 0 {
        0
    } else if p > FX {
        FX
    } else {
        p
    };
    proof {
        assert(0 <= pc * n64 <= 0x1000000000000i64) by (nonlinear_arith)
            requires
                0 <= pc <= FX,
                0 <= n64 < 0x100000000,
        ;
        assert(0 <= (n64 - 1) * FX <= 0x1000000000000i64) by (nonlinear_arith)
            requires
                1 <= n64 < 0x100000000,
        ;
    }
    let t: i64 = pc * n64 - FX / 2;
    let hi: i64 = (n64 - 1) * FX;
    let c: i64 = if t < 0 {
        0
    } else if t > hi {
        hi
    } else {
        t
    };
    let i0 = c / FX;
    let w = c % FX;
    let i1: i64 = if i0 + 1 < n64 {
        i0 + 1
    } else {
        n64 - 1
    };
    (i0, w, i1)
}

/// The two compositing policies.
#[derive(Clone, Copy, Debug, PartialEq, Eq, Structural)]
pub enum Mode {
    /// Report the brightest sample seen along the ray.
    MaximumIntensityProjection,
    /// Shade the first sample over the threshold as a lit surface.
    IsosurfaceExtraction,
}

/// The Phong-style shading inputs for isosurface extraction.
#[derive(Clone, Copy, Debug, PartialEq, Eq, Structural)]
pub struct Shading {
    /// Ambient colour, unit range per channel.
    pub ambient: Fx3,
    /// Ambient strength, unit range.
    pub amb_str: i64,
    /// Diffuse colour, unit range per channel.
    pub diffuse: Fx3,
    /// Diffuse strength, unit range.
    pub dif_str: i64,
    /// Specular colour, unit range per channel.
    pub specular: Fx3,
    /// Specular strength, unit range.
    pub spe_str: i64,
    /// The specular exponent.
    pub shininess: u32,
    /// The light direction, components within the signed unit range.
    pub light: Fx3,
}

/// The per-frame compositing snapshot, copied in whole before a frame is
/// rendered; the compositor only reads it.
#[derive(Clone, Copy, Debug, PartialEq, Eq, Structural)]
pub struct CompositingParams {
    /// Ceiling on the number of marching steps.
    pub steps: u32,
    /// Step length, positive and at most one.
    pub dx: i64,
    /// Whether to dither the starting position by the per-pixel noise.
    pub use_noise: bool,
    /// Gamma numerator: gamma is `gamma_num / gamma_den`.
    pub gamma_num: u32,
    /// Gamma denominator.
    pub gamma_den: u32,
    /// The active policy.
    pub mode: Mode,
    /// The projection colour for maximum-intensity mode.
    pub colour: Fx3,
    /// The isosurface threshold.
    pub iso: i64,
    /// The central-difference step for gradient estimation.
    pub grad_step: i64,
    /// The shading inputs for isosurface mode.
    pub shading: Shading,
}

/// One pixel of a ray-bounds buffer: a position on the bounding cuboid and
/// a coverage alpha; zero alpha means the ray misses the volume.
#[derive(Clone, Copy, Debug, PartialEq, Eq, Structural)]
pub struct BoundsSample {
    pub pos: Fx3,
    pub alpha: i64,
}

/// A composited pixel, fixed-point unit range per channel.
#[derive(Clone, Copy, Debug, PartialEq, Eq, Structural)]
pub struct Rgba {
    pub r: i64,
    pub g: i64,
    pub b: i64,
    pub a: i64,
}

/// The mathematical image of a composited pixel.
pub ghost struct ColorModel {
    pub r: int,
    pub g: int,
    pub b: int,
    pub a: int,
}

impl View for Rgba {
    type V = ColorModel;

    open spec fn view(&self) -> ColorModel {
        ColorModel { r: self.r as int, g: self.g as int, b: self.b as int, a: self.a as int }
    }
}

impl Fx3 {
    /// All components in the unit range.
    pub open spec fn in_unit(self) -> bool {
        0 <= self.x <= fxi() && 0 <= self.y <= fxi() && 0 <= self.z <= fxi()
    }

    /// All components in the signed unit range.
    pub open spec fn in_sym(self) -> bool {
        -fxi() <= self.x <= fxi() && -fxi() <= self.y <= fxi() && -fxi() <= self.z <= fxi()
    }
}

impl Shading {
    /// Colour channels and strengths in the unit range, the light within
    /// the signed unit range.
    pub open spec fn wf(self) -> bool {
        self.ambient.in_unit() && 0 <= self.amb_str <= fxi() && self.diffuse.in_unit() && 0
            <= self.dif_str <= fxi() && self.specular.in_unit() && 0 <= self.spe_str <= fxi()
            && self.light.in_sym()
    }
}

impl CompositingParams {
    /// What the compositor requires of its snapshot: a positive step no
    /// longer than the unit range, a bounded step ceiling, a positive
    /// rational gamma, a positive gradient step, and unit-range colours.
    pub open spec fn wf(self) -> bool {
        1 <= self.dx <= fxi() && self.steps <= 1000000 && self.gamma_num >= 1 && self.gamma_den
            >= 1 && 1 <= self.grad_step <= fxi() && self.colour.in_unit() && self.shading.wf()
    }
}

impl BoundsSample {
    /// A position on the unit cuboid with a unit-range alpha.
    pub open spec fn wf(self) -> bool {
        self.pos.in_unit() && 0 <= self.alpha <= fxi()
    }
}

/// The fully transparent pixel.
pub open spec fn transparent_model() -> ColorModel {
    ColorModel { r: 0, g: 0, b: 0, a: 0 }
}

/// The fixed-point dot product of two vectors given as integer triples.
pub open spec fn dot_fx(a: (int, int, int), b: (int, int, int)) -> int {
    sdiv(a.0 * b.0 + a.1 * b.1 + a.2 * b.2, fxi())
}

/// The Euclidean length of an integer triple, rounded down.
pub open spec fn norm3(v: (int, int, int)) -> int {
    spec_isqrt((v.0 * v.0 + v.1 * v.1 + v.2 * v.2) as nat) as int
}

/// The unit vector along `v` in fixed point; the zero vector stays zero,
/// so shading a flat gradient falls back to ambient light alone.
pub open spec fn normalize3(v: (int, int, int)) -> (int, int, int) {
    let n = norm3(v);
    if n == 0 {
        (0, 0, 0)
    } else {
        (sdiv(v.0 * fxi(), n), sdiv(v.1 * fxi(), n), sdiv(v.2 * fxi(), n))
    }
}

/// The signed fixed-point power: like [`spec_powfx`] but on a base that
/// may be negative, as a surface can face away from the light.
pub open spec fn spow(b: int, e: nat) -> int
    decreases e,
{
    if e == 0 {
        fxi()
    } else {
        sdiv(spow(b, (e - 1) as nat) * b, fxi())
    }
}

/// The position sampled at step `j`: the start plus `j + 1` step vectors,
/// exact integer arithmetic.
pub open spec fn pos_at(s: (int, int, int), d: (int, int, int), j: int) -> (int, int, int) {
    (s.0 + (j + 1) * d.0, s.1 + (j + 1) * d.1, s.2 + (j + 1) * d.2)
}

/// The field value sampled at step `j`.
pub open spec fn sample_at(
    v: crate::spoints::SpointsView,
    s: (int, int, int),
    d: (int, int, int),
    j: int,
) -> int {
    spec_sample(v, pos_at(s, d, j).0, pos_at(s, d, j).1, pos_at(s, d, j).2)
}

/// The greatest field value among the first `iters` marched samples, or
/// the sentinel minus one when nothing was marched.
pub open spec fn mip_max(
    v: crate::spoints::SpointsView,
    s: (int, int, int),
    d: (int, int, int),
    iters: nat,
) -> int
    decreases iters,
{
    if iters == 0 {
        -fxi()
    } else {
        let prev = mip_max(v, s, d, (iters - 1) as nat);
        let cur = sample_at(v, s, d, iters as int - 1);
        if cur > prev {
            cur
        } else {
            prev
        }
    }
}

/// The index of the first marched sample at or after step `j` whose value
/// exceeds the threshold, or minus one when none does before `iters`.
pub open spec fn first_hit(
    v: crate::spoints::SpointsView,
    s: (int, int, int),
    d: (int, int, int),
    iso: int,
    j: nat,
    iters: nat,
) -> int
    decreases iters - j,
{
    if j >= iters {
        -1
    } else if sample_at(v, s, d, j as int) > iso {
        j as int
    } else {
        first_hit(v, s, d, iso, (j + 1) as nat, iters)
    }
}

/// Phong shading at a hit: the surface normal is the normalized
/// central-difference gradient (the common positive scale `1 / grad_step`
/// is dropped before normalizing, which does not change the direction),
/// and each channel is ambient plus diffuse plus specular, clamped to the
/// unit range and gamma corrected.  The specular cosine is clamped to the
/// signed unit range before exponentiation.
pub open spec fn spec_shade(
    v: crate::spoints::SpointsView,
    p: CompositingParams,
    dir: (int, int, int),
    hit: (int, int, int),
    val: int,
) -> ColorModel {
    let dr = p.grad_step as int;
    let g = (
        spec_sample(v, hit.0 + dr, hit.1, hit.2) - val,
        spec_sample(v, hit.0, hit.1 + dr, hit.2) - val,
        spec_sample(v, hit.0, hit.1, hit.2 + dr) - val,
    );
    let n = normalize3(g);
    let l = (p.shading.light.x as int, p.shading.light.y as int, p.shading.light.z as int);
    let ndl = dot_fx(n, l);
    let dif_w = if ndl > 0 {
        ndl
    } else {
        0
    };
    let h = normalize3((l.0 + dir.0, l.1 + dir.1, l.2 + dir.2));
    let ndh = clampi(dot_fx(n, h), -fxi(), fxi());
    let shin = p.shading.shininess as int;
    let spe_w = sdiv(spow(ndh, p.shading.shininess as nat) * (shin + 8), 8);
    let gp = p.gamma_num as nat;
    let gq = p.gamma_den as nat;
    ColorModel {
        r: spec_gamma(
            clampi(
                sdiv(p.shading.amb_str * p.shading.ambient.x, fxi()) + sdiv(
                    sdiv(p.shading.dif_str * p.shading.diffuse.x, fxi()) * dif_w,
                    fxi(),
                ) + sdiv(sdiv(p.shading.spe_str * p.shading.specular.x, fxi()) * spe_w, fxi()),
                0,
                fxi(),
            ),
            gp,
            gq,
        ),
        g: spec_gamma(
            clampi(
                sdiv(p.shading.amb_str * p.shading.ambient.y, fxi()) + sdiv(
                    sdiv(p.shading.dif_str * p.shading.diffuse.y, fxi()) * dif_w,
                    fxi(),
                ) + sdiv(sdiv(p.shading.spe_str * p.shading.specular.y, fxi()) * spe_w, fxi()),
                0,
                fxi(),
            ),
            gp,
            gq,
        ),
        b: spec_gamma(
            clampi(
                sdiv(p.shading.amb_str * p.shading.ambient.z, fxi()) + sdiv(
                    sdiv(p.shading.dif_str * p.shading.diffuse.z, fxi()) * dif_w,
                    fxi(),
                ) + sdiv(sdiv(p.shading.spe_str * p.shading.specular.z, fxi()) * spe_w, fxi()),
                0,
                fxi(),
            ),
            gp,
            gq,
        ),
        a: fxi(),
    }
}

/// The entry-to-exit vector of the ray segment.
pub open spec fn ray_delta(front: BoundsSample, back: BoundsSample) -> (int, int, int) {
    (
        back.pos.x as int - front.pos.x as int,
        back.pos.y as int - front.pos.y as int,
        back.pos.z as int - front.pos.z as int,
    )
}

/// The rounded length of the ray segment.
pub open spec fn ray_dist(front: BoundsSample, back: BoundsSample) -> int {
    let dd = ray_delta(front, back);
    spec_isqrt((dd.0 * dd.0 + dd.1 * dd.1 + dd.2 * dd.2) as nat) as int
}

/// The normalized marching direction; meaningful when the segment has a
/// nonzero length.
pub open spec fn ray_dir(front: BoundsSample, back: BoundsSample) -> (int, int, int) {
    let dd = ray_delta(front, back);
    let dist = ray_dist(front, back);
    (sdiv(dd.0 * fxi(), dist), sdiv(dd.1 * fxi(), dist), sdiv(dd.2 * fxi(), dist))
}

/// The per-step advance: the direction scaled by the step length.
pub open spec fn ray_step(front: BoundsSample, back: BoundsSample, dx: int) -> (int, int, int) {
    let dir = ray_dir(front, back);
    (sdiv(dir.0 * dx, fxi()), sdiv(dir.1 * dx, fxi()), sdiv(dir.2 * dx, fxi()))
}

/// The marching origin: the entry point, dithered by the per-pixel noise
/// when dithering is on.
pub open spec fn ray_start(
    front: BoundsSample,
    back: BoundsSample,
    dx: int,
    use_noise: bool,
    noise: int,
) -> (int, int, int) {
    let sv = ray_step(front, back, dx);
    let s0 = v3(front.pos);
    if use_noise {
        (
            s0.0 + sdiv(sv.0 * noise, fxi()),
            s0.1 + sdiv(sv.1 * noise, fxi()),
            s0.2 + sdiv(sv.2 * noise, fxi()),
        )
    } else {
        s0
    }
}

/// How many steps are marched: `floor(distance / dx) - 2`, a two-sample
/// safety margin against overshooting the exit face, clamped by the
/// configured ceiling and never negative.
pub open spec fn ray_iters(front: BoundsSample, back: BoundsSample, steps: int, dx: int) -> nat {
    let nsteps = ray_dist(front, back) / dx - 2;
    let iters = if steps <= nsteps {
        steps
    } else {
        nsteps
    };
    if iters <= 0 {
        0nat
    } else {
        iters as nat
    }
}

/// What the compositor produces for one pixel: the whole per-pixel
/// pipeline as one function of the snapshot, the ray bounds, the noise
/// value and the field.
pub open spec fn spec_composite(
    v: crate::spoints::SpointsView,
    p: CompositingParams,
    front: BoundsSample,
    back: BoundsSample,
    noise: int,
) -> ColorModel {
    if front.alpha == 0 {
        transparent_model()
    } else {
        let dist = ray_dist(front, back);
        if dist == 0 {
            transparent_model()
        } else {
            let itn = ray_iters(front, back, p.steps as int, p.dx as int);
            let dir = ray_dir(front, back);
            let sv = ray_step(front, back, p.dx as int);
            let s = ray_start(front, back, p.dx as int, p.use_noise, noise);
            match p.mode {
                Mode::MaximumIntensityProjection => {
                    let m = mip_max(v, s, sv, itn);
                    if m > 0 {
                        ColorModel {
                            r: spec_gamma(
                                sdiv(m * p.colour.x, fxi()),
                                p.gamma_num as nat,
                                p.gamma_den as nat,
                            ),
                            g: spec_gamma(
                                sdiv(m * p.colour.y, fxi()),
                                p.gamma_num as nat,
                                p.gamma_den as nat,
                            ),
                            b: spec_gamma(
                                sdiv(m * p.colour.z, fxi()),
                                p.gamma_num as nat,
                                p.gamma_den as nat,
                            ),
                            a: fxi(),
                        }
                    } else {
                        transparent_model()
                    }
                },
                Mode::IsosurfaceExtraction => {
                    let h = first_hit(v, s, sv, p.iso as int, 0, itn);
                    if h < 0 {
                        transparent_model()
                    } else {
                        spec_shade(v, p, dir, pos_at(s, sv, h), sample_at(v, s, sv, h))
                    }
                },
            }
        }
    }
}

/// The integer triple of a fixed-point vector.
pub open spec fn v3(f: Fx3) -> (int, int, int) {
    (f.x as int, f.y as int, f.z as int)
}

/// Multiplies two unit-range values with one truncating rescale.
fn mul_unit(a: i64, b: i64) -> (r: i64)
    requires
        0 <= a <= FX,
        0 <= b <= FX,
    ensures
        r == sdiv(a as int * b as int, fxi()),
        0 <= r <= FX,
{
    proof {
        assert(0 <= a * b <= 0x100000000i64) by (nonlinear_arith)
            requires
                0 <= a <= FX,
                0 <= b <= FX,
        ;
        vstd::arithmetic::div_mod::lemma_div_pos_is_pos(a as int * b as int, fxi());
        vstd::arithmetic::div_mod::lemma_div_is_ordered(a as int * b as int, fxi() * fxi(), fxi());
        assert(fxi() * fxi() / fxi() == fxi()) by (nonlinear_arith);
    }
    (a * b) / FX
}

/// The fixed-point dot product of two vectors within the signed unit
/// range.
fn dot3(a: &Fx3, b: &Fx3) -> (r: i64)
    requires
        a.in_sym(),
        b.in_sym(),
    ensures
        r == dot_fx(v3(*a), v3(*b)),
        -3 * FX <= r <= 3 * FX,
{
    proof {
        assert(-3 * fxi() * fxi() <= a.x * b.x + a.y * b.y + a.z * b.z <= 3 * fxi() * fxi()
            && -(fxi() * fxi()) <= a.x * b.x <= fxi() * fxi() && -(fxi() * fxi()) <= a.y * b.y
            <= fxi() * fxi() && -(fxi() * fxi()) <= a.z * b.z <= fxi() * fxi())
            by (nonlinear_arith)
            requires
                a.in_sym(),
                b.in_sym(),
        ;
        lemma_sdiv_bound(
            a.x as int * b.x as int + a.y as int * b.y as int + a.z as int * b.z as int,
            fxi(),
            3 * fxi() * fxi(),
        );
        assert((3 * fxi() * fxi()) / fxi() == 3 * fxi()) by (nonlinear_arith);
    }
    div_trunc(a.x * b.x + a.y * b.y + a.z * b.z, FX)
}

/// A component squared never exceeds the sum of squares, so no component's
/// magnitude exceeds the rounded length.
proof fn lemma_component_le_norm(a: int, sum: int, n: int)
    requires
        0 <= sum,
        a * a <= sum,
        n == spec_isqrt(sum as nat),
    ensures
        -n <= a <= n,
        0 <= n,
{
    lemma_isqrt_bracket(sum as nat);
    assert(-n <= a <= n) by (nonlinear_arith)
        requires
            (n + 1) * (n + 1) > a * a,
            n >= 0,
    ;
}

/// Normalizes a vector to the signed unit range; the zero vector stays
/// zero.
fn normalize3_exec(a: &Fx3) -> (r: Fx3)
    requires
        -3 * FX <= a.x <= 3 * FX,
        -3 * FX <= a.y <= 3 * FX,
        -3 * FX <= a.z <= 3 * FX,
    ensures
        (r.x as int, r.y as int, r.z as int) == normalize3(v3(*a)),
        r.in_sym(),
{
    proof {
        assert(0 <= a.x * a.x + a.y * a.y + a.z * a.z <= 27 * fxi() * fxi() && 0 <= a.x * a.x <= 9
            * fxi() * fxi() && 0 <= a.y * a.y <= 9 * fxi() * fxi() && 0 <= a.z * a.z <= 9 * fxi()
            * fxi()) by (nonlinear_arith)
            requires
                -3 * fxi() <= a.x <= 3 * fxi(),
                -3 * fxi() <= a.y <= 3 * fxi(),
                -3 * fxi() <= a.z <= 3 * fxi(),
        ;
    }
    let sum: i64 = a.x * a.x + a.y * a.y + a.z * a.z;
    let n = isqrt(sum);
    if n == 0 {
        Fx3 { x: 0, y: 0, z: 0 }
    } else {
        proof {
            let s = sum as int;
            assert(a.x * a.x <= s && a.y * a.y <= s && a.z * a.z <= s) by (nonlinear_arith)
                requires
                    s == a.x * a.x + a.y * a.y + a.z * a.z,
            ;
            lemma_component_le_norm(a.x as int, s, n as int);
            lemma_component_le_norm(a.y as int, s, n as int);
            lemma_component_le_norm(a.z as int, s, n as int);
            assert(-(n as int) * fxi() <= a.x * fxi() <= n * fxi() && -(n as int) * fxi() <= a.y
                * fxi() <= n * fxi() && -(n as int) * fxi() <= a.z * fxi() <= n * fxi())
                by (nonlinear_arith)
                requires
                    -(n as int) <= a.x <= n,
                    -(n as int) <= a.y <= n,
                    -(n as int) <= a.z <= n,
                    fxi() > 0,
            ;
            lemma_sdiv_bound(a.x as int * fxi(), n as int, n as int * fxi());
            lemma_sdiv_bound(a.y as int * fxi(), n as int, n as int * fxi());
            lemma_sdiv_bound(a.z as int * fxi(), n as int, n as int * fxi());
            assert((n as int * fxi()) / (n as int) == fxi()) by (nonlinear_arith)
                requires
                    n >= 1,
            ;
        }
        Fx3 {
            x: div_trunc(a.x * FX, n),
            y: div_trunc(a.y * FX, n),
            z: div_trunc(a.z * FX, n),
        }
    }
}

/// The signed fixed-point power of a signed unit-range base stays in the
/// signed unit range.
proof fn lemma_spow_range(b: int, e: nat)
    requires
        -fxi() <= b <= fxi(),
    ensures
        -fxi() <= spow(b, e) <= fxi(),
    decreases e,
{
    if e > 0 {
        lemma_spow_range(b, (e - 1) as nat);
        let p = spow(b, (e - 1) as nat);
        assert(-(fxi() * fxi()) <= p * b <= fxi() * fxi()) by (nonlinear_arith)
            requires
                -fxi() <= p <= fxi(),
                -fxi() <= b <= fxi(),
        ;
        lemma_sdiv_bound(p * b, fxi(), fxi() * fxi());
        assert((fxi() * fxi()) / fxi() == fxi()) by (nonlinear_arith);
    }
}

/// Computes the signed fixed-point power.
fn spow_exec(b: i64, e: u32) -> (r: i64)
    requires
        -FX <= b <= FX,
    ensures
        r == spow(b as int, e as nat),
        -FX <= r <= FX,
{
    let mut acc: i64 = FX;
    let mut i: u32 = 0;
    while i < e
        invariant
            0 <= i <= e,
            -FX <= b <= FX,
            acc == spow(b as int, i as nat),
            -FX <= acc <= FX,
        decreases e - i,
    {
        proof {
            lemma_spow_range(b as int, (i + 1) as nat);
            assert(-(fxi() * fxi()) <= acc * b <= fxi() * fxi()) by (nonlinear_arith)
                requires
                    -fxi() <= acc <= fxi(),
                    -fxi() <= b <= fxi(),
            ;
        }
        acc = div_trunc(acc * b, FX);
        i = i + 1;
    }
    acc
}

/// The fully transparent pixel.
pub fn transparent() -> (r: Rgba)
    ensures
        r@ == transparent_model(),
{
    Rgba { r: 0, g: 0, b: 0, a: 0 }
}

/// Shades one channel: ambient plus diffuse plus specular, clamped to the
/// unit range.
fn shade_channel(
    amb_str: i64,
    amb_c: i64,
    dif_str: i64,
    dif_c: i64,
    dif_w: i64,
    spe_str: i64,
    spe_c: i64,
    spe_w: i64,
) -> (r: i64)
    requires
        0 <= amb_str <= FX,
        0 <= amb_c <= FX,
        0 <= dif_str <= FX,
        0 <= dif_c <= FX,
        0 <= dif_w <= 3 * FX,
        0 <= spe_str <= FX,
        0 <= spe_c <= FX,
        -0x400000000000i64 <= spe_w <= 0x400000000000i64,
    ensures
        r == clampi(
            sdiv(amb_str as int * amb_c as int, fxi()) + sdiv(
                sdiv(dif_str as int * dif_c as int, fxi()) * dif_w,
                fxi(),
            ) + sdiv(sdiv(spe_str as int * spe_c as int, fxi()) * spe_w, fxi()),
            0,
            fxi(),
        ),
        0 <= r <= FX,
{
    let amb = mul_unit(amb_str, amb_c);
    let dif_scaled = mul_unit(dif_str, dif_c);
    proof {
        assert(0 <= dif_scaled * dif_w <= 3 * fxi() * fxi() * fxi()) by (nonlinear_arith)
            requires
                0 <= dif_scaled <= fxi(),
                0 <= dif_w <= 3 * fxi(),
        ;
    }
    let dif = div_trunc(dif_scaled * dif_w, FX);
    proof {
        lemma_sdiv_bound(dif_scaled as int * dif_w as int, fxi(), 3 * fxi() * fxi() * fxi());
        assert((3 * fxi() * fxi() * fxi()) / fxi() == 3 * fxi() * fxi()) by (nonlinear_arith);
    }
    let spe_scaled = mul_unit(spe_str, spe_c);
    proof {
        assert(-(0x400000000000i64 * fxi()) <= spe_scaled * spe_w <= 0x400000000000i64 * fxi())
            by (nonlinear_arith)
            requires
                0 <= spe_scaled <= fxi(),
                -0x400000000000i64 <= spe_w <= 0x400000000000i64,
        ;
    }
    let spe = div_trunc(spe_scaled * spe_w, FX);
    proof {
        lemma_sdiv_bound(
            spe_scaled as int * spe_w as int,
            fxi(),
            0x400000000000i64 * fxi(),
        );
        assert((0x400000000000i64 * fxi()) / fxi() == 0x400000000000i64) by (nonlinear_arith);
    }
    let sum = amb + dif + spe;
    if sum < 0 {
        0
    } else if sum > FX {
        FX
    } else {
        sum
    }
}

/// Composites one output pixel.
///
/// When the front-face alpha is zero the ray misses the volume and the
/// pixel is fully transparent, whatever the other inputs.  A zero-length
/// ray segment likewise degrades to a transparent pixel.  Otherwise the
/// compositor marches from the (optionally dithered) entry point towards
/// the exit point, `floor(distance / dx) - 2` steps but no more than the
/// configured ceiling, and composites under the active policy.  The result
/// is exactly [`spec_composite`] of the inputs.
#[verifier::rlimit(100)]
#[verifier::loop_isolation(false)]
pub fn composite_pixel(
    vol: &crate::spoints::StructuredPoints,
    params: &CompositingParams,
    front: &BoundsSample,
    back: &BoundsSample,
    noise: i64,
) -> (out: Rgba)
    requires
        vol@.wf(),
        params.wf(),
        front.wf(),
        back.wf(),
        0 <= noise < FX,
    ensures
        out@ == spec_composite(vol@, *params, *front, *back, noise as int),
{
    if front.alpha == 0 {
        return transparent();
    }
    let ddx = back.pos.x - front.pos.x;
    let ddy = back.pos.y - front.pos.y;
    let ddz = back.pos.z - front.pos.z;
    proof {
        assert(0 <= ddx * ddx + ddy * ddy + ddz * ddz <= 3 * fxi() * fxi() && 0 <= ddx * ddx
            <= fxi() * fxi() && 0 <= ddy * ddy <= fxi() * fxi() && 0 <= ddz * ddz <= fxi() * fxi())
            by (nonlinear_arith)
            requires
                -fxi() <= ddx <= fxi(),
                -fxi() <= ddy <= fxi(),
                -fxi() <= ddz <= fxi(),
        ;
    }
    let sum: i64 = ddx * ddx + ddy * ddy + ddz * ddz;
    let dist = isqrt(sum);
    if dist == 0 {
        return transparent();
    }
    proof {
        assert(dist <= 2 * fxi()) by (nonlinear_arith)
            requires
                dist >= 0,
                dist * dist <= 3 * fxi() * fxi(),
        ;
        vstd::arithmetic::div_mod::lemma_fundamental_div_mod(dist as int, params.dx as int);
        assert((dist as int) / (params.dx as int) <= dist as int) by (nonlinear_arith)
            requires
                dist >= 0,
                params.dx >= 1,
                dist as int == (dist as int / (params.dx as int)) * (params.dx as int) + (
                dist as int % (params.dx as int)),
                dist as int % (params.dx as int) >= 0,
        ;
        vstd::arithmetic::div_mod::lemma_div_pos_is_pos(dist as int, params.dx as int);
    }
    let nsteps: i64 = dist / params.dx - 2;
    let steps64: i64 = params.steps as i64;
    let iters: i64 = if steps64 <= nsteps {
        steps64
    } else {
        nsteps
    };
    let it: i64 = if iters < 0 {
        0
    } else {
        iters
    };
    proof {
        lemma_component_le_norm(ddx as int, sum as int, dist as int);
        lemma_component_le_norm(ddy as int, sum as int, dist as int);
        lemma_component_le_norm(ddz as int, sum as int, dist as int);
        assert(-(dist as int) * fxi() <= ddx * fxi() <= dist * fxi() && -(dist as int) * fxi()
            <= ddy * fxi() <= dist * fxi() && -(dist as int) * fxi() <= ddz * fxi() <= dist
            * fxi()) by (nonlinear_arith)
            requires
                -(dist as int) <= ddx <= dist,
                -(dist as int) <= ddy <= dist,
                -(dist as int) <= ddz <= dist,
                fxi() > 0,
        ;
        lemma_sdiv_bound(ddx as int * fxi(), dist as int, dist as int * fxi());
        lemma_sdiv_bound(ddy as int * fxi(), dist as int, dist as int * fxi());
        lemma_sdiv_bound(ddz as int * fxi(), dist as int, dist as int * fxi());
        assert((dist as int * fxi()) / (dist as int) == fxi()) by (nonlinear_arith)
            requires
                dist >= 1,
        ;
    }
    let dirx = div_trunc(ddx * FX, dist);
    let diry = div_trunc(ddy * FX, dist);
    let dirz = div_trunc(ddz * FX, dist);
    proof {
        assert(-(fxi() * fxi()) <= dirx * params.dx <= fxi() * fxi() && -(fxi() * fxi()) <= diry
            * params.dx <= fxi() * fxi() && -(fxi() * fxi()) <= dirz * params.dx <= fxi() * fxi()
            && -(fxi() * (params.dx as int)) <= dirx * params.dx <= fxi() * (params.dx as int) && -(
        fxi() * (params.dx as int)) <= diry * params.dx <= fxi() * (params.dx as int) && -(fxi() * (
        params.dx as int)) <= dirz * params.dx <= fxi() * (params.dx as int)) by (nonlinear_arith)
            requires
                -fxi() <= dirx <= fxi(),
                -fxi() <= diry <= fxi(),
                -fxi() <= dirz <= fxi(),
                1 <= (params.dx as int) <= fxi(),
        ;
        lemma_sdiv_bound(dirx as int * params.dx as int, fxi(), fxi() * (params.dx as int));
        lemma_sdiv_bound(diry as int * params.dx as int, fxi(), fxi() * (params.dx as int));
        lemma_sdiv_bound(dirz as int * params.dx as int, fxi(), fxi() * (params.dx as int));
        assert((fxi() * (params.dx as int)) / fxi() == params.dx) by (nonlinear_arith)
            requires
                params.dx >= 1,
        ;
    }
    let svx = div_trunc(dirx * params.dx, FX);
    let svy = div_trunc(diry * params.dx, FX);
    let svz = div_trunc(dirz * params.dx, FX);
    proof {
        assert(-(params.dx as int) * fxi() <= svx * noise <= (params.dx as int) * fxi() && -(
        params.dx as int) * fxi() <= svy * noise <= (params.dx as int) * fxi() && -(
        params.dx as int) * fxi() <= svz * noise <= (params.dx as int) * fxi())
            by (nonlinear_arith)
            requires
                -(params.dx as int) <= svx <= params.dx,
                -(params.dx as int) <= svy <= params.dx,
                -(params.dx as int) <= svz <= params.dx,
                0 <= noise < fxi(),
        ;
        lemma_sdiv_bound(svx as int * noise as int, fxi(), (params.dx as int) * fxi());
        lemma_sdiv_bound(svy as int * noise as int, fxi(), (params.dx as int) * fxi());
        lemma_sdiv_bound(svz as int * noise as int, fxi(), (params.dx as int) * fxi());
        assert(((params.dx as int) * fxi()) / fxi() == params.dx) by (nonlinear_arith)
            requires
                params.dx >= 1,
        ;
    }
    let sx: i64;
    let sy: i64;
    let sz: i64;
    if params.use_noise {
        sx = front.pos.x + div_trunc(svx * noise, FX);
        sy = front.pos.y + div_trunc(svy * noise, FX);
        sz = front.pos.z + div_trunc(svz * noise, FX);
    } else {
        sx = front.pos.x;
        sy = front.pos.y;
        sz = front.pos.z;
    }
    let ghost s = (sx as int, sy as int, sz as int);
    let ghost d = (svx as int, svy as int, svz as int);
    let ghost itn: nat = it as nat;
    match params.mode {
        Mode::MaximumIntensityProjection => {
            let mut best: i64 = -FX;
            let mut rx = sx;
            let mut ry = sy;
            let mut rz = sz;
            let mut i: i64 = 0;
            while i < it
                invariant
                    0 <= i <= it <= 1000000,
                    vol@.wf(),
                    s == (sx as int, sy as int, sz as int),
                    d == (svx as int, svy as int, svz as int),
                    -2 * FX <= sx <= 2 * FX,
                    -2 * FX <= sy <= 2 * FX,
                    -2 * FX <= sz <= 2 * FX,
                    -FX <= svx <= FX,
                    -FX <= svy <= FX,
                    -FX <= svz <= FX,
                    rx == s.0 + i * d.0,
                    ry == s.1 + i * d.1,
                    rz == s.2 + i * d.2,
                    best == mip_max(vol@, s, d, i as nat),
                    -FX <= best <= FX,
                decreases it - i,
            {
                proof {
                    assert(-(1000001i64 * 65536) <= (i + 1) * d.0 <= 1000001i64 * 65536 && -(
                    1000001i64 * 65536) <= (i + 1) * d.1 <= 1000001i64 * 65536 && -(1000001i64
                        * 65536) <= (i + 1) * d.2 <= 1000001i64 * 65536 && (i + 1) * d.0 == i * d.0
                        + d.0 && (i + 1) * d.1 == i * d.1 + d.1 && (i + 1) * d.2 == i * d.2 + d.2)
                        by (nonlinear_arith)
                        requires
                            0 <= i + 1 <= 1000001,
                            -65536 <= d.0 <= 65536,
                            -65536 <= d.1 <= 65536,
                            -65536 <= d.2 <= 65536,
                    ;
                }
                rx = rx + svx;
                ry = ry + svy;
                rz = rz + svz;
                let val = sample_volume(vol, &Fx3 { x: rx, y: ry, z: rz });
                proof {
                    assert((rx as int, ry as int, rz as int) == pos_at(s, d, i as int));
                    assert(mip_max(vol@, s, d, (i + 1) as nat) == if sample_at(vol@, s, d, i as int)
                        > mip_max(vol@, s, d, i as nat) {
                        sample_at(vol@, s, d, i as int)
                    } else {
                        mip_max(vol@, s, d, i as nat)
                    });
                }
                if val > best {
                    best = val;
                }
                i = i + 1;
            }
            if best > 0 {
                let cr = mul_unit(best, params.colour.x);
                let cg = mul_unit(best, params.colour.y);
                let cb = mul_unit(best, params.colour.z);
                let rr = gamma_correct(cr, params.gamma_num, params.gamma_den);
                let rg = gamma_correct(cg, params.gamma_num, params.gamma_den);
                let rb = gamma_correct(cb, params.gamma_num, params.gamma_den);
                Rgba { r: rr, g: rg, b: rb, a: FX }
            } else {
                transparent()
            }
        },
        Mode::IsosurfaceExtraction => {
            let mut rx = sx;
            let mut ry = sy;
            let mut rz = sz;
            let mut i: i64 = 0;
            while i < it
                invariant
                    0 <= i <= it <= 1000000,
                    vol@.wf(),
                    params.wf(),
                    s == (sx as int, sy as int, sz as int),
                    d == (svx as int, svy as int, svz as int),
                    itn == it as nat,
                    -2 * FX <= sx <= 2 * FX,
                    -2 * FX <= sy <= 2 * FX,
                    -2 * FX <= sz <= 2 * FX,
                    -FX <= svx <= FX,
                    -FX <= svy <= FX,
                    -FX <= svz <= FX,
                    -FX <= dirx <= FX,
                    -FX <= diry <= FX,
                    -FX <= dirz <= FX,
                    rx == s.0 + i * d.0,
                    ry == s.1 + i * d.1,
                    rz == s.2 + i * d.2,
                    first_hit(vol@, s, d, params.iso as int, 0, itn) == first_hit(
                        vol@,
                        s,
                        d,
                        params.iso as int,
                        i as nat,
                        itn,
                    ),
                decreases it - i,
            {
                proof {
                    assert(-(1000001i64 * 65536) <= (i + 1) * d.0 <= 1000001i64 * 65536 && -(
                    1000001i64 * 65536) <= (i + 1) * d.1 <= 1000001i64 * 65536 && -(1000001i64
                        * 65536) <= (i + 1) * d.2 <= 1000001i64 * 65536 && (i + 1) * d.0 == i * d.0
                        + d.0 && (i + 1) * d.1 == i * d.1 + d.1 && (i + 1) * d.2 == i * d.2 + d.2)
                        by (nonlinear_arith)
                        requires
                            0 <= i + 1 <= 1000001,
                            -65536 <= d.0 <= 65536,
                            -65536 <= d.1 <= 65536,
                            -65536 <= d.2 <= 65536,
                    ;
                }
                rx = rx + svx;
                ry = ry + svy;
                rz = rz + svz;
                let val = sample_volume(vol, &Fx3 { x: rx, y: ry, z: rz });
                proof {
                    assert((rx as int, ry as int, rz as int) == pos_at(s, d, i as int));
                }
                if val > params.iso {
                    let dr = params.grad_step;
                    let px = sample_volume(vol, &Fx3 { x: rx + dr, y: ry, z: rz });
                    let py = sample_volume(vol, &Fx3 { x: rx, y: ry + dr, z: rz });
                    let pz = sample_volume(vol, &Fx3 { x: rx, y: ry, z: rz + dr });
                    let g = Fx3 { x: px - val, y: py - val, z: pz - val };
                    let nrm = normalize3_exec(&g);
                    let l = params.shading.light;
                    let ndl = dot3(&nrm, &l);
                    let dif_w: i64 = if ndl > 0 {
                        ndl
                    } else {
                        0
                    };
                    let hv = Fx3 { x: l.x + dirx, y: l.y + diry, z: l.z + dirz };
                    let hn = normalize3_exec(&hv);
                    let ndh_raw = dot3(&nrm, &hn);
                    let ndh: i64 = if ndh_raw < -FX {
                        -FX
                    } else if ndh_raw > FX {
                        FX
                    } else {
                        ndh_raw
                    };
                    let pw = spow_exec(ndh, params.shading.shininess);
                    let shin64 = params.shading.shininess as i64;
                    proof {
                        assert(-(65536i64 * 4294967303) <= pw * (shin64 + 8) <= 65536i64
                            * 4294967303) by (nonlinear_arith)
                            requires
                                -65536 <= pw <= 65536,
                                8 <= shin64 + 8 <= 4294967303,
                        ;
                        lemma_sdiv_bound(
                            pw as int * (shin64 as int + 8),
                            8,
                            65536i64 * 4294967303,
                        );
                        assert((65536i64 * 4294967303) / 8 <= 0x400000000000i64)
                            by (nonlinear_arith);
                    }
                    let spe_w = div_trunc(pw * (shin64 + 8), 8);
                    let sh = params.shading;
                    let cr = shade_channel(
                        sh.amb_str,
                        sh.ambient.x,
                        sh.dif_str,
                        sh.diffuse.x,
                        dif_w,
                        sh.spe_str,
                        sh.specular.x,
                        spe_w,
                    );
                    let cg = shade_channel(
                        sh.amb_str,
                        sh.ambient.y,
                        sh.dif_str,
                        sh.diffuse.y,
                        dif_w,
                        sh.spe_str,
                        sh.specular.y,
                        spe_w,
                    );
                    let cb = shade_channel(
                        sh.amb_str,
                        sh.ambient.z,
                        sh.dif_str,
                        sh.diffuse.z,
                        dif_w,
                        sh.spe_str,
                        sh.specular.z,
                        spe_w,
                    );
                    let rr = gamma_correct(cr, params.gamma_num, params.gamma_den);
                    let rg = gamma_correct(cg, params.gamma_num, params.gamma_den);
                    let rb = gamma_correct(cb, params.gamma_num, params.gamma_den);
                    proof {
                        assert(first_hit(vol@, s, d, params.iso as int, i as nat, itn)
                            == i as int);
                    }
                    return Rgba { r: rr, g: rg, b: rb, a: FX };
                }
                proof {
                    assert(first_hit(vol@, s, d, params.iso as int, i as nat, itn) == first_hit(
                        vol@,
                        s,
                        d,
                        params.iso as int,
                        (i + 1) as nat,
                        itn,
                    ));
                }
                i = i + 1;
            }
            transparent()
        },
    }
}

/// A pixel with zero front-face alpha composites to a fully transparent
/// result, whatever the volume, the parameters, the exit point or the
/// noise: no ray intersects the volume there.
pub proof fn lemma_zero_alpha_transparent(
    v: crate::spoints::SpointsView,
    p: CompositingParams,
    front: BoundsSample,
    back: BoundsSample,
    noise: int,
)
    requires
        front.alpha == 0,
    ensures
        spec_composite(v, p, front, back, noise) == transparent_model(),
{
}

/// No marched maximum exceeds the greatest value the field holds.
proof fn lemma_mip_max_le(
    v: crate::spoints::SpointsView,
    s: (int, int, int),
    d: (int, int, int),
    iters: nat,
    m: int,
)
    requires
        v.wf(),
        0 <= m,
        forall|i: int| 0 <= i < v.data.len() ==> byte_val(#[trigger] v.data[i]) <= m,
    ensures
        mip_max(v, s, d, iters) <= m,
    decreases iters,
{
    if iters > 0 {
        lemma_mip_max_le(v, s, d, (iters - 1) as nat, m);
        let pos = pos_at(s, d, iters as int - 1);
        lemma_sample_bound(v, pos.0, pos.1, pos.2, m);
    }
}

/// In maximum-intensity mode, a field that is zero everywhere composites
/// to a fully transparent pixel, for every ray segment, noise value and
/// parameter snapshot: every marched sample is zero, so no maximum ever
/// exceeds zero.
pub proof fn lemma_mip_zero_field_transparent(
    v: crate::spoints::SpointsView,
    p: CompositingParams,
    front: BoundsSample,
    back: BoundsSample,
    noise: int,
)
    requires
        v.wf(),
        p.mode == Mode::MaximumIntensityProjection,
        forall|i: int| 0 <= i < v.data.len() ==> #[trigger] v.data[i] == 0,
    ensures
        spec_composite(v, p, front, back, noise) == transparent_model(),
{
    assert forall|i: int| 0 <= i < v.data.len() implies byte_val(#[trigger] v.data[i]) <= 0 by {
        assert(v.data[i] == 0);
        assert(byte_val(0) == 0);
    }
    if front.alpha != 0 && ray_dist(front, back) != 0 {
        let itn = ray_iters(front, back, p.steps as int, p.dx as int);
        let sv = ray_step(front, back, p.dx as int);
        let s = ray_start(front, back, p.dx as int, p.use_noise, noise);
        lemma_mip_max_le(v, s, sv, itn, 0);
    }
}

/// In maximum-intensity mode, when some marched sample is positive the
/// pixel is fully opaque and each channel is the gamma-corrected product
/// of the brightest marched sample with the projection colour.
pub proof fn lemma_mip_bright_pixel(
    v: crate::spoints::SpointsView,
    p: CompositingParams,
    front: BoundsSample,
    back: BoundsSample,
    noise: int,
)
    requires
        p.mode == Mode::MaximumIntensityProjection,
        front.alpha != 0,
        ray_dist(front, back) != 0,
        mip_max(
            v,
            ray_start(front, back, p.dx as int, p.use_noise, noise),
            ray_step(front, back, p.dx as int),
            ray_iters(front, back, p.steps as int, p.dx as int),
        ) > 0,
    ensures
        ({
            let m = mip_max(
                v,
                ray_start(front, back, p.dx as int, p.use_noise, noise),
                ray_step(front, back, p.dx as int),
                ray_iters(front, back, p.steps as int, p.dx as int),
            );
            spec_composite(v, p, front, back, noise) == ColorModel {
                r: spec_gamma(
                    sdiv(m * p.colour.x, fxi()),
                    p.gamma_num as nat,
                    p.gamma_den as nat,
                ),
                g: spec_gamma(
                    sdiv(m * p.colour.y, fxi()),
                    p.gamma_num as nat,
                    p.gamma_den as nat,
                ),
                b: spec_gamma(
                    sdiv(m * p.colour.z, fxi()),
                    p.gamma_num as nat,
                    p.gamma_den as nat,
                ),
                a: fxi(),
            }
        }),
{
}

/// A march over a field that never exceeds the threshold finds no hit.
proof fn lemma_no_hit(
    v: crate::spoints::SpointsView,
    s: (int, int, int),
    d: (int, int, int),
    iso: int,
    j: nat,
    iters: nat,
)
    requires
        v.wf(),
        0 <= iso,
        forall|i: int| 0 <= i < v.data.len() ==> byte_val(#[trigger] v.data[i]) <= iso,
    ensures
        first_hit(v, s, d, iso, j, iters) == -1,
    decreases iters - j,
{
    if j < iters {
        let pos = pos_at(s, d, j as int);
        lemma_sample_bound(v, pos.0, pos.1, pos.2, iso);
        lemma_no_hit(v, s, d, iso, (j + 1) as nat, iters);
    }
}

/// In isosurface mode, a field whose every sample value stays at or below
/// the threshold composites to a fully transparent pixel for every ray
/// segment, noise value and parameter snapshot: interpolation never
/// exceeds the values it interpolates, so no marched sample can cross the
/// threshold.
pub proof fn lemma_iso_below_threshold_transparent(
    v: crate::spoints::SpointsView,
    p: CompositingParams,
    front: BoundsSample,
    back: BoundsSample,
    noise: int,
)
    requires
        v.wf(),
        p.mode == Mode::IsosurfaceExtraction,
        0 <= p.iso,
        forall|i: int| 0 <= i < v.data.len() ==> byte_val(#[trigger] v.data[i]) <= p.iso,
    ensures
        spec_composite(v, p, front, back, noise) == transparent_model(),
{
    if front.alpha != 0 && ray_dist(front, back) != 0 {
        let itn = ray_iters(front, back, p.steps as int, p.dx as int);
        let sv = ray_step(front, back, p.dx as int);
        let s = ray_start(front, back, p.dx as int, p.use_noise, noise);
        lemma_no_hit(v, s, sv, p.iso as int, 0, itn);
    }
}

} // verus!
