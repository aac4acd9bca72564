//! Fixed-point 2D geometry: squared distances, integer square roots, and the
//! normalized steering displacements the engine moves agents by.
//!
//! Coordinates are plain `i64` values in whatever unit the embedder picks.
//! All geometry functions accept coordinates up to `GEOM_LIMIT` in magnitude,
//! a bound generous enough that squared distances never overflow.

use vstd::arithmetic::div_mod::{lemma_div_is_ordered, lemma_div_multiples_vanish,
    lemma_div_non_zero, lemma_div_pos_is_pos};
use vstd::arithmetic::mul::lemma_mul_inequality;
use vstd::prelude::*;

verus! {

/// Largest coordinate magnitude the geometry functions accept.
pub const GEOM_LIMIT: i64 = 0x100_0000;

/// Largest arena half-extent a simulation may be configured with. Leaves
/// room under `GEOM_LIMIT` for a tick's worth of uncontained movement.
pub const COORD_LIMIT: i64 = 0x20_0000;

/// Largest steering step (and velocity component) a simulation may use.
pub const SPEED_LIMIT: i64 = 0x10_0000;

/// A 2D point or displacement in fixed-point coordinates.
#[derive(Clone, Copy, Debug, PartialEq, Eq, Structural)]
pub struct Vec2 {
    pub x: i64,
    pub y: i64,
}

pub open spec fn abs_i(x: int) -> int {
    if x >= 0 {
        x
    } else {
        -x
    }
}

impl Vec2 {
    /// Both components lie within `limit` in magnitude.
    pub open spec fn in_range(self, limit: int) -> bool {
        -limit <= self.x <= limit && -limit <= self.y <= limit
    }
}

/// The squared Euclidean distance between two points.
pub open spec fn dist_sq(a: Vec2, b: Vec2) -> int {
    (a.x - b.x) * (a.x - b.x) + (a.y - b.y) * (a.y - b.y)
}

/// Computes the squared distance between two in-range points.
pub fn dist_sq_val(a: Vec2, b: Vec2) -> (r: i64)
    requires
        a.in_range(GEOM_LIMIT as int),
        b.in_range(GEOM_LIMIT as int),
    ensures
        r == dist_sq(a, b),
        0 <= r <= 0x8_0000_0000_0000,
{
    let dx = a.x - b.x;
    let dy = a.y - b.y;
    proof {
        assert(dx * dx <= 0x4_0000_0000_0000 && dx * dx >= 0) by (nonlinear_arith)
            requires
                -0x200_0000 <= dx <= 0x200_0000,
        ;
        assert(dy * dy <= 0x4_0000_0000_0000 && dy * dy >= 0) by (nonlinear_arith)
            requires
                -0x200_0000 <= dy <= 0x200_0000,
        ;
    }
    dx * dx + dy * dy
}

/// `r` is the integer square root of `n`: the largest integer whose square
/// does not exceed `n`.
pub open spec fn is_sqrt_of(r: int, n: int) -> bool {
    0 <= r && r * r <= n && n < (r + 1) * (r + 1)
}

/// The integer square root of `n`, as a total spec function. Meaningful for
/// `n >= 0`, where exactly one integer satisfies `is_sqrt_of`.
pub closed spec fn sqrt_floor(n: int) -> int {
    choose|r: int| is_sqrt_of(r, n)
}

/// At most one integer is the square root of `n`.
pub proof fn lemma_sqrt_of_unique(a: int, b: int, n: int)
    requires
        is_sqrt_of(a, n),
        is_sqrt_of(b, n),
    ensures
        a == b,
{
    if a < b {
        assert((a + 1) * (a + 1) <= b * b) by (nonlinear_arith)
            requires
                0 <= a + 1 <= b,
        ;
    }
    if b < a {
        assert((b + 1) * (b + 1) <= a * a) by (nonlinear_arith)
            requires
                0 <= b + 1 <= a,
        ;
    }
}

/// A witness that `r` squares below `n` pins `sqrt_floor(n)` to `r`.
pub proof fn lemma_sqrt_floor(r: int, n: int)
    requires
        is_sqrt_of(r, n),
    ensures
        sqrt_floor(n) == r,
{
    let c = sqrt_floor(n);
    assert(is_sqrt_of(c, n));
    lemma_sqrt_of_unique(r, c, n);
}

/// Computes the integer square root by binary search.
pub fn isqrt(n: i64) -> (r: i64)
    requires
        0 <= n < 0x4000_0000_0000_0000,
    ensures
        is_sqrt_of(r as int, n as int),
        r == sqrt_floor(n as int),
        0 <= r <= 0x8000_0000,
{
    let mut lo: i64 = 0;
    let mut hi: i64 = 0x8000_0000;
    while lo < hi
        invariant
            0 <= lo <= hi <= 0x8000_0000,
            lo * lo <= n,
            n < (hi + 1) * (hi + 1),
        decreases hi - lo,
    {
        let mid = lo + (hi - lo + 1) / 2;
        proof {
            assert(lo < mid <= hi);
            assert(mid * mid <= 0x4000_0000_0000_0000) by (nonlinear_arith)
                requires
                    0 <= mid <= 0x8000_0000,
            ;
        }
        if mid * mid <= n {
            lo = mid;
        } else {
            hi = mid - 1;
        }
    }
    proof {
        lemma_sqrt_floor(lo as int, n as int);
    }
    lo
}

/// One component of a displacement of length `step` in the direction of
/// `delta`, for a direction vector of length `dist`: the exact integer value
/// of `delta * step / dist`, with the division truncated toward zero.
pub open spec fn scale_toward(delta: int, step: int, dist: int) -> int {
    if delta >= 0 {
        delta * step / dist
    } else {
        -((-delta) * step / dist)
    }
}

/// The displacement that moves a point at `from` a distance of (at most)
/// `step` toward `to`: the difference vector scaled by `step` over its own
/// length. When the two points coincide the direction is undefined and the
/// displacement is zero.
pub open spec fn toward_disp(from: Vec2, to: Vec2, step: int) -> (int, int) {
    let d = sqrt_floor(dist_sq(from, to));
    if d <= 0 {
        (0, 0)
    } else {
        (scale_toward(to.x - from.x, step, d), scale_toward(to.y - from.y, step, d))
    }
}

/// Computes `scale_toward` for a component no longer than the direction
/// vector itself; the result then never exceeds `step` in magnitude.
fn scale_component(delta: i64, step: i64, dist: i64) -> (r: i64)
    requires
        -0x200_0000 <= delta <= 0x200_0000,
        abs_i(delta as int) <= dist,
        0 <= step <= SPEED_LIMIT,
        0 < dist,
    ensures
        r == scale_toward(delta as int, step as int, dist as int),
        -step <= r <= step,
{
    let mag: i64 = if delta >= 0 {
        delta
    } else {
        -delta
    };
    proof {
        assert(mag * step <= dist * step) by {
            lemma_mul_inequality(mag as int, dist as int, step as int);
        }
        assert(mag * step <= 0x200_0000 * 0x10_0000) by {
            lemma_mul_inequality(mag as int, 0x200_0000, step as int);
            lemma_mul_inequality(step as int, 0x10_0000, 0x200_0000);
        }
        assert(mag * step >= 0) by (nonlinear_arith)
            requires
                mag >= 0 && step >= 0,
        ;
        lemma_div_pos_is_pos(mag as int * step as int, dist as int);
        lemma_div_is_ordered(mag as int * step as int, dist as int * step as int, dist as int);
        lemma_div_multiples_vanish(step as int, dist as int);
        assert(dist as int * step as int == step as int * dist as int) by (nonlinear_arith);
        assert(mag as int * step as int / dist as int <= step as int);
    }
    let q = (mag * step) / dist;
    if delta >= 0 {
        q
    } else {
        -q
    }
}

/// Every nonnegative integer has a square root: `sqrt_floor` is a genuine
/// witness, not an arbitrary value.
pub proof fn lemma_sqrt_exists(n: int)
    requires
        0 <= n,
    ensures
        is_sqrt_of(sqrt_floor(n), n),
    decreases n,
{
    if n == 0 {
        assert(is_sqrt_of(0, 0));
    } else {
        lemma_sqrt_exists(n - 1);
        let r = sqrt_floor(n - 1);
        if (r + 1) * (r + 1) <= n {
            assert(is_sqrt_of(r + 1, n)) by (nonlinear_arith)
                requires
                    is_sqrt_of(r, n - 1) && (r + 1) * (r + 1) <= n,
            ;
        } else {
            assert(is_sqrt_of(r, n));
        }
    }
}

/// A pursuit or flight step of at least 2, toward a point at positive
/// distance, always makes progress: the displacement stays within `step`
/// per axis, and its dot product with the direction vector is strictly
/// positive — truncation can zero one component, never both.
pub proof fn lemma_toward_disp_advances(from: Vec2, to: Vec2, step: int)
    requires
        from.in_range(GEOM_LIMIT as int),
        to.in_range(GEOM_LIMIT as int),
        2 <= step <= SPEED_LIMIT,
        dist_sq(from, to) > 0,
    ensures
        ({
            let d = toward_disp(from, to, step);
            let dx = to.x - from.x;
            let dy = to.y - from.y;
            &&& -step <= d.0 <= step
            &&& -step <= d.1 <= step
            &&& d.0 * dx + d.1 * dy > 0
        }),
{
    let n = dist_sq(from, to);
    let dx = to.x - from.x;
    let dy = to.y - from.y;
    assert(dx * dx == (from.x - to.x) * (from.x - to.x)) by (nonlinear_arith)
        requires
            dx == to.x - from.x,
    ;
    assert(dy * dy == (from.y - to.y) * (from.y - to.y)) by (nonlinear_arith)
        requires
            dy == to.y - from.y,
    ;
    assert(n == dx * dx + dy * dy);
    lemma_sqrt_exists(n);
    let dd = sqrt_floor(n);
    assert(dd >= 1) by (nonlinear_arith)
        requires
            is_sqrt_of(dd, n) && n >= 1,
    ;
    assert(dx * dx <= n && dy * dy <= n) by (nonlinear_arith)
        requires
            n == dx * dx + dy * dy,
    ;
    assert(abs_i(dx) <= dd && abs_i(dy) <= dd) by (nonlinear_arith)
        requires
            dx * dx <= n && dy * dy <= n && 0 <= dd && n < (dd + 1) * (dd + 1),
    ;
    lemma_scale_bounded_and_signed(dx, step, dd);
    lemma_scale_bounded_and_signed(dy, step, dd);
    let c0 = scale_toward(dx, step, dd);
    let c1 = scale_toward(dy, step, dd);
    if c0 == 0 && c1 == 0 {
        lemma_scale_zero_means_small(dx, step, dd);
        lemma_scale_zero_means_small(dy, step, dd);
        assert(false) by (nonlinear_arith)
            requires
                abs_i(dx) * step < dd && abs_i(dy) * step < dd && 2 <= step && 0 < dd && n == dx
                    * dx + dy * dy && dd * dd <= n,
        ;
    }
    assert(c0 * dx + c1 * dy > 0) by (nonlinear_arith)
        requires
            c0 * dx >= 0 && c1 * dy >= 0 && !(c0 == 0 && c1 == 0) && (c0 != 0 ==> c0 * dx >= 1)
                && (c1 != 0 ==> c1 * dy >= 1),
    ;
}

/// `scale_toward` keeps the sign of `delta`, never exceeds `step`, and its
/// product with `delta` is nonnegative — strictly positive when nonzero.
proof fn lemma_scale_bounded_and_signed(delta: int, step: int, dist: int)
    requires
        abs_i(delta) <= dist,
        0 <= step,
        0 < dist,
    ensures
        -step <= scale_toward(delta, step, dist) <= step,
        scale_toward(delta, step, dist) * delta >= 0,
        scale_toward(delta, step, dist) != 0 ==> scale_toward(delta, step, dist) * delta >= 1,
{
    let mag = abs_i(delta);
    assert(mag * step >= 0) by (nonlinear_arith)
        requires
            mag >= 0 && step >= 0,
    ;
    lemma_div_pos_is_pos(mag * step, dist);
    assert(mag * step <= dist * step) by {
        lemma_mul_inequality(mag, dist, step);
    }
    lemma_div_is_ordered(mag * step, dist * step, dist);
    lemma_div_multiples_vanish(step, dist);
    assert(dist * step == step * dist) by (nonlinear_arith);
    let q = mag * step / dist;
    assert(0 <= q <= step);
    if delta >= 0 {
        assert(scale_toward(delta, step, dist) == q);
        if delta == 0 {
            assert(mag == 0);
            assert(mag * step == 0) by (nonlinear_arith)
                requires
                    mag == 0,
            ;
            vstd::arithmetic::div_mod::lemma_div_of0(dist);
            assert(q == 0);
        } else {
            assert(q * delta >= 0) by (nonlinear_arith)
                requires
                    q >= 0 && delta >= 1,
            ;
            if q != 0 {
                assert(q * delta >= 1) by (nonlinear_arith)
                    requires
                        q >= 1 && delta >= 1,
                ;
            }
        }
    } else {
        assert(scale_toward(delta, step, dist) == -q);
        assert((-q) * delta >= 0 && (-q != 0 ==> (-q) * delta >= 1)) by (nonlinear_arith)
            requires
                q >= 0 && delta <= -1,
        ;
    }
}

/// A component that truncates to zero was short of one `dist` in the
/// numerator.
proof fn lemma_scale_zero_means_small(delta: int, step: int, dist: int)
    requires
        0 <= step,
        0 < dist,
        scale_toward(delta, step, dist) == 0,
    ensures
        abs_i(delta) * step < dist,
{
    let mag = abs_i(delta);
    assert(mag * step >= 0) by (nonlinear_arith)
        requires
            mag >= 0 && step >= 0,
    ;
    if mag * step >= dist {
        lemma_div_non_zero(mag * step, dist);
    }
}

/// Computes the displacement of length at most `step` from `from` toward
/// `to`; zero when the points coincide.
pub fn step_toward(from: Vec2, to: Vec2, step: i64) -> (d: Vec2)
    requires
        from.in_range(GEOM_LIMIT as int),
        to.in_range(GEOM_LIMIT as int),
        0 <= step <= SPEED_LIMIT,
    ensures
        d.x == toward_disp(from, to, step as int).0,
        d.y == toward_disp(from, to, step as int).1,
        -step <= d.x <= step,
        -step <= d.y <= step,
{
    let n = dist_sq_val(from, to);
    let dist = isqrt(n);
    if dist == 0 {
        return Vec2 { x: 0, y: 0 };
    }
    let dx = to.x - from.x;
    let dy = to.y - from.y;
    proof {
        assert(dx as int * dx as int == (from.x - to.x) * (from.x - to.x)) by (nonlinear_arith)
            requires
                dx == to.x - from.x,
        ;
        assert(dy as int * dy as int == (from.y - to.y) * (from.y - to.y)) by (nonlinear_arith)
            requires
                dy == to.y - from.y,
        ;
        assert(abs_i(dx as int) <= dist && abs_i(dy as int) <= dist) by (nonlinear_arith)
            requires
                dx * dx + dy * dy == n,
                0 <= dist,
                n < (dist + 1) * (dist + 1),
        ;
    }
    let sx = scale_component(dx, step, dist);
    let sy = scale_component(dy, step, dist);
    Vec2 { x: sx, y: sy }
}

} // verus!
