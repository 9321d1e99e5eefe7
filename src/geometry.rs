//! Fixed-point world geometry.
//!
//! World positions and velocities are held in thousandths of a world unit
//! (one world unit is one tile at the default tile size).
use vstd::arithmetic::div_mod::{lemma_div_by_multiple, lemma_div_is_ordered};
use vstd::arithmetic::mul::lemma_mul_inequality;
use vstd::prelude::*;

verus! {

/// Milli-units per world unit.
pub const UNIT: i32 = 1000;

/// A point or vector in world space, in milli-units.
#[derive(Clone, Copy, Debug, PartialEq, Eq, Structural)]
pub struct Vec3 {
    pub x: i32,
    pub y: i32,
    pub z: i32,
}

/// A horizontal vector (x and z axes), in milli-units.
#[derive(Clone, Copy, Debug, PartialEq, Eq, Structural)]
pub struct Planar {
    pub x: i32,
    pub z: i32,
}

/// The largest `r` with `r * r <= n`.
pub open spec fn floor_sqrt(n: nat) -> nat
    decreases n,
{
    if n == 0 {
        0
    } else {
        let r = floor_sqrt((n - 1) as nat);
        if (r + 1) * (r + 1) <= n {
            r + 1
        } else {
            r
        }
    }
}

/// Squared distance between two points.
pub open spec fn dist2(a: Vec3, b: Vec3) -> nat {
    ((b.x - a.x) * (b.x - a.x) + (b.y - a.y) * (b.y - a.y) + (b.z - a.z) * (b.z - a.z)) as nat
}

/// Whether `b` lies within one world unit of `a`.
pub open spec fn within_unit(a: Vec3, b: Vec3) -> bool {
    dist2(a, b) <= UNIT * UNIT
}

/// Component `d` of a vector of length `len`, rescaled to length `speed`,
/// truncated toward zero.
pub open spec fn scale(d: int, speed: int, len: int) -> int {
    if d >= 0 {
        (d * speed) / len
    } else {
        -(((-d) * speed) / len)
    }
}

/// The velocity of magnitude `speed` (up to truncation) pointing from `from` to `to`.
pub open spec fn velocity_toward_spec(from: Vec3, to: Vec3, speed: int) -> Vec3 {
    let len = floor_sqrt(dist2(from, to)) as int;
    Vec3 {
        x: scale(to.x - from.x, speed, len) as i32,
        y: scale(to.y - from.y, speed, len) as i32,
        z: scale(to.z - from.z, speed, len) as i32,
    }
}

pub(crate) proof fn lemma_square_monotone(a: nat, b: nat)
    requires
        a <= b,
    ensures
        a * a <= b * b,
{
    assert(a * a <= b * b) by (nonlinear_arith)
        requires
            a <= b,
    ;
}

/// `floor_sqrt(n)` is the floor of the square root of `n`.
pub proof fn lemma_floor_sqrt_bounds(n: nat)
    ensures
        floor_sqrt(n) * floor_sqrt(n) <= n,
        n < (floor_sqrt(n) + 1) * (floor_sqrt(n) + 1),
    decreases n,
{
    if n > 0 {
        let m = (n - 1) as nat;
        lemma_floor_sqrt_bounds(m);
        let r = floor_sqrt(m);
        assert(r * r <= m && m < (r + 1) * (r + 1));
        if (r + 1) * (r + 1) > n {
            assert(floor_sqrt(n) == r);
            assert(r * r <= n);
            assert(n < (floor_sqrt(n) + 1) * (floor_sqrt(n) + 1));
        } else {
            assert(floor_sqrt(n) == r + 1);
            assert((r + 1) * (r + 1) == n);
            assert(n < (r + 2) * (r + 2)) by (nonlinear_arith)
                requires
                    (r + 1) * (r + 1) == n,
            ;
            let s = r + 1;
            assert(s * s <= n);
            assert(n < (s + 1) * (s + 1));
            assert(n < (floor_sqrt(n) + 1) * (floor_sqrt(n) + 1));
        }
    } else {
        assert(n == 0);
        assert(floor_sqrt(n) == 0);
        let s = floor_sqrt(n);
        assert(s * s == 0 && (s + 1) * (s + 1) == 1) by (nonlinear_arith)
            requires
                s == 0,
        ;
    }
}

/// Any `r` that brackets `n` between `r * r` and `(r + 1) * (r + 1)` is `floor_sqrt(n)`.
pub proof fn lemma_floor_sqrt_unique(n: nat, r: nat)
    requires
        r * r <= n,
        n < (r + 1) * (r + 1),
    ensures
        r == floor_sqrt(n),
{
    lemma_floor_sqrt_bounds(n);
    let s = floor_sqrt(n);
    if r < s {
        lemma_square_monotone(r + 1, s);
    } else if s < r {
        lemma_square_monotone(s + 1, r);
    }
}

/// Floor of the square root of `n`.
pub fn isqrt(n: u128) -> (r: u64)
    requires
        n < 0x10_0000_0000_0000_0000,
    ensures
        r as nat == floor_sqrt(n as nat),
{
    let mut lo: u128 = 0;
    let mut hi: u128 = 0x4_0000_0000;
    assert(hi * hi == 0x10_0000_0000_0000_0000);
    while hi - lo > 1
        invariant
            lo < hi <= 0x4_0000_0000,
            lo * lo <= n,
            n < hi * hi,
        decreases hi - lo,
    {
        let mid: u128 = lo + (hi - lo) / 2;
        assert(mid * mid <= 0x10_0000_0000_0000_0000) by (nonlinear_arith)
            requires
                mid < 0x4_0000_0000,
        ;
        if mid * mid <= n {
            lo = mid;
        } else {
            hi = mid;
        }
    }
    proof {
        lemma_floor_sqrt_unique(n as nat, lo as nat);
    }
    lo as u64
}

/// Squared distance between two points.
pub fn distance_squared(a: Vec3, b: Vec3) -> (r: u128)
    ensures
        r as nat == dist2(a, b),
        r < 0x10_0000_0000_0000_0000,
{
    let dx = b.x as i128 - a.x as i128;
    let dy = b.y as i128 - a.y as i128;
    let dz = b.z as i128 - a.z as i128;
    assert(dx * dx <= 0x1_0000_0000_0000_0000 && dy * dy <= 0x1_0000_0000_0000_0000
        && dz * dz <= 0x1_0000_0000_0000_0000) by (nonlinear_arith)
        requires
            -0x1_0000_0000 <= dx <= 0x1_0000_0000,
            -0x1_0000_0000 <= dy <= 0x1_0000_0000,
            -0x1_0000_0000 <= dz <= 0x1_0000_0000,
    ;
    assert(dx * dx >= 0 && dy * dy >= 0 && dz * dz >= 0) by (nonlinear_arith);
    (dx * dx + dy * dy + dz * dz) as u128
}

/// Whether `b` lies within one world unit of `a`.
pub fn is_within_unit(a: Vec3, b: Vec3) -> (r: bool)
    ensures
        r == within_unit(a, b),
{
    distance_squared(a, b) <= 1_000_000
}

/// A component `d` with `d * d < (len + 1) * (len + 1)` is at most `len` in size.
pub(crate) proof fn lemma_component_within_length(d: int, len: nat)
    requires
        d * d < (len + 1) * (len + 1),
    ensures
        -len <= d <= len,
{
    let a: nat = if d >= 0 { d as nat } else { (-d) as nat };
    assert(a * a == d * d) by (nonlinear_arith)
        requires
            a == d || a == -d,
    ;
    if a > len {
        lemma_square_monotone(len + 1, a);
    }
}

/// Rescaling a component no longer than `len` to `speed` stays within `speed`.
proof fn lemma_scaled_within_speed(a: int, speed: int, len: int)
    requires
        0 <= a <= len,
        0 < len,
        0 <= speed,
    ensures
        0 <= (a * speed) / len <= speed,
{
    lemma_mul_inequality(a, len, speed);
    lemma_mul_inequality(0, a, speed);
    lemma_div_is_ordered(a * speed, len * speed, len);
    lemma_div_is_ordered(0, a * speed, len);
    lemma_div_by_multiple(speed, len);
    assert(len * speed == speed * len) by (nonlinear_arith);
}

pub(crate) fn scale_component(d: i64, speed: u32, len: u64) -> (r: i32)
    requires
        0 < len <= 0x4_0000_0000,
        -(len as int) <= d <= len,
        -0x1_0000_0000 <= d <= 0x1_0000_0000,
        speed <= i32::MAX,
    ensures
        r == scale(d as int, speed as int, len as int),
{
    let a: u64 = if d >= 0 { d as u64 } else { (-d) as u64 };
    assert(a * speed <= 0x1_0000_0000 * 0x8000_0000) by (nonlinear_arith)
        requires
            a <= 0x1_0000_0000,
            speed <= 0x8000_0000,
    ;
    let q: u64 = a * (speed as u64) / len;
    proof {
        lemma_scaled_within_speed(a as int, speed as int, len as int);
    }
    if d >= 0 {
        q as i32
    } else {
        -(q as i32)
    }
}

/// The velocity of magnitude `speed` (each component truncated toward zero)
/// pointing from `from` to `to`.
pub fn velocity_toward(from: Vec3, to: Vec3, speed: u32) -> (r: Vec3)
    requires
        dist2(from, to) > 0,
        speed <= i32::MAX,
    ensures
        r == velocity_toward_spec(from, to, speed as int),
{
    let d2 = distance_squared(from, to);
    let len = isqrt(d2);
    let dx = to.x as i64 - from.x as i64;
    let dy = to.y as i64 - from.y as i64;
    let dz = to.z as i64 - from.z as i64;
    proof {
        let l = len as nat;
        lemma_floor_sqrt_bounds(d2 as nat);
        assert(dx * dx >= 0 && dy * dy >= 0 && dz * dz >= 0) by (nonlinear_arith);
        lemma_component_within_length(dx as int, l);
        lemma_component_within_length(dy as int, l);
        lemma_component_within_length(dz as int, l);
        if l == 0 {
            assert(d2 < 1) by (nonlinear_arith)
                requires
                    d2 < (l + 1) * (l + 1),
                    l == 0,
            ;
        }
        if l > 0x4_0000_0000 {
            lemma_square_monotone(0x4_0000_0000, l);
        }
    }
    Vec3 {
        x: scale_component(dx, speed, len),
        y: scale_component(dy, speed, len),
        z: scale_component(dz, speed, len),
    }
}

} // verus!
