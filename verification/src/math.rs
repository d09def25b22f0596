//! Small-vector integer algebra: 3-component vectors with add/sub/scale,
//! dot and cross products, and an exact integer square root used by the
//! lighting computation.

use vstd::prelude::*;
use vstd::arithmetic::div_mod::{lemma_div_nonincreasing, lemma_div_pos_is_pos};

verus! {

/// A 3-component integer vector. Components are plain `i64`; the scene code
/// uses them as Q16 fixed-point values.
#[derive(Clone, Copy, Debug, PartialEq, Eq, Structural)]
pub struct Vec3 {
    pub x: i64,
    pub y: i64,
    pub z: i64,
}

impl Vec3 {
    pub fn new(x: i64, y: i64, z: i64) -> (r: Vec3)
        ensures
            r == (Vec3 { x, y, z }),
    {
        Vec3 { x, y, z }
    }

    /// Component-wise sum.
    pub fn add(&self, rhs: &Vec3) -> (r: Vec3)
        requires
            i64::MIN <= self.x + rhs.x <= i64::MAX,
            i64::MIN <= self.y + rhs.y <= i64::MAX,
            i64::MIN <= self.z + rhs.z <= i64::MAX,
        ensures
            r.x == self.x + rhs.x,
            r.y == self.y + rhs.y,
            r.z == self.z + rhs.z,
    {
        Vec3 { x: self.x + rhs.x, y: self.y + rhs.y, z: self.z + rhs.z }
    }

    /// Component-wise difference.
    pub fn sub(&self, rhs: &Vec3) -> (r: Vec3)
        requires
            i64::MIN <= self.x - rhs.x <= i64::MAX,
            i64::MIN <= self.y - rhs.y <= i64::MAX,
            i64::MIN <= self.z - rhs.z <= i64::MAX,
        ensures
            r.x == self.x - rhs.x,
            r.y == self.y - rhs.y,
            r.z == self.z - rhs.z,
    {
        Vec3 { x: self.x - rhs.x, y: self.y - rhs.y, z: self.z - rhs.z }
    }

    /// Component-wise scaling by an integer factor.
    pub fn mul(&self, a: i64) -> (r: Vec3)
        requires
            i64::MIN <= self.x * a <= i64::MAX,
            i64::MIN <= self.y * a <= i64::MAX,
            i64::MIN <= self.z * a <= i64::MAX,
        ensures
            r.x == self.x * a,
            r.y == self.y * a,
            r.z == self.z * a,
    {
        Vec3 { x: self.x * a, y: self.y * a, z: self.z * a }
    }

    /// The direction of `self` as a Q16 unit vector: each component is
    /// multiplied by the fixed-point unit and divided by the integer
    /// Euclidean length, truncating toward zero. The zero vector, which
    /// has no direction, is returned unchanged.
    pub fn normalized(&self) -> (r: Vec3)
        requires
            -0x4000_0000_0000 <= self.x <= 0x4000_0000_0000,
            -0x4000_0000_0000 <= self.y <= 0x4000_0000_0000,
            -0x4000_0000_0000 <= self.z <= 0x4000_0000_0000,
        ensures
            r == normalized_spec(*self),
    {
        let x = self.x as i128;
        let y = self.y as i128;
        let z = self.z as i128;
        proof {
            assert(x * x <= 0x1000_0000_0000_0000_0000_0000 && x * x >= 0)
                by (nonlinear_arith)
                requires -0x4000_0000_0000 <= x <= 0x4000_0000_0000;
            assert(y * y <= 0x1000_0000_0000_0000_0000_0000 && y * y >= 0)
                by (nonlinear_arith)
                requires -0x4000_0000_0000 <= y <= 0x4000_0000_0000;
            assert(z * z <= 0x1000_0000_0000_0000_0000_0000 && z * z >= 0)
                by (nonlinear_arith)
                requires -0x4000_0000_0000 <= z <= 0x4000_0000_0000;
        }
        let len2: u128 = (x * x + y * y + z * z) as u128;
        let l: u128 = isqrt(len2);
        if l == 0 {
            *self
        } else {
            proof {
                lemma_sqrt_floor_bounds(len2 as nat);
                assert((l as int) * (l as int) <= len2 as int);
                assert(l as int <= 0x8000_0000_0000) by (nonlinear_arith)
                    requires
                        (l as int) * (l as int) <= 0x3000_0000_0000_0000_0000_0000,
                        l >= 0;
                assert((l as i128) as int == l as int);
            }
            let rx = div_trunc(x * 65536, l as i128);
            let ry = div_trunc(y * 65536, l as i128);
            let rz = div_trunc(z * 65536, l as i128);
            proof {
                lemma_tdiv_bounds((x * 65536) as int, l as int);
                lemma_tdiv_bounds((y * 65536) as int, l as int);
                lemma_tdiv_bounds((z * 65536) as int, l as int);
            }
            Vec3 { x: rx as i64, y: ry as i64, z: rz as i64 }
        }
    }

    /// Squared Euclidean length, exact in `i64`.
    pub fn length_squared(&self) -> (r: i64)
        requires
            self.x * self.x + self.y * self.y + self.z * self.z <= i64::MAX,
        ensures
            r == self.x * self.x + self.y * self.y + self.z * self.z,
    {
        proof {
            assert(self.x * self.x >= 0) by (nonlinear_arith);
            assert(self.y * self.y >= 0) by (nonlinear_arith);
            assert(self.z * self.z >= 0) by (nonlinear_arith);
        }
        self.x * self.x + self.y * self.y + self.z * self.z
    }
}

/// The squared Euclidean length as a mathematical integer.
pub open spec fn length_squared_spec(v: Vec3) -> int {
    v.x * v.x + v.y * v.y + v.z * v.z
}

/// What normalizing yields, in Q16: each component divided by the
/// integer-square-root length, truncating toward zero. The zero vector
/// normalizes to itself.
pub open spec fn normalized_spec(v: Vec3) -> Vec3 {
    let l = sqrt_floor(length_squared_spec(v) as nat) as int;
    if l == 0 {
        v
    } else {
        Vec3 {
            x: tdiv(v.x * 65536, l) as i64,
            y: tdiv(v.y * 65536, l) as i64,
            z: tdiv(v.z * 65536, l) as i64,
        }
    }
}

/// Floor of the real square root of `n`, as a recursive specification:
/// the unique `r` with `r * r <= n < (r + 1) * (r + 1)`.
pub open spec fn sqrt_floor(n: nat) -> nat
    decreases n,
{
    if n == 0 {
        0
    } else {
        let r = sqrt_floor((n - 1) as nat);
        if (r + 1) * (r + 1) <= n {
            r + 1
        } else {
            r
        }
    }
}

pub proof fn lemma_sqrt_floor_bounds(n: nat)
    ensures
        sqrt_floor(n) * sqrt_floor(n) <= n,
        n < (sqrt_floor(n) + 1) * (sqrt_floor(n) + 1),
    decreases n,
{
    if n == 0 {
        assert(sqrt_floor(n) == 0);
        assert(0 * 0 <= 0nat) by (nonlinear_arith);
        assert((0nat + 1) * (0nat + 1) > 0) by (nonlinear_arith);
    } else {
        let m = (n - 1) as nat;
        lemma_sqrt_floor_bounds(m);
        let r = sqrt_floor(m);
        assert(r * r <= m);
        assert(m < (r + 1) * (r + 1));
        assert(sqrt_floor(n) == if (r + 1) * (r + 1) <= n { r + 1 } else { r });
        if (r + 1) * (r + 1) <= n {
            assert(n <= (r + 1) * (r + 1));
            assert((r + 2) * (r + 2) > (r + 1) * (r + 1)) by (nonlinear_arith);
            assert(n < (r + 1 + 1) * (r + 1 + 1));
        } else {
            assert(r * r <= n);
            assert(n < (r + 1) * (r + 1));
        }
    }
}

pub proof fn lemma_sqrt_floor_unique(n: nat, s: nat)
    requires
        s * s <= n,
        n < (s + 1) * (s + 1),
    ensures
        s == sqrt_floor(n),
{
    lemma_sqrt_floor_bounds(n);
    let r = sqrt_floor(n);
    if s < r {
        assert((s + 1) * (s + 1) <= r * r) by (nonlinear_arith)
            requires s + 1 <= r;
    } else if s > r {
        assert((r + 1) * (r + 1) <= s * s) by (nonlinear_arith)
            requires r + 1 <= s;
    }
}

/// Exact integer square root by binary search.
pub fn isqrt(n: u128) -> (r: u128)
    ensures
        r == sqrt_floor(n as nat),
{
    let mut lo: u128 = 0;
    let mut hi: u128 = 0xFFFF_FFFF_FFFF_FFFF;
    proof {
        assert((0xFFFF_FFFF_FFFF_FFFFu128 + 1) * (0xFFFF_FFFF_FFFF_FFFFu128 + 1) > u128::MAX)
            by (nonlinear_arith);
    }
    while lo < hi
        invariant
            lo <= hi <= 0xFFFF_FFFF_FFFF_FFFF,
            lo * lo <= n,
            n < (hi + 1) * (hi + 1),
        decreases hi - lo,
    {
        let mid = lo + (hi - lo + 1) / 2;
        proof {
            assert(mid * mid <= 0xFFFF_FFFF_FFFF_FFFFu128 * 0xFFFF_FFFF_FFFF_FFFFu128)
                by (nonlinear_arith)
                requires mid <= 0xFFFF_FFFF_FFFF_FFFFu128;
        }
        if mid * mid <= n {
            lo = mid;
        } else {
            hi = mid - 1;
        }
    }
    proof {
        lemma_sqrt_floor_unique(n as nat, lo as nat);
    }
    lo
}

/// The absolute value of a mathematical integer.
pub open spec fn iabs(a: int) -> int {
    if a >= 0 {
        a
    } else {
        -a
    }
}

/// Division truncating toward zero, as Rust's `/` computes it on machine
/// integers.
pub open spec fn tdiv(a: int, b: int) -> int {
    if (a >= 0) == (b >= 0) {
        iabs(a) / iabs(b)
    } else {
        -(iabs(a) / iabs(b))
    }
}

/// Truncating division on `i128`, through unsigned division.
pub(crate) fn div_trunc(a: i128, b: i128) -> (r: i128)
    requires
        b != 0,
        a != i128::MIN,
        b != i128::MIN,
    ensures
        r == tdiv(a as int, b as int),
{
    let aa: u128 = if a < 0 {
        (-a) as u128
    } else {
        a as u128
    };
    let bb: u128 = if b < 0 {
        (-b) as u128
    } else {
        b as u128
    };
    let q: u128 = aa / bb;
    proof {
        lemma_div_nonincreasing(aa as int, bb as int);
    }
    if (a < 0) != (b < 0) {
        -(q as i128)
    } else {
        q as i128
    }
}

/// Division rounding toward negative infinity (the mathematical floor of
/// the exact quotient).
pub open spec fn fdiv(a: int, b: int) -> int {
    if (a >= 0) == (b >= 0) {
        iabs(a) / iabs(b)
    } else if iabs(a) % iabs(b) == 0 {
        -(iabs(a) / iabs(b))
    } else {
        -(iabs(a) / iabs(b)) - 1
    }
}

/// Flooring division on `i128`, through unsigned division.
pub(crate) fn div_floor(a: i128, b: i128) -> (r: i128)
    requires
        b != 0,
        a != i128::MIN,
        b != i128::MIN,
    ensures
        r == fdiv(a as int, b as int),
{
    let aa: u128 = if a < 0 {
        (-a) as u128
    } else {
        a as u128
    };
    let bb: u128 = if b < 0 {
        (-b) as u128
    } else {
        b as u128
    };
    let q: u128 = aa / bb;
    let rem: u128 = aa % bb;
    proof {
        lemma_div_nonincreasing(aa as int, bb as int);
    }
    if (a < 0) != (b < 0) {
        if rem == 0 {
            -(q as i128)
        } else {
            -(q as i128) - 1
        }
    } else {
        q as i128
    }
}

/// An exactly negative quotient floors to -1 or below: flooring toward
/// negative infinity never hides the sign.
pub proof fn lemma_fdiv_neg(a: int, b: int)
    requires
        b != 0,
        (a > 0 && b < 0) || (a < 0 && b > 0),
    ensures
        fdiv(a, b) <= -1,
{
    lemma_div_pos_is_pos(iabs(a), iabs(b));
    if iabs(a) % iabs(b) == 0 {
        vstd::arithmetic::div_mod::lemma_fundamental_div_mod(iabs(a), iabs(b));
        assert(iabs(a) == iabs(b) * (iabs(a) / iabs(b)));
        assert(iabs(a) / iabs(b) >= 1) by (nonlinear_arith)
            requires
                iabs(a) == iabs(b) * (iabs(a) / iabs(b)),
                iabs(a) > 0,
                iabs(b) > 0,
                iabs(a) / iabs(b) >= 0;
    }
}

/// Truncating division never grows the magnitude of the dividend.
pub proof fn lemma_tdiv_bounds(a: int, b: int)
    requires
        b != 0,
    ensures
        iabs(tdiv(a, b)) <= iabs(a),
{
    lemma_div_nonincreasing(iabs(a), iabs(b));
    if iabs(b) > 0 {
        lemma_div_pos_is_pos(iabs(a), iabs(b));
    }
}

/// Dot product, exact in `i64`.
pub fn dot(a: &Vec3, b: &Vec3) -> (r: i64)
    requires
        i64::MIN <= a.x * b.x <= i64::MAX,
        i64::MIN <= a.y * b.y <= i64::MAX,
        i64::MIN <= a.z * b.z <= i64::MAX,
        i64::MIN <= a.x * b.x + a.y * b.y <= i64::MAX,
        i64::MIN <= a.x * b.x + a.y * b.y + a.z * b.z <= i64::MAX,
    ensures
        r == a.x * b.x + a.y * b.y + a.z * b.z,
{
    a.x * b.x + a.y * b.y + a.z * b.z
}

/// Cross product, exact in `i64`.
pub fn cross(a: &Vec3, b: &Vec3) -> (r: Vec3)
    requires
        i64::MIN <= a.y * b.z <= i64::MAX,
        i64::MIN <= b.y * a.z <= i64::MAX,
        i64::MIN <= b.x * a.z <= i64::MAX,
        i64::MIN <= a.x * b.z <= i64::MAX,
        i64::MIN <= a.x * b.y <= i64::MAX,
        i64::MIN <= b.x * a.y <= i64::MAX,
        i64::MIN <= a.y * b.z - b.y * a.z <= i64::MAX,
        i64::MIN <= b.x * a.z - a.x * b.z <= i64::MAX,
        i64::MIN <= a.x * b.y - b.x * a.y <= i64::MAX,
    ensures
        r.x == a.y * b.z - b.y * a.z,
        r.y == b.x * a.z - a.x * b.z,
        r.z == a.x * b.y - b.x * a.y,
{
    let x = a.y * b.z - b.y * a.z;
    let y = b.x * a.z - a.x * b.z;
    let z = a.x * b.y - b.x * a.y;
    Vec3 { x, y, z }
}

} // verus!
