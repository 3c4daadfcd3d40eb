use vstd::prelude::*;

verus! {

/// Thousandths of a world unit in one world unit; also the fixed-point one
/// of every ratio in this crate.
pub const UNIT: i64 = 1000;

/// Largest magnitude of a coordinate accepted by the geometry routines.
pub const COORD_LIMIT: i64 = 1_000_000_000;

/// A point or direction in space, in thousandths of a world unit.
#[derive(Clone, Copy, Debug, PartialEq, Eq, Structural)]
pub struct Vec3 {
    pub x: i64,
    pub y: i64,
    pub z: i64,
}

impl Vec3 {
    pub open spec fn bounded(self) -> bool {
        &&& -COORD_LIMIT <= self.x <= COORD_LIMIT
        &&& -COORD_LIMIT <= self.y <= COORD_LIMIT
        &&& -COORD_LIMIT <= self.z <= COORD_LIMIT
    }

    pub fn new(x: i64, y: i64, z: i64) -> (r: Vec3)
        ensures
            r.x == x && r.y == y && r.z == z,
    {
        Vec3 { x, y, z }
    }
}

/// Absolute value of an integer.
pub open spec fn abs(a: int) -> int {
    if a < 0 {
        -a
    } else {
        a
    }
}

/// `n · (a − b)` over the integers.
pub open spec fn dot_diff(n: Vec3, a: Vec3, b: Vec3) -> int {
    n.x * (a.x - b.x) + n.y * (a.y - b.y) + n.z * (a.z - b.z)
}

/// Squared length of `a − b`.
pub open spec fn dist2(a: Vec3, b: Vec3) -> int {
    (a.x - b.x) * (a.x - b.x) + (a.y - b.y) * (a.y - b.y) + (a.z - b.z) * (a.z - b.z)
}

/// Whether `r` is the integer square root of `n`, rounded down.
pub open spec fn is_floor_sqrt(r: int, n: int) -> bool {
    0 <= r && r * r <= n < (r + 1) * (r + 1)
}

/// The integer square root of `n`, rounded down.
pub open spec fn int_sqrt(n: nat) -> nat
    decreases n,
{
    if n == 0 {
        0
    } else {
        let r = int_sqrt((n - 1) as nat);
        if (r + 1) * (r + 1) <= n {
            r + 1
        } else {
            r
        }
    }
}

pub proof fn lemma_int_sqrt_is_floor_sqrt(n: nat)
    ensures
        is_floor_sqrt(int_sqrt(n) as int, n as int),
    decreases n,
{
    if n > 0 {
        lemma_int_sqrt_is_floor_sqrt((n - 1) as nat);
        let r = int_sqrt((n - 1) as nat) as int;
        assert((r + 2) * (r + 2) == (r + 1) * (r + 1) + 2 * r + 3) by (nonlinear_arith);
    }
}

pub proof fn lemma_floor_sqrt_unique(r1: int, r2: int, n: int)
    requires
        is_floor_sqrt(r1, n),
        is_floor_sqrt(r2, n),
    ensures
        r1 == r2,
{
    if r1 < r2 {
        assert((r1 + 1) * (r1 + 1) <= r2 * r2) by (nonlinear_arith)
            requires 0 <= r1 + 1 <= r2;
    } else if r2 < r1 {
        assert((r2 + 1) * (r2 + 1) <= r1 * r1) by (nonlinear_arith)
            requires 0 <= r2 + 1 <= r1;
    }
}

/// The integer square root of `n`, rounded down.
pub fn floor_sqrt(n: u64) -> (r: u64)
    ensures
        r as nat == int_sqrt(n as nat),
        is_floor_sqrt(r as int, n as int),
{
    let mut lo: u128 = 0;
    let mut hi: u128 = 0x1_0000_0000;
    assert(0x1_0000_0000 * 0x1_0000_0000 > 0xffff_ffff_ffff_ffff) by (nonlinear_arith);
    while hi - lo > 1
        invariant
            lo < hi <= 0x1_0000_0000,
            lo * lo <= n,
            n < hi * hi,
        decreases hi - lo,
    {
        let mid = lo + (hi - lo) / 2;
        assert(mid * mid <= 0x1_0000_0000 * 0x1_0000_0000) by (nonlinear_arith)
            requires mid <= 0x1_0000_0000;
        if mid * mid <= n as u128 {
            lo = mid;
        } else {
            hi = mid;
        }
    }
    proof {
        assert(hi == lo + 1);
        lemma_int_sqrt_is_floor_sqrt(n as nat);
        lemma_floor_sqrt_unique(lo as int, int_sqrt(n as nat) as int, n as int);
    }
    lo as u64
}

/// `a · num / den`, rounded toward zero.
pub open spec fn scale_toward_zero(a: int, num: int, den: int) -> int {
    if a >= 0 {
        (a * num) / den
    } else {
        -(((-a) * num) / den)
    }
}

pub proof fn lemma_scaled_quotient_bounded(a: int, num: int, den: int)
    requires
        a >= 0,
        0 <= num <= den,
        den > 0,
    ensures
        0 <= (a * num) / den <= a,
{
    assert(0 <= a * num <= a * den) by (nonlinear_arith)
        requires a >= 0, 0 <= num <= den;
    vstd::arithmetic::div_mod::lemma_div_is_ordered(a * num, a * den, den);
    vstd::arithmetic::div_mod::lemma_div_multiples_vanish(a, den);
    assert(den * a == a * den) by (nonlinear_arith);
    vstd::arithmetic::div_mod::lemma_div_pos_is_pos(a * num, den);
}

/// `a · num / den` rounded toward zero, for a fraction `num / den` in `[0, 1]`.
pub fn scale_by_fraction(a: i64, num: i128, den: i128) -> (r: i64)
    requires
        den > 0,
        0 <= num <= den,
        den <= 0x1_0000_0000_0000_0000,
        -0x4000_0000_0000_0000 <= a <= 0x4000_0000_0000_0000,
    ensures
        r == scale_toward_zero(a as int, num as int, den as int),
        -abs(a as int) <= r <= abs(a as int),
{
    let m: i128 = if a >= 0 { a as i128 } else { -(a as i128) };
    proof {
        lemma_scaled_quotient_bounded(m as int, num as int, den as int);
        assert(m * num <= m * den) by (nonlinear_arith)
            requires m >= 0, 0 <= num <= den;
        assert(m * den <= 0x4000_0000_0000_0000 * 0x1_0000_0000_0000_0000) by (nonlinear_arith)
            requires 0 <= m <= 0x4000_0000_0000_0000, 0 < den <= 0x1_0000_0000_0000_0000;
    }
    let q: i128 = (m * num) / den;
    if a >= 0 {
        q as i64
    } else {
        -(q as i64)
    }
}

/// `a · num / den` rounded toward zero, for `|a| <= den`: at most `num` in size.
pub fn scale_by_ratio(a: i64, num: i64, den: i64) -> (r: i64)
    requires
        0 < den <= 0x4000_0000_0000_0000,
        0 <= num <= 0x4000_0000_0000_0000,
        -den <= a <= den,
    ensures
        r == scale_toward_zero(a as int, num as int, den as int),
        -num <= r <= num,
{
    let m: i128 = if a >= 0 { a as i128 } else { -(a as i128) };
    proof {
        assert(0 <= m * num <= den * num) by (nonlinear_arith)
            requires 0 <= m <= den, num >= 0;
        assert(den * num <= 0x4000_0000_0000_0000 * 0x4000_0000_0000_0000) by (nonlinear_arith)
            requires 0 < den <= 0x4000_0000_0000_0000, 0 <= num <= 0x4000_0000_0000_0000;
        vstd::arithmetic::div_mod::lemma_div_is_ordered(m * num, den * num, den as int);
        vstd::arithmetic::div_mod::lemma_div_multiples_vanish(num as int, den as int);
        vstd::arithmetic::div_mod::lemma_div_pos_is_pos(m * num, den as int);
    }
    let q: i128 = (m * (num as i128)) / (den as i128);
    if a >= 0 {
        q as i64
    } else {
        -(q as i64)
    }
}

} // verus!
