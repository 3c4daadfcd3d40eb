use vstd::prelude::*;
use crate::geometry::{abs, floor_sqrt, int_sqrt, scale_by_fraction, scale_by_ratio, scale_toward_zero, Vec3};

verus! {

/// Largest magnitude of a velocity component, and of a speed, in
/// thousandths of a unit per second.
pub const SPEED_LIMIT: i64 = 100_000_000;

pub open spec fn speed_bounded(v: Vec3) -> bool {
    &&& -SPEED_LIMIT <= v.x <= SPEED_LIMIT
    &&& -SPEED_LIMIT <= v.y <= SPEED_LIMIT
    &&& -SPEED_LIMIT <= v.z <= SPEED_LIMIT
}

/// Squared speed across the depth axis.
pub open spec fn lateral2(v: Vec3) -> int {
    v.x * v.x + v.y * v.y
}

/// Squared speed.
pub open spec fn speed2(v: Vec3) -> int {
    v.x * v.x + v.y * v.y + v.z * v.z
}

/// The integer square root of `n`, rounded up.
pub open spec fn ceil_sqrt(n: nat) -> int {
    let r = int_sqrt(n) as int;
    if r * r < n {
        r + 1
    } else {
        r
    }
}

/// Whether `r` is `v` with its lateral part scaled down, direction kept, so
/// that the lateral speed is at most `limit`; `v` itself if it already is.
pub open spec fn clamps_lateral(r: Vec3, v: Vec3, limit: int) -> bool {
    if lateral2(v) <= limit * limit {
        r == v
    } else {
        let s = ceil_sqrt(lateral2(v) as nat);
        &&& r.x == scale_toward_zero(v.x as int, limit, s)
        &&& r.y == scale_toward_zero(v.y as int, limit, s)
        &&& r.z == v.z
    }
}

/// Whether `r` is `v` scaled by `num / den`, each component rounded toward zero.
pub open spec fn scales_velocity(r: Vec3, v: Vec3, num: int, den: int) -> bool {
    &&& r.x == scale_toward_zero(v.x as int, num, den)
    &&& r.y == scale_toward_zero(v.y as int, num, den)
    &&& r.z == scale_toward_zero(v.z as int, num, den)
}

proof fn lemma_quotient_times_divisor(x: int, d: int)
    requires
        x >= 0,
        d > 0,
    ensures
        (x / d) * d <= x,
        x / d >= 0,
{
    vstd::arithmetic::div_mod::lemma_fundamental_div_mod(x, d);
    vstd::arithmetic::div_mod::lemma_mod_pos_bound(x, d);
    vstd::arithmetic::div_mod::lemma_div_pos_is_pos(x, d);
    assert(d * (x / d) == (x / d) * d) by (nonlinear_arith);
}

proof fn lemma_clamped_lateral(ax: int, ay: int, qx: int, qy: int, m: int, s: int)
    requires
        ax >= 0,
        ay >= 0,
        qx >= 0,
        qy >= 0,
        m >= 0,
        s > 0,
        qx * s <= ax * m,
        qy * s <= ay * m,
        ax * ax + ay * ay <= s * s,
    ensures
        qx * qx + qy * qy <= m * m,
{
    assert((qx * s) * (qx * s) <= (ax * m) * (ax * m)) by (nonlinear_arith)
        requires 0 <= qx * s <= ax * m;
    assert((qy * s) * (qy * s) <= (ay * m) * (ay * m)) by (nonlinear_arith)
        requires 0 <= qy * s <= ay * m;
    assert((qx * qx) * (s * s) == (qx * s) * (qx * s)) by (nonlinear_arith);
    assert((qy * qy) * (s * s) == (qy * s) * (qy * s)) by (nonlinear_arith);
    assert((ax * ax) * (m * m) == (ax * m) * (ax * m)) by (nonlinear_arith);
    assert((ay * ay) * (m * m) == (ay * m) * (ay * m)) by (nonlinear_arith);
    assert((qx * qx + qy * qy) * (s * s) == (qx * qx) * (s * s) + (qy * qy) * (s * s)) by (nonlinear_arith);
    assert((ax * ax + ay * ay) * (m * m) == (ax * ax) * (m * m) + (ay * ay) * (m * m)) by (nonlinear_arith);
    assert((ax * ax + ay * ay) * (m * m) <= (s * s) * (m * m)) by (nonlinear_arith)
        requires ax * ax + ay * ay <= s * s, m >= 0;
    assert(qx * qx + qy * qy <= m * m) by (nonlinear_arith)
        requires (qx * qx + qy * qy) * (s * s) <= (s * s) * (m * m), s > 0;
}

pub proof fn lemma_component_within_root(c: int, n: int, r: int)
    requires
        c * c <= n,
        n < (r + 1) * (r + 1),
        r >= 0,
    ensures
        -r <= c <= r,
{
    if c > r {
        assert(c * c >= (r + 1) * (r + 1)) by (nonlinear_arith)
            requires c >= r + 1, r >= 0;
    }
    if c < -r {
        assert(c * c >= (r + 1) * (r + 1)) by (nonlinear_arith)
            requires -c >= r + 1, r >= 0;
    }
}

/// `v` with its lateral speed limited to `limit`, direction kept.
pub fn clamp_lateral(v: Vec3, limit: i64) -> (r: Vec3)
    requires
        speed_bounded(v),
        0 <= limit <= SPEED_LIMIT,
    ensures
        clamps_lateral(r, v, limit as int),
        lateral2(r) <= limit * limit,
        speed_bounded(r),
        abs(r.x as int) <= abs(v.x as int),
        abs(r.y as int) <= abs(v.y as int),
{
    assert(0 <= v.x * v.x <= SPEED_LIMIT * SPEED_LIMIT) by (nonlinear_arith)
        requires -SPEED_LIMIT <= v.x <= SPEED_LIMIT;
    assert(0 <= v.y * v.y <= SPEED_LIMIT * SPEED_LIMIT) by (nonlinear_arith)
        requires -SPEED_LIMIT <= v.y <= SPEED_LIMIT;
    let lat2: u64 = ((v.x as i128) * (v.x as i128) + (v.y as i128) * (v.y as i128)) as u64;
    assert(0 <= limit * limit <= SPEED_LIMIT * SPEED_LIMIT) by (nonlinear_arith)
        requires 0 <= limit <= SPEED_LIMIT;
    let lim2: u64 = ((limit as i128) * (limit as i128)) as u64;
    if lat2 <= lim2 {
        return v;
    }
    let root = floor_sqrt(lat2);
    assert(root <= 200_000_000) by (nonlinear_arith)
        requires root * root <= lat2, lat2 <= 2 * SPEED_LIMIT * SPEED_LIMIT, root >= 0;
    let s: u64 = if root * root < lat2 { root + 1 } else { root };
    proof {
        assert(s * s >= lat2) by (nonlinear_arith)
            requires
                s == root + 1 || (s == root && root * root >= lat2),
                lat2 < (root + 1) * (root + 1);
        if s <= limit {
            assert(s * s <= limit * limit) by (nonlinear_arith)
                requires 0 <= s <= limit;
        }
        assert(root <= 200_000_000) by (nonlinear_arith)
            requires root * root <= lat2, lat2 <= 2 * SPEED_LIMIT * SPEED_LIMIT, root >= 0;
    }
    let rx = scale_by_fraction(v.x, limit as i128, s as i128);
    let ry = scale_by_fraction(v.y, limit as i128, s as i128);
    proof {
        let ax = abs(v.x as int);
        let ay = abs(v.y as int);
        lemma_quotient_times_divisor(ax * limit, s as int);
        lemma_quotient_times_divisor(ay * limit, s as int);
        let qx = (ax * limit) / (s as int);
        let qy = (ay * limit) / (s as int);
        assert(ax * ax == v.x * v.x && ay * ay == v.y * v.y) by (nonlinear_arith)
            requires ax == abs(v.x as int), ay == abs(v.y as int);
        lemma_clamped_lateral(ax, ay, qx, qy, limit as int, s as int);
        assert(rx * rx == qx * qx && ry * ry == qy * qy) by (nonlinear_arith)
            requires rx == qx || rx == -qx, ry == qy || ry == -qy;
    }
    Vec3 { x: rx, y: ry, z: v.z }
}

/// Speed, rounded up.
pub fn speed_of(v: Vec3) -> (r: i64)
    requires
        speed_bounded(v),
    ensures
        r == ceil_sqrt(speed2(v) as nat),
        speed2(v) <= r * r,
        -r <= v.x <= r,
        -r <= v.y <= r,
        -r <= v.z <= r,
        0 <= r <= 2 * SPEED_LIMIT,
        r == 0 ==> v.x == 0 && v.y == 0 && v.z == 0,
{
    assert(0 <= v.x * v.x <= SPEED_LIMIT * SPEED_LIMIT) by (nonlinear_arith)
        requires -SPEED_LIMIT <= v.x <= SPEED_LIMIT;
    assert(0 <= v.y * v.y <= SPEED_LIMIT * SPEED_LIMIT) by (nonlinear_arith)
        requires -SPEED_LIMIT <= v.y <= SPEED_LIMIT;
    assert(0 <= v.z * v.z <= SPEED_LIMIT * SPEED_LIMIT) by (nonlinear_arith)
        requires -SPEED_LIMIT <= v.z <= SPEED_LIMIT;
    let n: u64 = ((v.x as i128) * (v.x as i128) + (v.y as i128) * (v.y as i128)
        + (v.z as i128) * (v.z as i128)) as u64;
    let root = floor_sqrt(n);
    assert(root < 2 * SPEED_LIMIT) by (nonlinear_arith)
        requires root * root <= n, n <= 3 * SPEED_LIMIT * SPEED_LIMIT, root >= 0;
    let r: u64 = if root * root < n { root + 1 } else { root };
    proof {
        assert(n <= r * r) by (nonlinear_arith)
            requires
                r == root + 1 || (r == root && root * root >= n),
                n < (root + 1) * (root + 1);
        lemma_component_within_root(v.x as int, n as int, root as int);
        lemma_component_within_root(v.y as int, n as int, root as int);
        lemma_component_within_root(v.z as int, n as int, root as int);
        if r == 0 {
            assert(n == 0);
            assert(v.x * v.x == 0 && v.y * v.y == 0 && v.z * v.z == 0);
            assert(v.x == 0) by (nonlinear_arith) requires v.x * v.x == 0;
            assert(v.y == 0) by (nonlinear_arith) requires v.y * v.y == 0;
            assert(v.z == 0) by (nonlinear_arith) requires v.z * v.z == 0;
        }
    }
    r as i64
}

proof fn lemma_scaled_speed(ax: int, ay: int, az: int, qx: int, qy: int, qz: int, m: int, s: int)
    requires
        ax >= 0 && ay >= 0 && az >= 0,
        qx >= 0 && qy >= 0 && qz >= 0,
        m >= 0,
        s > 0,
        qx * s <= ax * m,
        qy * s <= ay * m,
        qz * s <= az * m,
        ax * ax + ay * ay + az * az <= s * s,
    ensures
        qx * qx + qy * qy + qz * qz <= m * m,
{
    assert((qx * qx) * (s * s) <= (ax * ax) * (m * m)) by (nonlinear_arith)
        requires 0 <= qx * s <= ax * m;
    assert((qy * qy) * (s * s) <= (ay * ay) * (m * m)) by (nonlinear_arith)
        requires 0 <= qy * s <= ay * m;
    assert((qz * qz) * (s * s) <= (az * az) * (m * m)) by (nonlinear_arith)
        requires 0 <= qz * s <= az * m;
    assert((qx * qx + qy * qy + qz * qz) * (s * s)
        == (qx * qx) * (s * s) + (qy * qy) * (s * s) + (qz * qz) * (s * s)) by (nonlinear_arith);
    assert((ax * ax + ay * ay + az * az) * (m * m)
        == (ax * ax) * (m * m) + (ay * ay) * (m * m) + (az * az) * (m * m)) by (nonlinear_arith);
    assert((ax * ax + ay * ay + az * az) * (m * m) <= (s * s) * (m * m)) by (nonlinear_arith)
        requires ax * ax + ay * ay + az * az <= s * s, m >= 0;
    assert(qx * qx + qy * qy + qz * qz <= m * m) by (nonlinear_arith)
        requires (qx * qx + qy * qy + qz * qz) * (s * s) <= (s * s) * (m * m), s > 0;
}

/// `v` scaled by `target / current`, each component rounded toward zero;
/// with `current` at least the speed of `v`, the result's speed is at most
/// `target`.
pub fn rescale_velocity(v: Vec3, current: i64, target: i64) -> (r: Vec3)
    requires
        0 < current <= 2 * SPEED_LIMIT,
        0 <= target <= SPEED_LIMIT,
        -current <= v.x <= current,
        -current <= v.y <= current,
        -current <= v.z <= current,
        speed2(v) <= current * current,
    ensures
        scales_velocity(r, v, target as int, current as int),
        speed_bounded(r),
        speed2(r) <= target * target,
{
    let r = Vec3 {
        x: scale_by_ratio(v.x, target, current),
        y: scale_by_ratio(v.y, target, current),
        z: scale_by_ratio(v.z, target, current),
    };
    proof {
        let ax = abs(v.x as int);
        let ay = abs(v.y as int);
        let az = abs(v.z as int);
        lemma_quotient_times_divisor(ax * target, current as int);
        lemma_quotient_times_divisor(ay * target, current as int);
        lemma_quotient_times_divisor(az * target, current as int);
        let qx = (ax * target) / (current as int);
        let qy = (ay * target) / (current as int);
        let qz = (az * target) / (current as int);
        assert(ax * ax == v.x * v.x && ay * ay == v.y * v.y && az * az == v.z * v.z) by (nonlinear_arith)
            requires ax == abs(v.x as int), ay == abs(v.y as int), az == abs(v.z as int);
        lemma_scaled_speed(ax, ay, az, qx, qy, qz, target as int, current as int);
        assert(r.x * r.x == qx * qx && r.y * r.y == qy * qy && r.z * r.z == qz * qz) by (nonlinear_arith)
            requires r.x == qx || r.x == -qx, r.y == qy || r.y == -qy, r.z == qz || r.z == -qz;
    }
    r
}

/// Squaring keeps the order of magnitudes.
pub proof fn lemma_square_monotone(a: int, b: int)
    requires
        abs(a) <= abs(b),
    ensures
        a * a <= b * b,
{
    assert(a * a == abs(a) * abs(a) && b * b == abs(b) * abs(b)) by (nonlinear_arith);
    assert(abs(a) * abs(a) <= abs(b) * abs(b)) by (nonlinear_arith)
        requires 0 <= abs(a) <= abs(b);
}

/// Displacement `v · dt` for `dt` in milliseconds, rounded toward zero.
pub open spec fn displacement(c: int, dt: int) -> int {
    scale_toward_zero(c, dt, 1000)
}

/// `p` moved by velocity `v` over `dt` milliseconds.
pub fn integrate(p: Vec3, v: Vec3, dt: i64) -> (r: Vec3)
    requires
        speed_bounded(v),
        0 <= dt <= 1000,
        -1_000_000_000 <= p.x <= 1_000_000_000,
        -1_000_000_000 <= p.y <= 1_000_000_000,
        -1_000_000_000 <= p.z <= 1_000_000_000,
    ensures
        r.x == p.x + displacement(v.x as int, dt as int),
        r.y == p.y + displacement(v.y as int, dt as int),
        r.z == p.z + displacement(v.z as int, dt as int),
        abs(r.x - p.x) <= abs(v.x as int) && abs(r.y - p.y) <= abs(v.y as int) && abs(r.z - p.z) <= abs(v.z as int),
{
    Vec3 {
        x: p.x + scale_by_fraction(v.x, dt as i128, 1000),
        y: p.y + scale_by_fraction(v.y, dt as i128, 1000),
        z: p.z + scale_by_fraction(v.z, dt as i128, 1000),
    }
}

} // verus!
