use vstd::prelude::*;
use crate::geometry::{abs, scale_by_fraction, scale_toward_zero, Vec3, COORD_LIMIT};
use crate::intersection::lemma_mul_bounded;

verus! {

/// An axis-aligned box given by its least and greatest corners.
#[derive(Clone, Copy, Debug, PartialEq, Eq, Structural)]
pub struct AxisBox {
    pub min: Vec3,
    pub max: Vec3,
}

impl AxisBox {
    pub open spec fn wf(self) -> bool {
        &&& self.min.bounded()
        &&& self.max.bounded()
        &&& self.min.x <= self.max.x
        &&& self.min.y <= self.max.y
        &&& self.min.z <= self.max.z
    }

    pub open spec fn contains(self, p: Vec3) -> bool {
        &&& self.min.x <= p.x <= self.max.x
        &&& self.min.y <= p.y <= self.max.y
        &&& self.min.z <= p.z <= self.max.z
    }

    /// The box centred on `center` with the given half-extents.
    pub fn around(center: Vec3, half_extent: Vec3) -> (r: AxisBox)
        requires
            center.bounded(),
            0 <= half_extent.x && 0 <= half_extent.y && 0 <= half_extent.z,
            -COORD_LIMIT <= center.x - half_extent.x && center.x + half_extent.x <= COORD_LIMIT,
            -COORD_LIMIT <= center.y - half_extent.y && center.y + half_extent.y <= COORD_LIMIT,
            -COORD_LIMIT <= center.z - half_extent.z && center.z + half_extent.z <= COORD_LIMIT,
        ensures
            r.wf(),
            r.min.x == center.x - half_extent.x && r.max.x == center.x + half_extent.x,
            r.min.y == center.y - half_extent.y && r.max.y == center.y + half_extent.y,
            r.min.z == center.z - half_extent.z && r.max.z == center.z + half_extent.z,
    {
        AxisBox {
            min: Vec3 { x: center.x - half_extent.x, y: center.y - half_extent.y, z: center.z - half_extent.z },
            max: Vec3 { x: center.x + half_extent.x, y: center.y + half_extent.y, z: center.z + half_extent.z },
        }
    }

    /// Whether `p` lies in the box, faces included.
    pub fn contains_point(&self, p: Vec3) -> (r: bool)
        ensures
            r == self.contains(p),
    {
        self.min.x <= p.x && p.x <= self.max.x && self.min.y <= p.y && p.y <= self.max.y
            && self.min.z <= p.z && p.z <= self.max.z
    }
}

/// Whether `point` lies in the axis-aligned box from `cube_min` to `cube_max`, faces included.
pub fn is_point_inside_cube(point: Vec3, cube_min: Vec3, cube_max: Vec3) -> (r: bool)
    ensures
        r == (AxisBox { min: cube_min, max: cube_max }).contains(point),
{
    (AxisBox { min: cube_min, max: cube_max }).contains_point(point)
}

/// Where a segment first meets a box, and through which face.
#[derive(Clone, Copy, Debug, PartialEq, Eq, Structural)]
pub struct BoxHit {
    pub position: Vec3,
    /// Outward normal of the entry face, one world unit long.
    pub normal: Vec3,
    /// Entry face, in the order −X, +X, −Y, +Y, −Z, +Z.
    pub entry_face: usize,
    pub cube_id: u32,
    pub time: i64,
}

pub open spec fn coord(v: Vec3, k: int) -> int {
    if k == 0 {
        v.x as int
    } else if k == 1 {
        v.y as int
    } else {
        v.z as int
    }
}

/// Whether `n` is the outward normal, one world unit long, of face `f` in
/// the order −X, +X, −Y, +Y, −Z, +Z.
pub open spec fn is_face_normal(n: Vec3, f: int) -> bool {
    let sign: int = if f % 2 == 0 { -1000 } else { 1000 };
    if f / 2 == 0 {
        n.x == sign && n.y == 0 && n.z == 0
    } else if f / 2 == 1 {
        n.x == 0 && n.y == sign && n.z == 0
    } else {
        n.x == 0 && n.y == 0 && n.z == sign
    }
}

/// State of the slab method after some axes: whether the segment can still
/// meet the box, the entering and leaving parameters as fractions with
/// positive denominators, and the face of the tightest entering bound.
pub type Slab = (bool, int, int, int, int, int);

/// The slab state after the first `k` axes of the segment from `s` to `e`.
pub open spec fn slab_after(s: Vec3, e: Vec3, b: AxisBox, k: nat) -> Slab
    decreases k,
{
    if k == 0 {
        (true, 0, 1, 1, 1, 0)
    } else {
        let prev = slab_after(s, e, b, (k - 1) as nat);
        let axis = k - 1;
        let start = coord(s, axis);
        let d = coord(e, axis) - start;
        let lo = coord(b.min, axis);
        let hi = coord(b.max, axis);
        if !prev.0 {
            prev
        } else if d == 0 {
            if start < lo || start > hi {
                (false, prev.1, prev.2, prev.3, prev.4, prev.5)
            } else {
                prev
            }
        } else {
            let den = abs(d);
            let enter = if d > 0 { lo - start } else { start - hi };
            let leave = if d > 0 { hi - start } else { start - lo };
            let tighter_enter = enter * prev.2 > prev.1 * den;
            let tighter_leave = leave * prev.4 < prev.3 * den;
            let n1 = if tighter_enter { enter } else { prev.1 };
            let d1 = if tighter_enter { den } else { prev.2 };
            let n2 = if tighter_leave { leave } else { prev.3 };
            let d2 = if tighter_leave { den } else { prev.4 };
            let face = if tighter_enter {
                2 * axis + (if d < 0 { 1int } else { 0int })
            } else {
                prev.5
            };
            (!(n1 * d2 > n2 * d1), n1, d1, n2, d2, face)
        }
    }
}

/// Whether the segment from `s` to `e` meets the box `b`.
pub open spec fn meets_box(s: Vec3, e: Vec3, b: AxisBox) -> bool {
    slab_after(s, e, b, 3).0
}

/// The record of the first point where the segment from `s` to `e` meets `b`.
pub open spec fn is_box_hit(r: BoxHit, s: Vec3, e: Vec3, b: AxisBox, cube_id: u32, time: i64) -> bool {
    let st = slab_after(s, e, b, 3);
    &&& r.position.x == s.x + scale_toward_zero(e.x - s.x, st.1, st.2)
    &&& r.position.y == s.y + scale_toward_zero(e.y - s.y, st.1, st.2)
    &&& r.position.z == s.z + scale_toward_zero(e.z - s.z, st.1, st.2)
    &&& r.entry_face == st.5
    &&& is_face_normal(r.normal, st.5)
    &&& r.cube_id == cube_id
    &&& r.time == time
}

/// Whether axis `k` of the point at parameter `num / den` (`den > 0`) of
/// the segment from `s` to `e` lies within the box's slab on that axis,
/// stated exactly by multiplying through by `den`.
pub open spec fn within_slab(s: Vec3, e: Vec3, b: AxisBox, num: int, den: int, k: int) -> bool {
    let p = coord(s, k) * den + (coord(e, k) - coord(s, k)) * num;
    coord(b.min, k) * den <= p <= coord(b.max, k) * den
}

/// What the slab state says of axis `j` once that axis has been taken in.
pub open spec fn axis_bounds_hold(s: Vec3, e: Vec3, b: AxisBox, st: Slab, j: int) -> bool {
    let start = coord(s, j);
    let d = coord(e, j) - start;
    let lo = coord(b.min, j);
    let hi = coord(b.max, j);
    if d == 0 {
        lo <= start <= hi
    } else {
        let den = abs(d);
        let enter = if d > 0 { lo - start } else { start - hi };
        let leave = if d > 0 { hi - start } else { start - lo };
        enter * st.2 <= st.1 * den && st.3 * den <= leave * st.4
    }
}

proof fn lemma_fraction_trans(a: int, b: int, c: int, d: int, e: int, f: int)
    requires
        b > 0,
        d > 0,
        f > 0,
        a * d <= c * b,
        c * f <= e * d,
    ensures
        a * f <= e * b,
{
    assert(a * d * f <= c * b * f) by (nonlinear_arith)
        requires a * d <= c * b, f > 0;
    assert(c * f * b <= e * d * b) by (nonlinear_arith)
        requires c * f <= e * d, b > 0;
    assert(a * f * d <= e * b * d) by (nonlinear_arith)
        requires a * d * f <= c * b * f, c * f * b <= e * d * b;
    assert(a * f <= e * b) by (nonlinear_arith)
        requires a * f * d <= e * b * d, d > 0;
}

proof fn lemma_slab_invariant(s: Vec3, e: Vec3, b: AxisBox, k: nat)
    requires
        k <= 3,
    ensures
        slab_after(s, e, b, k).0 ==> {
            let st = slab_after(s, e, b, k);
            &&& st.2 > 0 && st.4 > 0
            &&& 0 <= st.1
            &&& st.3 <= st.4
            &&& st.1 * st.4 <= st.3 * st.2
            &&& forall|j: int| 0 <= j < k ==> #[trigger] axis_bounds_hold(s, e, b, st, j)
        },
    decreases k,
{
    if k > 0 {
        lemma_slab_invariant(s, e, b, (k - 1) as nat);
        let prev = slab_after(s, e, b, (k - 1) as nat);
        let st = slab_after(s, e, b, k);
        let axis = k - 1;
        if st.0 {
            assert(prev.0);
            let start = coord(s, axis);
            let d = coord(e, axis) - start;
            if d != 0 {
                let den = abs(d);
                let enter = if d > 0 { coord(b.min, axis) - start } else { start - coord(b.max, axis) };
                let leave = if d > 0 { coord(b.max, axis) - start } else { start - coord(b.min, axis) };
                let tighter_enter = enter * prev.2 > prev.1 * den;
                let tighter_leave = leave * prev.4 < prev.3 * den;
                assert(0 <= prev.1 * den) by (nonlinear_arith) requires 0 <= prev.1, den > 0;
                if tighter_enter {
                    assert(enter > 0) by (nonlinear_arith)
                        requires enter * prev.2 > prev.1 * den, prev.1 * den >= 0, prev.2 > 0;
                }
                if !tighter_leave {
                    assert(st.3 == prev.3 && st.4 == prev.4);
                } else {
                    assert(leave * prev.4 < prev.3 * den);
                    assert(leave < den) by (nonlinear_arith)
                        requires leave * prev.4 < prev.3 * den, prev.3 <= prev.4, prev.4 > 0, den > 0;
                }
                assert forall|j: int| 0 <= j < k implies #[trigger] axis_bounds_hold(s, e, b, st, j) by {
                    if j < axis {
                        assert(axis_bounds_hold(s, e, b, prev, j));
                        let sj = coord(s, j);
                        let dj = coord(e, j) - sj;
                        if dj != 0 {
                            let denj = abs(dj);
                            let enj = if dj > 0 { coord(b.min, j) - sj } else { sj - coord(b.max, j) };
                            let lvj = if dj > 0 { coord(b.max, j) - sj } else { sj - coord(b.min, j) };
                            if tighter_enter {
                                assert(enj * prev.2 <= prev.1 * denj);
                                assert(prev.1 * den <= enter * prev.2);
                                lemma_fraction_trans(enj, denj, prev.1, prev.2, enter, den);
                                assert(enj * den <= enter * denj);
                            }
                            if tighter_leave {
                                lemma_fraction_trans(leave, den, prev.3, prev.4, lvj, denj);
                            }
                        }
                    } else {
                        if !tighter_enter {
                            assert(enter * prev.2 <= prev.1 * den);
                        }
                        if !tighter_leave {
                            assert(prev.3 * den <= leave * prev.4);
                        }
                    }
                }
            } else {
                assert(st == prev);
                assert forall|j: int| 0 <= j < k implies #[trigger] axis_bounds_hold(s, e, b, st, j) by {
                    if j < axis {
                        assert(axis_bounds_hold(s, e, b, prev, j));
                    }
                }
            }
        }
    }
}

/// When the segment meets the box, the crossing parameter lies in `[0, 1]`
/// and the exact point at it lies in the box.
pub proof fn lemma_box_hit_in_box(s: Vec3, e: Vec3, b: AxisBox)
    requires
        meets_box(s, e, b),
    ensures
        ({
            let st = slab_after(s, e, b, 3);
            &&& 0 <= st.1 <= st.2
            &&& st.2 > 0
            &&& forall|k: int| 0 <= k < 3 ==> #[trigger] within_slab(s, e, b, st.1, st.2, k)
        }),
{
    lemma_slab_invariant(s, e, b, 3);
    let st = slab_after(s, e, b, 3);
    lemma_fraction_trans(st.1, st.2, st.3, st.4, 1, 1);
    assert(st.1 <= st.2);
    assert forall|k: int| 0 <= k < 3 implies #[trigger] within_slab(s, e, b, st.1, st.2, k) by {
        assert(axis_bounds_hold(s, e, b, st, k));
        let start = coord(s, k);
        let d = coord(e, k) - start;
        let lo = coord(b.min, k);
        let hi = coord(b.max, k);
        if d == 0 {
            assert(lo * st.2 <= start * st.2 <= hi * st.2) by (nonlinear_arith)
                requires lo <= start <= hi, st.2 > 0;
            assert(d * st.1 == 0);
        } else {
            let den = abs(d);
            let leave = if d > 0 { hi - start } else { start - lo };
            lemma_fraction_trans(st.1, st.2, st.3, st.4, leave, den);
            if d > 0 {
                assert(lo * st.2 <= start * st.2 + d * st.1) by (nonlinear_arith)
                    requires (lo - start) * st.2 <= st.1 * d;
                assert(start * st.2 + d * st.1 <= hi * st.2) by (nonlinear_arith)
                    requires st.1 * d <= (hi - start) * st.2;
            } else {
                assert(start * st.2 + d * st.1 <= hi * st.2) by (nonlinear_arith)
                    requires (start - hi) * st.2 <= st.1 * (-d);
                assert(lo * st.2 <= start * st.2 + d * st.1) by (nonlinear_arith)
                    requires st.1 * (-d) <= (start - lo) * st.2;
            }
        }
    }
}

proof fn lemma_slab_complete(s: Vec3, e: Vec3, b: AxisBox, k: nat, num: int, den: int)
    requires
        k <= 3,
        den > 0,
        0 <= num <= den,
        forall|j: int| 0 <= j < 3 ==> #[trigger] within_slab(s, e, b, num, den, j),
    ensures
        slab_after(s, e, b, k).0,
        slab_after(s, e, b, k).2 > 0,
        slab_after(s, e, b, k).4 > 0,
        slab_after(s, e, b, k).1 * den <= num * slab_after(s, e, b, k).2,
        num * slab_after(s, e, b, k).4 <= slab_after(s, e, b, k).3 * den,
    decreases k,
{
    if k == 0 {
        assert(slab_after(s, e, b, 0) == (true, 0int, 1int, 1int, 1int, 0int));
        assert(0 * den <= num * 1 && num * 1 <= 1 * den) by (nonlinear_arith)
            requires 0 <= num <= den;
    } else {
        lemma_slab_complete(s, e, b, (k - 1) as nat, num, den);
        let prev = slab_after(s, e, b, (k - 1) as nat);
        let axis = k - 1;
        assert(within_slab(s, e, b, num, den, axis));
        let start = coord(s, axis);
        let d = coord(e, axis) - start;
        let lo = coord(b.min, axis);
        let hi = coord(b.max, axis);
        if d == 0 {
            assert(lo * den <= start * den <= hi * den) by (nonlinear_arith)
                requires lo * den <= start * den + d * num <= hi * den, d == 0;
            assert(lo <= start <= hi) by (nonlinear_arith)
                requires lo * den <= start * den <= hi * den, den > 0;
            assert(slab_after(s, e, b, k) == prev);
        } else {
            let dn = abs(d);
            let enter = if d > 0 { lo - start } else { start - hi };
            let leave = if d > 0 { hi - start } else { start - lo };
            if d > 0 {
                assert(enter * den <= num * dn) by (nonlinear_arith)
                    requires lo * den <= start * den + d * num, enter == lo - start, dn == d;
                assert(num * dn <= leave * den) by (nonlinear_arith)
                    requires start * den + d * num <= hi * den, leave == hi - start, dn == d;
            } else {
                assert(enter * den <= num * dn) by (nonlinear_arith)
                    requires start * den + d * num <= hi * den, enter == start - hi, dn == -d;
                assert(num * dn <= leave * den) by (nonlinear_arith)
                    requires lo * den <= start * den + d * num, leave == start - lo, dn == -d;
            }
            let st = slab_after(s, e, b, k);
            assert(st.1 * den <= num * st.2);
            assert(num * st.4 <= st.3 * den);
            lemma_fraction_trans(st.1, st.2, num, den, st.3, st.4);
        }
    }
}

/// The segment from `s` to `e` meets the box exactly when some parameter
/// `num / den` in `[0, 1]` puts its point in the box; the crossing
/// parameter is then the least such, and its exact point lies in the box.
pub proof fn lemma_box_hit_is_first_point_in_box(s: Vec3, e: Vec3, b: AxisBox, num: int, den: int)
    requires
        den > 0,
        0 <= num <= den,
        forall|j: int| 0 <= j < 3 ==> #[trigger] within_slab(s, e, b, num, den, j),
    ensures
        meets_box(s, e, b),
        slab_after(s, e, b, 3).1 * den <= num * slab_after(s, e, b, 3).2,
{
    lemma_slab_complete(s, e, b, 3, num, den);
}

/// A point inside a slab stays inside once its offset from the start is
/// rounded toward zero: the slab's bounds are whole numbers.
proof fn lemma_rounded_within(s: int, d: int, lo: int, hi: int, num: int, den: int)
    requires
        den > 0,
        num >= 0,
        lo * den <= s * den + d * num <= hi * den,
    ensures
        lo <= s + scale_toward_zero(d, num, den) <= hi,
{
    if d >= 0 {
        let q = d * num;
        assert(d * num >= 0) by (nonlinear_arith) requires d >= 0, num >= 0;
        let k = q / den;
        vstd::arithmetic::div_mod::lemma_fundamental_div_mod(q, den);
        vstd::arithmetic::div_mod::lemma_mod_pos_bound(q, den);
        let rem = q % den;
        assert(q == den * k + rem);
        assert(lo <= s + k) by (nonlinear_arith)
            requires lo * den <= s * den + den * k + rem, 0 <= rem < den, den > 0;
        assert(s + k <= hi) by (nonlinear_arith)
            requires s * den + den * k + rem <= hi * den, 0 <= rem, den > 0;
    } else {
        let q = (-d) * num;
        assert((-d) * num >= 0) by (nonlinear_arith) requires d < 0, num >= 0;
        assert(d * num == -((-d) * num)) by (nonlinear_arith);
        let k = q / den;
        vstd::arithmetic::div_mod::lemma_fundamental_div_mod(q, den);
        vstd::arithmetic::div_mod::lemma_mod_pos_bound(q, den);
        let rem = q % den;
        assert(q == den * k + rem);
        assert(s - k <= hi) by (nonlinear_arith)
            requires s * den - (den * k + rem) <= hi * den, 0 <= rem < den, den > 0;
        assert(lo <= s - k) by (nonlinear_arith)
            requires lo * den <= s * den - (den * k + rem), 0 <= rem, den > 0;
    }
}

fn coord_of(v: Vec3, k: usize) -> (r: i64)
    requires
        k < 3,
    ensures
        r == coord(v, k as int),
{
    if k == 0 {
        v.x
    } else if k == 1 {
        v.y
    } else {
        v.z
    }
}

fn face_normal_of(f: usize) -> (r: Vec3)
    requires
        f < 6,
    ensures
        is_face_normal(r, f as int),
{
    let sign: i64 = if f % 2 == 0 { -1000 } else { 1000 };
    if f / 2 == 0 {
        Vec3 { x: sign, y: 0, z: 0 }
    } else if f / 2 == 1 {
        Vec3 { x: 0, y: sign, z: 0 }
    } else {
        Vec3 { x: 0, y: 0, z: sign }
    }
}

/// `a · b`, exactly, for factors no larger than twice the coordinate limit.
fn mul_exact(a: i64, b: i64) -> (r: i128)
    requires
        abs(a as int) <= 2_000_000_000,
        abs(b as int) <= 2_000_000_000,
    ensures
        r == a * b,
{
    proof {
        lemma_mul_bounded(a as int, b as int, 2_000_000_000, 2_000_000_000);
    }
    (a as i128) * (b as i128)
}

/// First point where the segment from `start` to `end` meets the box, by the
/// slab method: per axis, the parameters at which the segment enters and
/// leaves that axis's slab narrow a common interval, which starts as [0, 1].
/// The entry face is the one whose entering bound is the tightest.
pub fn check_line_cube_intersection(
    start: Vec3,
    end: Vec3,
    cube: &AxisBox,
    cube_id: u32,
    time: i64,
) -> (r: Option<BoxHit>)
    requires
        start.bounded(),
        end.bounded(),
        cube.wf(),
    ensures
        r.is_some() == meets_box(start, end, *cube),
        r.is_some() ==> is_box_hit(r.unwrap(), start, end, *cube, cube_id, time),
        r.is_some() ==> r.unwrap().entry_face < 6 && cube.contains(r.unwrap().position),
{
    let mut t_min_num: i64 = 0;
    let mut t_min_den: i64 = 1;
    let mut t_max_num: i64 = 1;
    let mut t_max_den: i64 = 1;
    let mut face: usize = 0;
    let mut k: usize = 0;
    while k < 3
        invariant
            start.bounded(),
            end.bounded(),
            cube.wf(),
            k <= 3,
            slab_after(start, end, *cube, k as nat) == (
                true,
                t_min_num as int,
                t_min_den as int,
                t_max_num as int,
                t_max_den as int,
                face as int,
            ),
            0 <= t_min_num <= 2_000_000_000,
            0 < t_min_den <= 2_000_000_000,
            0 <= t_max_num <= 2_000_000_000,
            0 < t_max_den <= 2_000_000_000,
            t_min_num * t_max_den <= t_max_num * t_min_den,
            t_max_num <= t_max_den,
            face < 6,
        decreases 3 - k,
    {
        let s = coord_of(start, k);
        let d = coord_of(end, k) - s;
        let lo = coord_of(cube.min, k);
        let hi = coord_of(cube.max, k);
        if d == 0 {
            if s < lo || s > hi {
                proof {
                    assert(!slab_after(start, end, *cube, (k + 1) as nat).0);
                    assert forall|j: nat| j >= k + 1 && j <= 3 implies !slab_after(start, end, *cube, j).0 by {
                        lemma_slab_stays_refused(start, end, *cube, (k + 1) as nat, j);
                    }
                }
                return None;
            }
        } else {
            let den = if d > 0 { d } else { -d };
            let enter = if d > 0 { lo - s } else { s - hi };
            let leave = if d > 0 { hi - s } else { s - lo };
            let tighter_enter = mul_exact(enter, t_min_den) > mul_exact(t_min_num, den);
            let tighter_leave = mul_exact(leave, t_max_den) < mul_exact(t_max_num, den);
            proof {
                lemma_enter_nonneg(enter as int, t_min_num as int, t_min_den as int, den as int);
                lemma_leave_below_one(leave as int, den as int, t_max_num as int, t_max_den as int);
            }
            if tighter_enter {
                t_min_num = enter;
                t_min_den = den;
                face = 2 * k + if d < 0 { 1 } else { 0 };
            }
            if tighter_leave {
                t_max_num = leave;
                t_max_den = den;
            }
            if mul_exact(t_min_num, t_max_den) > mul_exact(t_max_num, t_min_den) {
                proof {
                    assert forall|j: nat| j >= k + 1 && j <= 3 implies !slab_after(start, end, *cube, j).0 by {
                        lemma_slab_stays_refused(start, end, *cube, (k + 1) as nat, j);
                    }
                }
                return None;
            }
            proof {
                lemma_upper_nonneg(t_min_num as int, t_min_den as int, t_max_num as int, t_max_den as int);
            }
        }
        k = k + 1;
    }
    proof {
        lemma_fraction_at_most_one(t_min_num as int, t_min_den as int, t_max_num as int, t_max_den as int);
    }
    let px = start.x + scale_by_fraction(end.x - start.x, t_min_num as i128, t_min_den as i128);
    let py = start.y + scale_by_fraction(end.y - start.y, t_min_num as i128, t_min_den as i128);
    let pz = start.z + scale_by_fraction(end.z - start.z, t_min_num as i128, t_min_den as i128);
    proof {
        lemma_box_hit_in_box(start, end, *cube);
        assert(within_slab(start, end, *cube, t_min_num as int, t_min_den as int, 0));
        assert(within_slab(start, end, *cube, t_min_num as int, t_min_den as int, 1));
        assert(within_slab(start, end, *cube, t_min_num as int, t_min_den as int, 2));
        lemma_rounded_within(start.x as int, end.x - start.x, cube.min.x as int, cube.max.x as int, t_min_num as int, t_min_den as int);
        lemma_rounded_within(start.y as int, end.y - start.y, cube.min.y as int, cube.max.y as int, t_min_num as int, t_min_den as int);
        lemma_rounded_within(start.z as int, end.z - start.z, cube.min.z as int, cube.max.z as int, t_min_num as int, t_min_den as int);
    }
    Some(BoxHit {
        position: Vec3 { x: px, y: py, z: pz },
        normal: face_normal_of(face),
        entry_face: face,
        cube_id,
        time,
    })
}

proof fn lemma_slab_stays_refused(s: Vec3, e: Vec3, b: AxisBox, k: nat, j: nat)
    requires
        !slab_after(s, e, b, k).0,
        k <= j,
    ensures
        !slab_after(s, e, b, j).0,
    decreases j - k,
{
    if j > k {
        lemma_slab_stays_refused(s, e, b, k, (j - 1) as nat);
    }
}

proof fn lemma_enter_nonneg(enter: int, n: int, d: int, den: int)
    requires
        n >= 0,
        d > 0,
        den > 0,
    ensures
        enter * d > n * den ==> enter > 0,
{
    if enter <= 0 {
        assert(enter * d <= 0) by (nonlinear_arith)
            requires enter <= 0, d > 0;
        assert(n * den >= 0) by (nonlinear_arith)
            requires n >= 0, den > 0;
    }
}

proof fn lemma_leave_below_one(n: int, den: int, n2: int, d2: int)
    requires
        den > 0,
        0 < d2,
        n2 <= d2,
    ensures
        n * d2 < n2 * den ==> n < den,
{
    assert(n2 * den <= d2 * den) by (nonlinear_arith)
        requires n2 <= d2, den > 0;
    if n >= den {
        assert(n * d2 >= den * d2) by (nonlinear_arith)
            requires n >= den, d2 > 0;
    }
}

proof fn lemma_upper_nonneg(n1: int, d1: int, n2: int, d2: int)
    requires
        0 <= n1,
        0 < d1,
        0 < d2,
        n1 * d2 <= n2 * d1,
    ensures
        0 <= n2,
{
    assert(0 <= n1 * d2) by (nonlinear_arith)
        requires 0 <= n1, 0 < d2;
    if n2 < 0 {
        assert(n2 * d1 < 0) by (nonlinear_arith)
            requires n2 < 0, d1 > 0;
    }
}

proof fn lemma_fraction_at_most_one(n1: int, d1: int, n2: int, d2: int)
    requires
        0 <= n1,
        0 < d1,
        0 < d2,
        n1 * d2 <= n2 * d1,
        n2 <= d2,
    ensures
        n1 <= d1,
{
    assert(n2 * d1 <= d2 * d1) by (nonlinear_arith)
        requires n2 <= d2, d1 > 0;
    assert(n1 * d2 <= d1 * d2);
    assert(n1 <= d1) by (nonlinear_arith)
        requires n1 * d2 <= d1 * d2, d2 > 0;
}

} // verus!
