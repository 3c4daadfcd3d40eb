use vstd::prelude::*;
use crate::geometry::{
    abs, dist2, dot_diff, floor_sqrt, int_sqrt, scale_by_fraction, scale_toward_zero,
    lemma_scaled_quotient_bounded, Vec3, COORD_LIMIT,
};

verus! {

/// How a motion segment met a plane.
#[derive(Clone, Copy, Debug, PartialEq, Eq, Structural)]
pub enum IntersectionType {
    Entry,
    Exit,
    Parallel,
    Contained,
}

/// A crossing of a plane by a moving object: where, through which face, and when.
#[derive(Clone, Copy, Debug, PartialEq, Eq, Structural)]
pub struct Intersection {
    pub position: Vec3,
    pub normal: Vec3,
    /// Distance from the segment's start to the crossing point.
    pub distance: i64,
    pub intersection_type: IntersectionType,
    pub object_id: u64,
    pub plane_id: u64,
    /// Milliseconds since the owning system started.
    pub time: i64,
}

/// A rectangle in space: centre, normal, and half-extents along x and y.
#[derive(Clone, Copy, Debug, PartialEq, Eq, Structural)]
pub struct Plane {
    pub position: Vec3,
    pub normal: Vec3,
    pub half_width: i64,
    pub half_height: i64,
    pub id: u64,
}

impl Plane {
    pub open spec fn wf(self) -> bool {
        &&& self.position.bounded()
        &&& self.normal.bounded()
        &&& 0 <= self.half_width <= COORD_LIMIT
        &&& 0 <= self.half_height <= COORD_LIMIT
    }
}

/// `n · (end − start)`: zero exactly when the segment runs parallel to the plane.
pub open spec fn crossing_den(s: Vec3, e: Vec3, p: Plane) -> int {
    dot_diff(p.normal, e, s)
}

/// `n · (position − start)`: the crossing parameter is this over `crossing_den`.
pub open spec fn crossing_num(s: Vec3, e: Vec3, p: Plane) -> int {
    dot_diff(p.normal, p.position, s)
}

/// Numerator of the crossing parameter, over the positive denominator below.
pub open spec fn fraction_num(s: Vec3, e: Vec3, p: Plane) -> int {
    if crossing_den(s, e, p) > 0 {
        crossing_num(s, e, p)
    } else {
        -crossing_num(s, e, p)
    }
}

pub open spec fn fraction_den(s: Vec3, e: Vec3, p: Plane) -> int {
    abs(crossing_den(s, e, p))
}

/// Whether `offset + dir · num / den` lies within `[-half, half]` (for `den > 0`).
pub open spec fn within_extent(offset: int, dir: int, num: int, den: int, half: int) -> bool {
    abs(offset * den + dir * num) <= half * den
}

/// Whether the segment from `s` to `e` meets the rectangle of `p`.
pub open spec fn crosses_plane(s: Vec3, e: Vec3, p: Plane) -> bool {
    let num = fraction_num(s, e, p);
    let den = fraction_den(s, e, p);
    &&& crossing_den(s, e, p) != 0
    &&& 0 <= num <= den
    &&& within_extent(s.x - p.position.x, e.x - s.x, num, den, p.half_width as int)
    &&& within_extent(s.y - p.position.y, e.y - s.y, num, den, p.half_height as int)
}

/// The record of the crossing of `p` by the segment from `s` to `e`.
pub open spec fn is_plane_crossing(
    r: Intersection,
    s: Vec3,
    e: Vec3,
    p: Plane,
    object_id: u64,
    time: i64,
) -> bool {
    let num = fraction_num(s, e, p);
    let den = fraction_den(s, e, p);
    &&& r.position.x == s.x + scale_toward_zero(e.x - s.x, num, den)
    &&& r.position.y == s.y + scale_toward_zero(e.y - s.y, num, den)
    &&& r.position.z == s.z + scale_toward_zero(e.z - s.z, num, den)
    &&& r.normal == p.normal
    &&& r.distance == (int_sqrt(dist2(e, s) as nat) * num) / den
    &&& r.intersection_type == (if crossing_den(s, e, p) > 0 {
        IntersectionType::Entry
    } else {
        IntersectionType::Exit
    })
    &&& r.object_id == object_id
    &&& r.plane_id == p.id
    &&& r.time == time
}

pub proof fn lemma_mul_bounded(a: int, b: int, ma: int, mb: int)
    requires
        abs(a) <= ma,
        abs(b) <= mb,
    ensures
        abs(a * b) <= ma * mb,
{
    assert(abs(a * b) == abs(a) * abs(b)) by (nonlinear_arith);
    assert(abs(a) * abs(b) <= ma * mb) by (nonlinear_arith)
        requires 0 <= abs(a) <= ma, 0 <= abs(b) <= mb;
}

/// `n · (a − b)` computed exactly.
pub fn dot_diff_exact(n: Vec3, a: Vec3, b: Vec3) -> (r: i128)
    requires
        n.bounded(),
        a.bounded(),
        b.bounded(),
    ensures
        r == dot_diff(n, a, b),
        abs(r as int) <= 6_000_000_000_000_000_000,
{
    proof {
        lemma_mul_bounded(n.x as int, a.x - b.x, 1_000_000_000, 2_000_000_000);
        lemma_mul_bounded(n.y as int, a.y - b.y, 1_000_000_000, 2_000_000_000);
        lemma_mul_bounded(n.z as int, a.z - b.z, 1_000_000_000, 2_000_000_000);
    }
    let tx = (n.x as i128) * ((a.x as i128) - (b.x as i128));
    let ty = (n.y as i128) * ((a.y as i128) - (b.y as i128));
    let tz = (n.z as i128) * ((a.z as i128) - (b.z as i128));
    tx + ty + tz
}

/// Squared distance between two bounded points, computed exactly.
pub fn dist2_exact(a: Vec3, b: Vec3) -> (r: u64)
    requires
        a.bounded(),
        b.bounded(),
    ensures
        r == dist2(a, b),
        r <= 12_000_000_000_000_000_000,
{
    proof {
        lemma_mul_bounded(a.x - b.x, a.x - b.x, 2_000_000_000, 2_000_000_000);
        lemma_mul_bounded(a.y - b.y, a.y - b.y, 2_000_000_000, 2_000_000_000);
        lemma_mul_bounded(a.z - b.z, a.z - b.z, 2_000_000_000, 2_000_000_000);
        assert((a.x - b.x) * (a.x - b.x) >= 0) by (nonlinear_arith);
        assert((a.y - b.y) * (a.y - b.y) >= 0) by (nonlinear_arith);
        assert((a.z - b.z) * (a.z - b.z) >= 0) by (nonlinear_arith);
    }
    let dx = (a.x as i128) - (b.x as i128);
    let dy = (a.y as i128) - (b.y as i128);
    let dz = (a.z as i128) - (b.z as i128);
    (dx * dx + dy * dy + dz * dz) as u64
}

/// Whether `offset + dir · num / den` lies within `[-half, half]`, computed exactly.
fn within_extent_exact(offset: i64, dir: i64, num: i128, den: i128, half: i64) -> (r: bool)
    requires
        abs(offset as int) <= 2_000_000_000,
        abs(dir as int) <= 2_000_000_000,
        0 <= num <= den <= 6_000_000_000_000_000_000,
        0 <= half <= COORD_LIMIT,
    ensures
        r == within_extent(offset as int, dir as int, num as int, den as int, half as int),
{
    proof {
        lemma_mul_bounded(offset as int, den as int, 2_000_000_000, 6_000_000_000_000_000_000);
        lemma_mul_bounded(dir as int, num as int, 2_000_000_000, 6_000_000_000_000_000_000);
        lemma_mul_bounded(half as int, den as int, 1_000_000_000, 6_000_000_000_000_000_000);
    }
    let v = (offset as i128) * den + (dir as i128) * num;
    let m = if v < 0 { -v } else { v };
    m <= (half as i128) * den
}

/// Where, if anywhere, the segment from `start` to `end` crosses the
/// rectangle of `plane`. A segment parallel to the plane never crosses it;
/// one that moves along the normal enters, one that moves against it exits.
pub fn segment_plane_intersection(
    start: Vec3,
    end: Vec3,
    plane: &Plane,
    object_id: u64,
    time: i64,
) -> (r: Option<Intersection>)
    requires
        start.bounded(),
        end.bounded(),
        plane.wf(),
    ensures
        r.is_some() == crosses_plane(start, end, *plane),
        r.is_some() ==> is_plane_crossing(r.unwrap(), start, end, *plane, object_id, time),
{
    let dot = dot_diff_exact(plane.normal, end, start);
    if dot == 0 {
        return None;
    }
    let dot_start = dot_diff_exact(plane.normal, plane.position, start);
    let (num, den) = if dot > 0 { (dot_start, dot) } else { (-dot_start, -dot) };
    if num < 0 || num > den {
        return None;
    }
    let inside_x = within_extent_exact(
        start.x - plane.position.x, end.x - start.x, num, den, plane.half_width);
    let inside_y = within_extent_exact(
        start.y - plane.position.y, end.y - start.y, num, den, plane.half_height);
    if !inside_x || !inside_y {
        return None;
    }
    let px = start.x + scale_by_fraction(end.x - start.x, num, den);
    let py = start.y + scale_by_fraction(end.y - start.y, num, den);
    let pz = start.z + scale_by_fraction(end.z - start.z, num, den);
    let length = floor_sqrt(dist2_exact(end, start));
    proof {
        assert(length <= 4_000_000_000) by (nonlinear_arith)
            requires length * length <= 12_000_000_000_000_000_000, length >= 0;
        lemma_scaled_quotient_bounded(length as int, num as int, den as int);
    }
    let distance = scale_by_fraction(length as i64, num, den);
    let intersection_type = if dot > 0 { IntersectionType::Entry } else { IntersectionType::Exit };
    Some(Intersection {
        position: Vec3 { x: px, y: py, z: pz },
        normal: plane.normal,
        distance,
        intersection_type,
        object_id,
        plane_id: plane.id,
        time,
    })
}

/// Most records a history keeps.
pub const HISTORY_CAPACITY: usize = 100;

/// `h` with `x` appended, its oldest record dropped if that overflows the capacity.
pub open spec fn bounded_append(h: Seq<Intersection>, x: Intersection) -> Seq<Intersection> {
    if h.len() < HISTORY_CAPACITY {
        h.push(x)
    } else {
        h.push(x).drop_first()
    }
}

/// `h` after appending each of `xs` in turn.
pub open spec fn append_all(h: Seq<Intersection>, xs: Seq<Intersection>) -> Seq<Intersection>
    decreases xs.len(),
{
    if xs.len() == 0 {
        h
    } else {
        bounded_append(append_all(h, xs.drop_last()), xs.last())
    }
}

/// The last `HISTORY_CAPACITY` records of `s` (all of them if there are fewer).
pub open spec fn latest(s: Seq<Intersection>) -> Seq<Intersection> {
    if s.len() <= HISTORY_CAPACITY {
        s
    } else {
        s.subrange(s.len() - HISTORY_CAPACITY, s.len() as int)
    }
}

/// Crossings recorded so far, oldest first, at most `HISTORY_CAPACITY` of them.
pub struct IntersectionHistory {
    entries: Vec<Intersection>,
}

impl View for IntersectionHistory {
    type V = Seq<Intersection>;

    closed spec fn view(&self) -> Seq<Intersection> {
        self.entries@
    }
}

/// A history never holds more than its capacity, and after any run of appends
/// it holds exactly the latest records in the order they came, oldest first.
pub proof fn lemma_history_keeps_latest(h: Seq<Intersection>, xs: Seq<Intersection>)
    requires
        h.len() <= HISTORY_CAPACITY,
    ensures
        append_all(h, xs).len() <= HISTORY_CAPACITY,
        append_all(h, xs) == latest(h + xs),
    decreases xs.len(),
{
    if xs.len() > 0 {
        let prefix = xs.drop_last();
        lemma_history_keeps_latest(h, prefix);
        let a = append_all(h, prefix);
        assert(h + xs == (h + prefix).push(xs.last()));
        let whole = h + prefix;
        if whole.len() < HISTORY_CAPACITY {
            assert(a == whole);
        } else {
            let next = whole.push(xs.last());
            assert(bounded_append(a, xs.last()) =~= latest(next));
        }
    } else {
        assert(h + xs =~= h);
    }
}

impl IntersectionHistory {
    pub open spec fn wf(&self) -> bool {
        self@.len() <= HISTORY_CAPACITY
    }

    pub fn new() -> (r: IntersectionHistory)
        ensures
            r.wf(),
            r@ == Seq::<Intersection>::empty(),
    {
        IntersectionHistory { entries: Vec::new() }
    }

    pub fn len(&self) -> (r: usize)
        ensures
            r == self@.len(),
    {
        self.entries.len()
    }

    /// Appends `x`, dropping the oldest record when the history is full.
    pub fn push(&mut self, x: Intersection)
        requires
            old(self).wf(),
        ensures
            final(self).wf(),
            final(self)@ == bounded_append(old(self)@, x),
    {
        self.entries.push(x);
        if self.entries.len() > HISTORY_CAPACITY {
            self.entries.remove(0);
            assert(self@ =~= bounded_append(old(self)@, x));
        }
    }

    /// Up to `max_count` records, the most recent first.
    pub fn recent(&self, max_count: usize) -> (r: Vec<Intersection>)
        ensures
            r@.len() == if max_count < self@.len() { max_count as int } else { self@.len() as int },
            forall|i: int| 0 <= i < r@.len() ==> r@[i] == self@[self@.len() - 1 - i],
    {
        let n = self.entries.len();
        let count = if max_count < n { max_count } else { n };
        let mut out: Vec<Intersection> = Vec::new();
        let mut i: usize = 0;
        while i < count
            invariant
                count <= n == self@.len(),
                i <= count,
                out@.len() == i,
                forall|j: int| 0 <= j < i ==> out@[j] == self@[n - 1 - j],
            decreases count - i,
        {
            out.push(self.entries[n - 1 - i]);
            i = i + 1;
        }
        out
    }

    /// Checks the segment against `plane` and records the crossing, if any.
    pub fn record_crossing(
        &mut self,
        start: Vec3,
        end: Vec3,
        plane: &Plane,
        object_id: u64,
        time: i64,
    ) -> (r: Option<Intersection>)
        requires
            old(self).wf(),
            start.bounded(),
            end.bounded(),
            plane.wf(),
        ensures
            final(self).wf(),
            r.is_some() == crosses_plane(start, end, *plane),
            r.is_some() ==> is_plane_crossing(r.unwrap(), start, end, *plane, object_id, time),
            final(self)@ == match r {
                Some(x) => bounded_append(old(self)@, x),
                None => old(self)@,
            },
    {
        let r = segment_plane_intersection(start, end, plane, object_id, time);
        if let Some(x) = r {
            self.push(x);
        }
        r
    }
}

} // verus!
