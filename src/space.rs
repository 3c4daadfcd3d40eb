use vstd::prelude::*;
use crate::geometry::{abs, dist2, floor_sqrt, int_sqrt, Vec3};
use crate::intersection::{dist2_exact, lemma_mul_bounded};

verus! {

/// Largest extent of the world box along any axis.
pub const WORLD_LIMIT: i64 = 500_000_000;

/// Distance used to normalise the perspective curves (200 world units).
pub const MAX_VIEW_DISTANCE: i64 = 200_000;

/// Within this distance of the observer the near-range curves apply.
pub const CLOSE_RANGE: i64 = 10_000;

/// Positions this close to the far plane are always visible.
pub const FAR_PLANE_TOLERANCE: i64 = 1_000;

/// Positions this far behind the observer are never visible.
pub const BEHIND_LIMIT: i64 = 30_000;

/// Positions this close to the observer are always visible.
pub const NEAR_RADIUS: i64 = 5_000;

/// Smallest depth used when projecting onto the viewport.
pub const MIN_PROJECTION_DEPTH: i64 = 10;

/// Depth at which the projected viewport is widened by a further 100%.
pub const NEAR_WIDENING: i64 = 5_000;

/// World box, observer and viewport of a simulation.
#[derive(Clone, Copy, Debug, PartialEq, Eq, Structural)]
pub struct SpaceDefinition {
    pub min_x: i64,
    pub max_x: i64,
    pub min_y: i64,
    pub max_y: i64,
    pub min_z: i64,
    /// Depth of the far plane, where objects appear.
    pub max_z: i64,
    /// Share of the world's width and height that the viewport covers.
    pub viewport_size_percent: i64,
    pub observer_position: Vec3,
    pub field_of_view_degrees: i64,
}

/// Extents of the world box.
pub open spec fn dimensions_of(s: SpaceDefinition) -> (int, int, int) {
    (s.max_x - s.min_x, s.max_y - s.min_y, s.max_z - s.min_z)
}

/// Width and height of the viewport.
pub open spec fn viewport_of(s: SpaceDefinition) -> (int, int) {
    (
        (s.max_x - s.min_x) * s.viewport_size_percent / 100,
        (s.max_y - s.min_y) * s.viewport_size_percent / 100,
    )
}

/// Distance from the observer, rounded down.
pub open spec fn observer_distance(s: SpaceDefinition, p: Vec3) -> int {
    int_sqrt(dist2(p, s.observer_position) as nat) as int
}

/// Whether an offset projected at depth `zd` falls inside the viewport
/// half-extent (three quarters of `extent`), widened near the observer.
pub open spec fn projects_within(offset: int, far: int, extent: int, zd: int) -> bool {
    4 * abs(offset) * far <= 3 * extent * (zd + NEAR_WIDENING)
}

/// Whether a position counts as on-screen.
pub open spec fn in_view(s: SpaceDefinition, p: Vec3) -> bool {
    let o = s.observer_position;
    let zd = if abs(p.z - o.z) > MIN_PROJECTION_DEPTH { abs(p.z - o.z) } else { MIN_PROJECTION_DEPTH as int };
    if abs(p.z - s.max_z) < FAR_PLANE_TOLERANCE {
        true
    } else if p.z - o.z < -BEHIND_LIMIT {
        false
    } else if dist2(p, o) < NEAR_RADIUS * NEAR_RADIUS {
        true
    } else {
        projects_within(p.x - o.x, s.max_z as int, viewport_of(s).0, zd)
            && projects_within(p.y - o.y, s.max_z as int, viewport_of(s).1, zd)
    }
}

/// Distance to the observer as thousandths of `MAX_VIEW_DISTANCE`, at most one.
pub open spec fn normalized_distance(d: int) -> int {
    if d / 200 < 1000 {
        d / 200
    } else {
        1000
    }
}

/// Size multiplier, in thousandths, of an object at distance `d`.
pub open spec fn scale_at(d: int) -> int {
    let base = 1000 - normalized_distance(d) * 4 / 5;
    if d < CLOSE_RANGE {
        base * (1100 + (1000 - d / 10) * 3 / 10) / 1000
    } else {
        base
    }
}

/// Opacity, in thousandths, of an object at distance `d`.
pub open spec fn transparency_at(d: int) -> int {
    let n = normalized_distance(d);
    if d < CLOSE_RANGE {
        400 + d / 25
    } else if n < 750 {
        1000
    } else if (1000 - n) * 4 > 1000 {
        1000
    } else {
        (1000 - n) * 4
    }
}

impl SpaceDefinition {
    pub open spec fn wf(self) -> bool {
        &&& -WORLD_LIMIT <= self.min_x < self.max_x <= WORLD_LIMIT
        &&& -WORLD_LIMIT <= self.min_y < self.max_y <= WORLD_LIMIT
        &&& -WORLD_LIMIT <= self.min_z < self.max_z <= WORLD_LIMIT
        &&& 0 < self.max_z
        &&& self.observer_position.z < self.max_z
        &&& 0 <= self.viewport_size_percent <= 100
        &&& self.observer_position.bounded()
    }

    /// The default world: 200 units a side, observer 25 units in front of
    /// the centre, the far plane at depth 100.
    pub fn new(viewport_size_percent: i64, field_of_view_degrees: i64) -> (r: SpaceDefinition)
        requires
            0 <= viewport_size_percent <= 100,
        ensures
            r.wf(),
            r.viewport_size_percent == viewport_size_percent,
            r.field_of_view_degrees == field_of_view_degrees,
            r.min_x == -100_000 && r.max_x == 100_000,
            r.min_y == -100_000 && r.max_y == 100_000,
            r.min_z == -100_000 && r.max_z == 100_000,
            r.observer_position.x == 0 && r.observer_position.y == 0,
            r.observer_position.z == -25_000,
    {
        SpaceDefinition {
            min_x: -100_000,
            max_x: 100_000,
            min_y: -100_000,
            max_y: 100_000,
            min_z: -100_000,
            max_z: 100_000,
            viewport_size_percent,
            observer_position: Vec3 { x: 0, y: 0, z: -25_000 },
            field_of_view_degrees,
        }
    }

    pub fn get_dimensions(&self) -> (r: Vec3)
        requires
            self.wf(),
        ensures
            r.x == dimensions_of(*self).0,
            r.y == dimensions_of(*self).1,
            r.z == dimensions_of(*self).2,
    {
        Vec3 { x: self.max_x - self.min_x, y: self.max_y - self.min_y, z: self.max_z - self.min_z }
    }

    /// Width and height of the viewport.
    pub fn get_viewport_dimensions(&self) -> (r: (i64, i64))
        requires
            self.wf(),
        ensures
            r.0 == viewport_of(*self).0,
            r.1 == viewport_of(*self).1,
            0 <= r.0 <= self.max_x - self.min_x,
            0 <= r.1 <= self.max_y - self.min_y,
    {
        let w = self.max_x - self.min_x;
        let h = self.max_y - self.min_y;
        proof {
            assert(w * self.viewport_size_percent <= w * 100) by (nonlinear_arith)
                requires w > 0, self.viewport_size_percent <= 100;
            assert(h * self.viewport_size_percent <= h * 100) by (nonlinear_arith)
                requires h > 0, self.viewport_size_percent <= 100;
            assert(0 <= w * self.viewport_size_percent) by (nonlinear_arith)
                requires w > 0, self.viewport_size_percent >= 0;
            assert(0 <= h * self.viewport_size_percent) by (nonlinear_arith)
                requires h > 0, self.viewport_size_percent >= 0;
        }
        (w * self.viewport_size_percent / 100, h * self.viewport_size_percent / 100)
    }

    /// Distance from the observer, rounded down.
    pub fn distance_to_observer(&self, p: Vec3) -> (r: i64)
        requires
            self.wf(),
            p.bounded(),
        ensures
            r == observer_distance(*self, p),
            0 <= r <= 4_000_000_000,
    {
        let d = floor_sqrt(dist2_exact(p, self.observer_position));
        proof {
            assert(d <= 4_000_000_000) by (nonlinear_arith)
                requires d * d <= 12_000_000_000_000_000_000, d >= 0;
        }
        d as i64
    }

    /// Whether `p` is on-screen: always on the far plane and close to the
    /// observer, never far behind the observer, and otherwise when its
    /// projection falls within the widened viewport.
    pub fn is_in_view_frustum(&self, p: Vec3) -> (r: bool)
        requires
            self.wf(),
            p.bounded(),
        ensures
            r == in_view(*self, p),
    {
        let o = self.observer_position;
        let dz = p.z - o.z;
        let far_gap = p.z - self.max_z;
        if (if far_gap < 0 { -far_gap } else { far_gap }) < FAR_PLANE_TOLERANCE {
            return true;
        }
        if dz < -BEHIND_LIMIT {
            return false;
        }
        if dist2_exact(p, o) < (NEAR_RADIUS * NEAR_RADIUS) as u64 {
            return true;
        }
        let (vw, vh) = self.get_viewport_dimensions();
        let adz = if dz < 0 { -dz } else { dz };
        let zd = if adz > MIN_PROJECTION_DEPTH { adz } else { MIN_PROJECTION_DEPTH };
        let ox = p.x - o.x;
        let oy = p.y - o.y;
        let ax = if ox < 0 { -ox } else { ox };
        let ay = if oy < 0 { -oy } else { oy };
        proof {
            lemma_mul_bounded(ax as int, self.max_z as int, 2_000_000_000, 1_000_000_000);
            lemma_mul_bounded(ay as int, self.max_z as int, 2_000_000_000, 1_000_000_000);
            lemma_mul_bounded(vw as int, zd + NEAR_WIDENING, 1_000_000_000, 2_000_010_000);
            lemma_mul_bounded(vh as int, zd + NEAR_WIDENING, 1_000_000_000, 2_000_010_000);
        }
        let lhs_x = 4 * ((ax as i128) * (self.max_z as i128));
        let rhs_x = 3 * ((vw as i128) * ((zd + NEAR_WIDENING) as i128));
        let lhs_y = 4 * ((ay as i128) * (self.max_z as i128));
        let rhs_y = 3 * ((vh as i128) * ((zd + NEAR_WIDENING) as i128));
        proof {
            assert(abs(p.x - o.x) == ax && abs(p.y - o.y) == ay);
            assert(4 * ax * self.max_z == 4 * (ax * self.max_z)) by (nonlinear_arith);
            assert(4 * ay * self.max_z == 4 * (ay * self.max_z)) by (nonlinear_arith);
            assert(3 * vw * (zd + 5000) == 3 * (vw * (zd + 5000))) by (nonlinear_arith);
            assert(3 * vh * (zd + 5000) == 3 * (vh * (zd + 5000))) by (nonlinear_arith);
        }
        lhs_x <= rhs_x && lhs_y <= rhs_y
    }

    /// Size multiplier, in thousandths: one at the observer falling to a
    /// fifth at `MAX_VIEW_DISTANCE` and beyond, with a boost of up to 1.4
    /// within `CLOSE_RANGE` so that nearing objects do not jump in size.
    pub fn get_scale_factor(&self, p: Vec3) -> (r: i64)
        requires
            self.wf(),
            p.bounded(),
        ensures
            r == scale_at(observer_distance(*self, p)),
            0 <= r <= 1400,
    {
        let d = self.distance_to_observer(p);
        let normalized = if d / 200 < 1000 { d / 200 } else { 1000 };
        let base = 1000 - normalized * 4 / 5;
        if d < CLOSE_RANGE {
            let close = 1100 + (1000 - d / 10) * 3 / 10;
            proof {
                assert(0 <= base * close <= 1000 * 1400) by (nonlinear_arith)
                    requires 0 <= base <= 1000, 0 <= close <= 1400;
                assert(base * close / 1000 <= 1400) by (nonlinear_arith)
                    requires 0 <= base * close <= 1000 * 1400;
            }
            base * close / 1000
        } else {
            base
        }
    }

    /// Opacity, in thousandths: rising from 0.4 to 0.8 within `CLOSE_RANGE`,
    /// full in the middle distance, and fading linearly to nothing over the
    /// last quarter of `MAX_VIEW_DISTANCE`.
    pub fn get_transparency_factor(&self, p: Vec3) -> (r: i64)
        requires
            self.wf(),
            p.bounded(),
        ensures
            r == transparency_at(observer_distance(*self, p)),
            0 <= r <= 1000,
    {
        let d = self.distance_to_observer(p);
        let n = if d / 200 < 1000 { d / 200 } else { 1000 };
        if d < CLOSE_RANGE {
            400 + d / 25
        } else if n < 750 {
            1000
        } else if (1000 - n) * 4 > 1000 {
            1000
        } else {
            (1000 - n) * 4
        }
    }
}

} // verus!
