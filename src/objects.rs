use vstd::prelude::*;
use rand::rngs::StdRng;
use crate::effects::{Color, MAX_STEP_MS};
use crate::geometry::{abs, int_sqrt, scale_by_fraction, scale_toward_zero, Vec3};
use crate::motion::{
    clamp_lateral, clamps_lateral, displacement, integrate, lateral2, rescale_velocity,
    scales_velocity, speed2, speed_bounded, speed_of, SPEED_LIMIT, ceil_sqrt, lemma_square_monotone,
};
use crate::random::draw_range;
use crate::space::{observer_distance, scale_at, transparency_at, SpaceDefinition};

verus! {

/// Largest magnitude of an object's coordinate.
pub const POSITION_LIMIT: i64 = 600_000_000;

/// Largest size of an object, in thousandths of a unit.
pub const MAX_SIZE: i64 = 1_000_000;

/// Longest lifetime of an object, and longest spawn delay, in milliseconds.
pub const LIFETIME_LIMIT: i64 = 3_600_000;

/// Largest speed gain of an object, in thousandths of a unit per second squared.
pub const ACCELERATION_LIMIT: i64 = 10_000_000;

/// Most trail particles an object owns.
pub const TRAIL_CAPACITY: usize = 100;

/// Longest lifetime of a trail particle, in milliseconds.
pub const PARTICLE_LIFETIME_LIMIT: i64 = 2_000;

/// Distance from the observer within which approaching objects speed up.
pub const BOOST_RANGE: i64 = 50_000;

/// Age, in milliseconds, over which a newly active object fades in.
pub const FADE_IN_MS: i64 = 1_000;

/// Opacity at or below which a faded-in object is removed.
pub const VANISHED_OPACITY: i64 = 10;

/// Spin of every object, in thousandths of a radian per second, per axis.
pub const SPIN_X: i64 = 100;
pub const SPIN_Y: i64 = 70;
pub const SPIN_Z: i64 = 30;

/// One full turn in thousandths of a radian.
pub const FULL_TURN: i64 = 6_283;

#[derive(Clone, Copy, Debug, PartialEq, Eq, Structural)]
pub enum SpaceObjectType {
    NeonComet,
    PolygonalCrystal,
    EnergySphere,
}

/// A short-lived particle left behind a comet.
#[derive(Clone, Copy, Debug, PartialEq, Eq, Structural)]
pub struct TrailParticle {
    pub position: Vec3,
    pub velocity: Vec3,
    /// Milliseconds left.
    pub lifetime: i64,
    pub max_lifetime: i64,
    pub size: i64,
    pub initial_size: i64,
    pub color: Color,
    /// `lifetime / max_lifetime`, in thousandths.
    pub fade_factor: i64,
}

/// Whether coordinate `c` stays within the geometry limit while moving at
/// the largest speed for `lifetime` more milliseconds.
pub open spec fn coord_has_room(c: int, lifetime: int) -> bool {
    abs(c) + lifetime * 100_000 <= 1_000_000_000
}

impl TrailParticle {
    pub open spec fn wf(self) -> bool {
        &&& speed_bounded(self.velocity)
        &&& 0 < self.lifetime <= self.max_lifetime <= PARTICLE_LIFETIME_LIMIT
        &&& coord_has_room(self.position.x as int, self.lifetime as int)
        &&& coord_has_room(self.position.y as int, self.lifetime as int)
        &&& coord_has_room(self.position.z as int, self.lifetime as int)
        &&& 0 <= self.fade_factor <= 1000
        &&& self.fade_factor == self.lifetime * 1000 / (self.max_lifetime as int)
        &&& 0 <= self.size <= MAX_SIZE
        &&& 0 <= self.initial_size <= MAX_SIZE
        &&& self.color.wf()
    }
}

/// Whether `r` is `p` moved and aged by `dt` milliseconds.
pub open spec fn is_moved_particle(r: TrailParticle, p: TrailParticle, dt: int) -> bool {
    &&& r.position.x == p.position.x + displacement(p.velocity.x as int, dt)
    &&& r.position.y == p.position.y + displacement(p.velocity.y as int, dt)
    &&& r.position.z == p.position.z + displacement(p.velocity.z as int, dt)
    &&& r.lifetime == p.lifetime - dt
    &&& r.fade_factor == (p.lifetime - dt) * 1000 / (p.max_lifetime as int)
    &&& r.velocity == p.velocity
    &&& r.max_lifetime == p.max_lifetime
    &&& r.size == p.size
    &&& r.initial_size == p.initial_size
    &&& r.color == p.color
}

/// Whether `r` is the trail `s` after `dt` milliseconds: each particle moved
/// and aged, those whose lifetime ran out dropped, the order kept.
pub open spec fn is_advanced_trail(r: Seq<TrailParticle>, s: Seq<TrailParticle>, dt: int) -> bool
    decreases s.len(),
{
    if s.len() == 0 {
        r.len() == 0
    } else if s.last().lifetime - dt > 0 {
        &&& r.len() > 0
        &&& is_moved_particle(r.last(), s.last(), dt)
        &&& is_advanced_trail(r.drop_last(), s.drop_last(), dt)
    } else {
        is_advanced_trail(r, s.drop_last(), dt)
    }
}

/// The particle `p` moved and aged by `dt` milliseconds.
fn moved_particle(p: TrailParticle, dt: i64) -> (r: TrailParticle)
    requires
        p.wf(),
        0 <= dt <= MAX_STEP_MS,
        p.lifetime - dt > 0,
    ensures
        r.wf(),
        is_moved_particle(r, p, dt as int),
{
    let position = integrate(p.position, p.velocity, dt);
    let lifetime = p.lifetime - dt;
    proof {
        assert(0 <= lifetime * 1000 <= p.max_lifetime * 1000) by (nonlinear_arith)
            requires 0 < lifetime <= p.max_lifetime;
    }
    let fade_factor = lifetime * 1000 / p.max_lifetime;
    proof {
        lemma_ratio_at_most_thousand(lifetime as int, p.max_lifetime as int);
    }
    let r = TrailParticle { position, lifetime, fade_factor, ..p };
    proof {
        lemma_displacement_budget(p.velocity.x as int, dt as int);
        lemma_displacement_budget(p.velocity.y as int, dt as int);
        lemma_displacement_budget(p.velocity.z as int, dt as int);
    }
    r
}

proof fn lemma_ratio_at_most_thousand(part: int, whole: int)
    requires
        0 <= part <= whole,
        whole > 0,
    ensures
        0 <= part * 1000 / whole <= 1000,
{
    assert(part * 1000 <= 1000 * whole) by (nonlinear_arith)
        requires 0 <= part <= whole;
    vstd::arithmetic::div_mod::lemma_div_is_ordered(part * 1000, 1000 * whole, whole);
    vstd::arithmetic::div_mod::lemma_div_multiples_vanish(1000, whole);
    vstd::arithmetic::div_mod::lemma_div_pos_is_pos(part * 1000, whole);
}

proof fn lemma_displacement_budget(v: int, dt: int)
    requires
        -SPEED_LIMIT <= v <= SPEED_LIMIT,
        0 <= dt <= 1000,
    ensures
        abs(displacement(v, dt)) <= dt * 100_000,
{
    let a = abs(v);
    assert(a * dt <= 100_000_000 * dt) by (nonlinear_arith)
        requires 0 <= a <= 100_000_000, dt >= 0;
    assert(0 <= a * dt) by (nonlinear_arith)
        requires a >= 0, dt >= 0;
    vstd::arithmetic::div_mod::lemma_div_is_ordered(a * dt, 100_000_000 * dt, 1000);
    assert((100_000_000 * dt) / 1000 == dt * 100_000);
    vstd::arithmetic::div_mod::lemma_div_pos_is_pos(a * dt, 1000);
}

/// Moves and ages every particle of `trail` by `dt` milliseconds and drops
/// those whose lifetime has run out.
pub fn advance_trail(trail: &Vec<TrailParticle>, dt: i64) -> (r: Vec<TrailParticle>)
    requires
        0 <= dt <= MAX_STEP_MS,
        forall|i: int| 0 <= i < trail@.len() ==> trail@[i].wf(),
    ensures
        is_advanced_trail(r@, trail@, dt as int),
        r@.len() <= trail@.len(),
        forall|i: int| 0 <= i < r@.len() ==> r@[i].wf(),
{
    let mut out: Vec<TrailParticle> = Vec::new();
    let mut i: usize = 0;
    while i < trail.len()
        invariant
            0 <= dt <= MAX_STEP_MS,
            i <= trail@.len(),
            forall|j: int| 0 <= j < trail@.len() ==> trail@[j].wf(),
            is_advanced_trail(out@, trail@.subrange(0, i as int), dt as int),
            out@.len() <= i,
            forall|j: int| 0 <= j < out@.len() ==> out@[j].wf(),
        decreases trail@.len() - i,
    {
        let p = trail[i];
        let ghost before = out@;
        proof {
            assert(trail@.subrange(0, i + 1).drop_last() =~= trail@.subrange(0, i as int));
            assert(trail@.subrange(0, i + 1).last() == p);
        }
        if p.lifetime - dt > 0 {
            let m = moved_particle(p, dt);
            out.push(m);
            proof {
                assert(out@.drop_last() =~= before);
            }
        }
        i = i + 1;
    }
    proof {
        assert(trail@.subrange(0, trail@.len() as int) =~= trail@);
    }
    out
}

/// A simulated object flying from the far plane toward the observer.
pub struct SpaceObject {
    pub id: u64,
    pub object_type: SpaceObjectType,
    pub position: Vec3,
    /// Thousandths of a unit per second.
    pub velocity: Vec3,
    /// Speed gain, in thousandths of a unit per second squared.
    pub acceleration: i64,
    pub max_speed: i64,
    /// Euler angles in thousandths of a radian.
    pub rotation: Vec3,
    pub size: i64,
    pub target_size: i64,
    /// Size gained per second.
    pub growth_rate: i64,
    /// Perspective size multiplier, in thousandths.
    pub scale: i64,
    /// Opacity, in thousandths.
    pub opacity: i64,
    /// Milliseconds since activation; negative while waiting to appear.
    pub age: i64,
    pub max_lifetime: i64,
    pub active: bool,
    pub passed_plane: bool,
    /// Share of the far-plane-to-observer depth covered, in thousandths.
    pub distance_traveled_ratio: i64,
    pub color: Color,
    /// Where the object leaves the picture, across the depth axis.
    pub exit_x: i64,
    pub exit_y: i64,
    pub trail: Vec<TrailParticle>,
}

pub open spec fn position_bounded(p: Vec3) -> bool {
    &&& -POSITION_LIMIT <= p.x <= POSITION_LIMIT
    &&& -POSITION_LIMIT <= p.y <= POSITION_LIMIT
    &&& -POSITION_LIMIT <= p.z <= POSITION_LIMIT
}

impl SpaceObject {
    pub open spec fn wf(&self) -> bool {
        &&& position_bounded(self.position)
        &&& speed_bounded(self.velocity)
        &&& 0 <= self.acceleration <= ACCELERATION_LIMIT
        &&& 0 <= self.max_speed <= SPEED_LIMIT
        &&& 0 <= self.rotation.x < FULL_TURN
        &&& 0 <= self.rotation.y < FULL_TURN
        &&& 0 <= self.rotation.z < FULL_TURN
        &&& 0 <= self.size <= self.target_size <= MAX_SIZE
        &&& 0 <= self.growth_rate <= MAX_SIZE
        &&& 0 <= self.scale <= 1400
        &&& 0 <= self.opacity <= 1000
        &&& -LIFETIME_LIMIT <= self.age <= 2 * LIFETIME_LIMIT + MAX_STEP_MS
        &&& 0 <= self.max_lifetime <= 2 * LIFETIME_LIMIT
        &&& !self.passed_plane ==> self.max_lifetime <= LIFETIME_LIMIT
        &&& 0 <= self.distance_traveled_ratio <= 1000
        &&& self.color.wf()
        &&& self.trail@.len() <= TRAIL_CAPACITY
        &&& forall|i: int| 0 <= i < self.trail@.len() ==> self.trail@[i].wf()
    }

    /// Whether the object is still waiting to appear.
    pub open spec fn dormant(&self) -> bool {
        self.age < 0
    }
}

/// Speed-up factor, in thousandths, of an object at `p` moving with `v`:
/// up to 1.5 within `BOOST_RANGE` of the observer while approaching it.
pub open spec fn approach_boost(s: SpaceDefinition, p: Vec3, v: Vec3) -> int {
    let d = observer_distance(s, p);
    if p.z - s.observer_position.z > 0 && v.z < 0 && d < BOOST_RANGE {
        1000 + (BOOST_RANGE - d) / 100
    } else {
        1000
    }
}

/// Speed after `dt` milliseconds of acceleration, capped at `max_speed`.
pub open spec fn shaped_speed(current: int, acceleration: int, dt: int, boost: int, max_speed: int) -> int {
    let gained = current + acceleration * dt * boost / 1_000_000;
    if gained < max_speed {
        gained
    } else {
        max_speed
    }
}

/// Lateral speed limit: the configured maximum, lowered so that crossing
/// twice the viewport width takes at least `min_visible_ms`.
pub open spec fn lateral_limit(s: SpaceDefinition, max_lateral: int, min_visible_ms: int) -> int {
    let width = 2 * ((s.max_x - s.min_x) * s.viewport_size_percent / 100);
    let visible = width * 1000 / min_visible_ms;
    if visible < max_lateral {
        visible
    } else {
        max_lateral
    }
}

/// Whether `r` is the velocity after one step from `v`: speed shaped toward
/// the cap, then the lateral part limited.
pub open spec fn is_shaped_velocity(
    r: Vec3,
    v: Vec3,
    o: SpaceObject,
    s: SpaceDefinition,
    dt: int,
    max_lateral: int,
    min_visible_ms: int,
) -> bool {
    let current = ceil_sqrt(speed2(v) as nat);
    let limit = lateral_limit(s, max_lateral, min_visible_ms);
    if current > 0 {
        let target = shaped_speed(current, o.acceleration as int, dt,
            approach_boost(s, o.position, v), o.max_speed as int);
        exists|w: Vec3| scales_velocity(w, v, target, current) && clamps_lateral(r, w, limit)
    } else {
        clamps_lateral(r, v, limit)
    }
}

/// Size after `dt` milliseconds of growth, capped at the target size.
pub open spec fn grown_size(size: int, growth_rate: int, target: int, dt: int) -> int {
    let g = size + growth_rate * dt / 1000;
    if g < target {
        g
    } else {
        target
    }
}

/// Opacity of an active object of the given age at distance `d` from the observer.
pub open spec fn opacity_at(age: int, d: int) -> int {
    if age < FADE_IN_MS {
        age
    } else {
        transparency_at(d)
    }
}

/// Angle `a` turned by `spin · dt`, within one full turn.
pub open spec fn turned(a: int, spin: int, dt: int) -> int {
    (a + spin * dt / 1000) % (FULL_TURN as int)
}

/// Share of the far-plane-to-observer depth covered at depth `z`, in thousandths.
pub open spec fn traveled_ratio(s: SpaceDefinition, z: int) -> int {
    let total = s.max_z - s.observer_position.z;
    let covered = s.max_z - z;
    if total <= 0 || covered <= 0 {
        0
    } else if covered >= total {
        1000
    } else {
        covered * 1000 / total
    }
}

fn turn(a: i64, spin: i64, dt: i64) -> (r: i64)
    requires
        0 <= a < FULL_TURN,
        0 <= spin <= 1000,
        0 <= dt <= MAX_STEP_MS,
    ensures
        r == turned(a as int, spin as int, dt as int),
        0 <= r < FULL_TURN,
{
    proof {
        assert(0 <= spin * dt <= 1_000_000) by (nonlinear_arith)
            requires 0 <= spin <= 1000, 0 <= dt <= 1000;
    }
    (a + spin * dt / 1000) % FULL_TURN
}

fn traveled_ratio_of(s: &SpaceDefinition, z: i64) -> (r: i64)
    requires
        s.wf(),
        -POSITION_LIMIT <= z <= POSITION_LIMIT,
    ensures
        r == traveled_ratio(*s, z as int),
        0 <= r <= 1000,
{
    let total = s.max_z - s.observer_position.z;
    let covered = s.max_z - z;
    if total <= 0 || covered <= 0 {
        0
    } else if covered >= total {
        1000
    } else {
        proof {
            assert(covered * 1000 <= total * 1000) by (nonlinear_arith)
                requires 0 < covered <= total;
            lemma_ratio_at_most_thousand(covered as int, total as int);
        }
        covered * 1000 / total
    }
}

/// Whether `p` lies within the largest world box.
pub open spec fn world_bounded(p: Vec3) -> bool {
    &&& -crate::space::WORLD_LIMIT <= p.x <= crate::space::WORLD_LIMIT
    &&& -crate::space::WORLD_LIMIT <= p.y <= crate::space::WORLD_LIMIT
    &&& -crate::space::WORLD_LIMIT <= p.z <= crate::space::WORLD_LIMIT
}

/// Whether an active object should leave the simulation: its lifetime is
/// over, it left the world box or went far behind the observer, or it has
/// faded out.
pub open spec fn expired(o: SpaceObject, s: SpaceDefinition) -> bool {
    let p = o.position;
    ||| o.age > o.max_lifetime
    ||| p.x < s.min_x || p.x > s.max_x
    ||| p.y < s.min_y || p.y > s.max_y
    ||| p.z < s.min_z || p.z > s.max_z
    ||| p.z - s.observer_position.z < -crate::space::BEHIND_LIMIT
    ||| (o.age >= FADE_IN_MS && o.opacity <= VANISHED_OPACITY)
}

/// Spawn chance of a trail particle per tick, in thousandths: 0.3 at full size.
pub open spec fn particle_chance(size: int, target_size: int) -> int {
    if target_size > 0 {
        size * 300 / target_size
    } else {
        0
    }
}

fn approach_boost_of(s: &SpaceDefinition, p: Vec3, v: Vec3) -> (r: i64)
    requires
        s.wf(),
        p.bounded(),
    ensures
        r == approach_boost(*s, p, v),
        1000 <= r <= 1500,
{
    if p.z - s.observer_position.z > 0 && v.z < 0 {
        let d = s.distance_to_observer(p);
        if d < BOOST_RANGE {
            return 1000 + (BOOST_RANGE - d) / 100;
        }
    }
    1000
}

fn lateral_limit_of(s: &SpaceDefinition, max_lateral: i64, min_visible_ms: i64) -> (r: i64)
    requires
        s.wf(),
        0 <= max_lateral <= SPEED_LIMIT,
        0 < min_visible_ms,
    ensures
        r == lateral_limit(*s, max_lateral as int, min_visible_ms as int),
        0 <= r <= max_lateral,
{
    let (vw, _vh) = s.get_viewport_dimensions();
    let width = 2 * vw;
    let visible = width * 1000 / min_visible_ms;
    if visible < max_lateral {
        visible
    } else {
        max_lateral
    }
}

/// Whether `n` is `o` after one step of `dt` milliseconds. While waiting
/// to appear only the age moves. Once active, the speed is shaped toward
/// its cap, the lateral speed limited, the object moves and grows, and its
/// scale, opacity, spin and travelled share follow its new place.
pub open spec fn is_stepped(
    n: SpaceObject,
    o: SpaceObject,
    space: SpaceDefinition,
    dt: int,
    max_lateral: int,
    min_visible_ms: int,
) -> bool {
    let d = observer_distance(space, n.position);
    &&& n.age == o.age + dt
    &&& o.age + dt < 0 ==> n == (SpaceObject { age: n.age, ..o })
    &&& o.age + dt >= 0 ==> {
        &&& is_shaped_velocity(n.velocity, o.velocity, o, space, dt, max_lateral, min_visible_ms)
        &&& lateral2(n.velocity) <= max_lateral * max_lateral
        &&& speed2(n.velocity) <= o.max_speed * o.max_speed
        &&& n.position.x == o.position.x + displacement(n.velocity.x as int, dt)
        &&& n.position.y == o.position.y + displacement(n.velocity.y as int, dt)
        &&& n.position.z == o.position.z + displacement(n.velocity.z as int, dt)
        &&& n.size == grown_size(o.size as int, o.growth_rate as int, o.target_size as int, dt)
        &&& n.scale == scale_at(d)
        &&& n.opacity == opacity_at(n.age as int, d)
        &&& n.rotation.x == turned(o.rotation.x as int, SPIN_X as int, dt)
        &&& n.rotation.y == turned(o.rotation.y as int, SPIN_Y as int, dt)
        &&& n.rotation.z == turned(o.rotation.z as int, SPIN_Z as int, dt)
        &&& n.distance_traveled_ratio == traveled_ratio(space, n.position.z as int)
        &&& n == (SpaceObject {
            age: n.age,
            velocity: n.velocity,
            position: n.position,
            size: n.size,
            scale: n.scale,
            opacity: n.opacity,
            rotation: n.rotation,
            distance_traveled_ratio: n.distance_traveled_ratio,
            ..o
        })
    }
}

/// Whether trail `r` is trail `s` advanced by `dt` milliseconds, with at
/// most one new particle emitted behind the object `o` at the end.
pub open spec fn is_trail_update(r: Seq<TrailParticle>, s: Seq<TrailParticle>, o: SpaceObject, dt: int) -> bool {
    exists|adv: Seq<TrailParticle>| {
        &&& is_advanced_trail(adv, s, dt)
        &&& (r == adv || (r.len() == adv.len() + 1 && r.drop_last() == adv
            && is_emitted_particle(r.last(), o)))
    }
}

impl SpaceObject {
    /// Advances the object by `dt` milliseconds (see `is_stepped`).
    pub fn step(&mut self, dt: i64, space: &SpaceDefinition, max_lateral: i64, min_visible_ms: i64)
        requires
            old(self).wf(),
            world_bounded(old(self).position),
            old(self).age <= old(self).max_lifetime,
            space.wf(),
            0 <= dt <= MAX_STEP_MS,
            0 <= max_lateral <= SPEED_LIMIT,
            0 < min_visible_ms,
        ensures
            final(self).wf(),
            is_stepped(*final(self), *old(self), *space, dt as int, max_lateral as int, min_visible_ms as int),
    {
        let age = self.age + dt;
        self.age = age;
        if age < 0 {
            return;
        }
        let v = self.velocity;
        let current = speed_of(v);
        let limit = lateral_limit_of(space, max_lateral, min_visible_ms);
        proof {
            assert(limit * limit <= max_lateral * max_lateral) by (nonlinear_arith)
                requires 0 <= limit <= max_lateral;
        }
        let shaped = if current > 0 {
            let boost = approach_boost_of(space, self.position, v);
            proof {
                assert(0 <= self.acceleration * dt <= ACCELERATION_LIMIT * MAX_STEP_MS) by (nonlinear_arith)
                    requires 0 <= self.acceleration <= ACCELERATION_LIMIT, 0 <= dt <= MAX_STEP_MS;
                assert(0 <= self.acceleration * dt * boost <= ACCELERATION_LIMIT * MAX_STEP_MS * 1500) by (nonlinear_arith)
                    requires 0 <= self.acceleration * dt <= ACCELERATION_LIMIT * MAX_STEP_MS, 1000 <= boost <= 1500;
            }
            let gained = current + self.acceleration * dt * boost / 1_000_000;
            let target = if gained < self.max_speed { gained } else { self.max_speed };
            let w = rescale_velocity(v, current, target);
            let r = clamp_lateral(w, limit);
            proof {
                assert(scales_velocity(w, v, target as int, current as int) && clamps_lateral(r, w, limit as int));
                lemma_square_monotone(r.x as int, w.x as int);
                lemma_square_monotone(r.y as int, w.y as int);
                assert(r.z == w.z);
                assert(target * target <= self.max_speed * self.max_speed) by (nonlinear_arith)
                    requires 0 <= target <= self.max_speed;
            }
            r
        } else {
            let r = clamp_lateral(v, limit);
            proof {
                lemma_square_monotone(r.x as int, v.x as int);
                lemma_square_monotone(r.y as int, v.y as int);
                assert(r.z == v.z);
                assert(0 <= self.max_speed * self.max_speed) by (nonlinear_arith);
            }
            r
        };
        self.velocity = shaped;
        self.position = integrate(self.position, shaped, dt);
        proof {
            lemma_displacement_budget(shaped.x as int, dt as int);
            lemma_displacement_budget(shaped.y as int, dt as int);
            lemma_displacement_budget(shaped.z as int, dt as int);
        }
        proof {
            assert(0 <= self.growth_rate * dt <= MAX_SIZE * MAX_STEP_MS) by (nonlinear_arith)
                requires 0 <= self.growth_rate <= MAX_SIZE, 0 <= dt <= MAX_STEP_MS;
            vstd::arithmetic::div_mod::lemma_div_pos_is_pos(self.growth_rate * dt, 1000);
        }
        let grown = self.size + self.growth_rate * dt / 1000;
        self.size = if grown < self.target_size { grown } else { self.target_size };
        self.scale = space.get_scale_factor(self.position);
        self.opacity = if age < FADE_IN_MS { age } else { space.get_transparency_factor(self.position) };
        self.rotation = Vec3 {
            x: turn(self.rotation.x, SPIN_X, dt),
            y: turn(self.rotation.y, SPIN_Y, dt),
            z: turn(self.rotation.z, SPIN_Z, dt),
        };
        self.distance_traveled_ratio = traveled_ratio_of(space, self.position.z);
    }

    /// Whether the object, once active, should leave the simulation.
    pub fn is_expired(&self, space: &SpaceDefinition) -> (r: bool)
        requires
            self.wf(),
            space.wf(),
        ensures
            r == expired(*self, *space),
    {
        let p = self.position;
        self.age > self.max_lifetime || p.x < space.min_x || p.x > space.max_x || p.y < space.min_y
            || p.y > space.max_y || p.z < space.min_z || p.z > space.max_z
            || p.z - space.observer_position.z < -crate::space::BEHIND_LIMIT
            || (self.age >= FADE_IN_MS && self.opacity <= VANISHED_OPACITY)
    }

    /// Ages the trail by `dt` milliseconds and, by chance growing with the
    /// object's size, emits a new particle behind the object.
    pub fn update_trail(&mut self, dt: i64, rng: &mut StdRng)
        requires
            old(self).wf(),
            0 <= dt <= MAX_STEP_MS,
        ensures
            final(self).wf(),
            *final(self) == (SpaceObject { trail: final(self).trail, ..*old(self) }),
            is_trail_update(final(self).trail@, old(self).trail@, *old(self), dt as int),
    {
        let advanced = advance_trail(&self.trail, dt);
        let ghost adv = advanced@;
        self.trail = advanced;
        if self.trail.len() < TRAIL_CAPACITY {
            let emitted = self.emit_particle(rng);
            if let Some(p) = emitted {
                self.trail.push(p);
                assert(self.trail@.drop_last() =~= adv);
            }
        }
    }

    /// A new trail particle, or none, drawn with chance `particle_chance`:
    /// placed a little behind the object, moving at 0.8 of its velocity
    /// with jitter, coloured like it with small variations.
    pub fn emit_particle(&self, rng: &mut StdRng) -> (r: Option<TrailParticle>)
        requires
            self.wf(),
        ensures
            self.size == 0 ==> r.is_none(),
            r.is_some() ==> r.unwrap().wf() && is_emitted_particle(r.unwrap(), *self),
    {
        let roll = draw_range(rng, 0, 1000);
        let back = draw_range(rng, 0, 1000);
        let jx = draw_range(rng, -500, 500);
        let jy = draw_range(rng, -500, 500);
        let jz = draw_range(rng, -500, 500);
        let lifetime = draw_range(rng, 500, 1500);
        let cr = draw_range(rng, -200, 200);
        let cg = draw_range(rng, -200, 200);
        let cb = draw_range(rng, -200, 200);
        let share = draw_range(rng, 100, 300);
        let draws = ParticleDraws { roll, back, jx, jy, jz, lifetime, cr, cg, cb, share };
        let r = particle_from_draws(self, draws);
        proof {
            if r.is_some() {
                assert(draws.in_range() && is_drawn_particle(r.unwrap(), *self, draws));
            }
            if self.size == 0 {
                assert(self.size * 300 == 0);
            }
        }
        r
    }
}

/// The random values behind one trail particle.
#[derive(Clone, Copy, Debug, PartialEq, Eq, Structural)]
pub struct ParticleDraws {
    /// Against the spawn chance, in `[0, 1000)`.
    pub roll: i64,
    /// How far behind the object, in thousandths of a fifth of a second of travel.
    pub back: i64,
    /// Velocity jitter per axis, in `[-500, 500)`.
    pub jx: i64,
    pub jy: i64,
    pub jz: i64,
    /// Lifetime in milliseconds, in `[500, 1500)`.
    pub lifetime: i64,
    /// Colour offsets per channel, in `[-200, 200)`.
    pub cr: i64,
    pub cg: i64,
    pub cb: i64,
    /// Size as thousandths of the object's, in `[100, 300)`.
    pub share: i64,
}

impl ParticleDraws {
    pub open spec fn in_range(self) -> bool {
        &&& 0 <= self.roll < 1000
        &&& 0 <= self.back < 1000
        &&& -500 <= self.jx < 500 && -500 <= self.jy < 500 && -500 <= self.jz < 500
        &&& 500 <= self.lifetime < 1500
        &&& -200 <= self.cr < 200 && -200 <= self.cg < 200 && -200 <= self.cb < 200
        &&& 100 <= self.share < 300
    }
}

pub open spec fn channel(c: int) -> int {
    if c < 0 {
        0
    } else if c > 1000 {
        1000
    } else {
        c
    }
}

/// Whether `q` is the particle that the draws `d` give behind `o`.
pub open spec fn is_drawn_particle(q: TrailParticle, o: SpaceObject, d: ParticleDraws) -> bool {
    &&& q.position.x == o.position.x - scale_toward_zero(o.velocity.x as int, d.back as int, 5000)
    &&& q.position.y == o.position.y - scale_toward_zero(o.velocity.y as int, d.back as int, 5000)
    &&& q.position.z == o.position.z - scale_toward_zero(o.velocity.z as int, d.back as int, 5000)
    &&& q.velocity.x == scale_toward_zero(o.velocity.x as int, 800, 1000) + d.jx
    &&& q.velocity.y == scale_toward_zero(o.velocity.y as int, 800, 1000) + d.jy
    &&& q.velocity.z == scale_toward_zero(o.velocity.z as int, 800, 1000) + d.jz
    &&& q.lifetime == d.lifetime
    &&& q.max_lifetime == d.lifetime
    &&& q.size == o.size * d.share / 1000
    &&& q.initial_size == q.size
    &&& q.color.r == channel(o.color.r + d.cr)
    &&& q.color.g == channel(o.color.g + d.cg)
    &&& q.color.b == channel(o.color.b + d.cb)
    &&& q.fade_factor == 1000
}

/// Whether `q` is a particle that `o` can emit, for some draws in range.
pub open spec fn is_emitted_particle(q: TrailParticle, o: SpaceObject) -> bool {
    exists|d: ParticleDraws| d.in_range() && d.roll < particle_chance(o.size as int, o.target_size as int)
        && is_drawn_particle(q, o, d)
}

/// The particle that the draws give behind `o`: none unless the roll falls
/// under the spawn chance.
pub fn particle_from_draws(o: &SpaceObject, d: ParticleDraws) -> (r: Option<TrailParticle>)
    requires
        o.wf(),
        d.in_range(),
    ensures
        r.is_some() == (d.roll < particle_chance(o.size as int, o.target_size as int)),
        r.is_some() ==> r.unwrap().wf() && is_drawn_particle(r.unwrap(), *o, d),
{
    let chance = if o.target_size > 0 {
        proof {
            assert(0 <= o.size * 300 <= o.target_size * 300) by (nonlinear_arith)
                requires 0 <= o.size <= o.target_size;
            vstd::arithmetic::div_mod::lemma_div_pos_is_pos(o.size * 300, o.target_size as int);
        }
        o.size * 300 / o.target_size
    } else {
        0
    };
    if d.roll >= chance {
        return None;
    }
    let p = o.position;
    let v = o.velocity;
    let position = Vec3 {
        x: p.x - scale_by_fraction(v.x, d.back as i128, 5000),
        y: p.y - scale_by_fraction(v.y, d.back as i128, 5000),
        z: p.z - scale_by_fraction(v.z, d.back as i128, 5000),
    };
    let velocity = Vec3 {
        x: scale_by_fraction(v.x, 800, 1000) + d.jx,
        y: scale_by_fraction(v.y, 800, 1000) + d.jy,
        z: scale_by_fraction(v.z, 800, 1000) + d.jz,
    };
    let c = o.color;
    let color = Color {
        r: clamp_channel(c.r + d.cr),
        g: clamp_channel(c.g + d.cg),
        b: clamp_channel(c.b + d.cb),
    };
    proof {
        assert(0 <= o.size * d.share <= MAX_SIZE * 300) by (nonlinear_arith)
            requires 0 <= o.size <= MAX_SIZE, 100 <= d.share < 300;
        assert(o.size * d.share <= o.size * 1000) by (nonlinear_arith)
            requires 0 <= o.size, d.share < 1000;
        vstd::arithmetic::div_mod::lemma_div_is_ordered(o.size * d.share, o.size * 1000, 1000);
        vstd::arithmetic::div_mod::lemma_div_multiples_vanish(o.size as int, 1000);
        vstd::arithmetic::div_mod::lemma_div_pos_is_pos(o.size * d.share, 1000);
        lemma_ratio_at_most_thousand(d.lifetime as int, d.lifetime as int);
        assert(d.lifetime * 1000 / (d.lifetime as int) == 1000) by {
            vstd::arithmetic::div_mod::lemma_div_multiples_vanish(1000, d.lifetime as int);
            assert(d.lifetime * 1000 == 1000 * d.lifetime) by (nonlinear_arith);
        }
    }
    let size = o.size * d.share / 1000;
    Some(TrailParticle {
        position,
        velocity,
        lifetime: d.lifetime,
        max_lifetime: d.lifetime,
        size,
        initial_size: size,
        color,
        fade_factor: 1000,
    })
}

/// `c` limited to `[0, 1000]`.
pub fn clamp_channel(c: i64) -> (r: i64)
    ensures
        r == (if c < 0 { 0 } else if c > 1000 { 1000 } else { c }),
{
    if c < 0 {
        0
    } else if c > 1000 {
        1000
    } else {
        c
    }
}

} // verus!
