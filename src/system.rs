use vstd::prelude::*;
use rand::rngs::StdRng;
use crate::effects::{effect_for_crossing, effect_kind_for, queue_append, Color, Effect, EffectQueue, MAX_STEP_MS};
use crate::geometry::{dist2, floor_sqrt, int_sqrt, scale_by_ratio, scale_toward_zero, Vec3, COORD_LIMIT};
use crate::intersection::{bounded_append, crosses_plane, dist2_exact, is_plane_crossing, Intersection, IntersectionHistory, Plane};
use crate::motion::{clamp_lateral, clamps_lateral, displacement, lateral2, lemma_component_within_root, SPEED_LIMIT};
use crate::objects::{grown_size, TrailParticle, expired, is_stepped, is_trail_update, world_bounded, SpaceObjectType, SpaceObject, FULL_TURN};
use crate::random::{draw_range, seeded_generator};
use crate::space::{in_view, SpaceDefinition};

verus! {

/// Most objects a system holds.
pub const MAX_OBJECTS: usize = 500;

/// Default largest lateral speed, in thousandths of a unit per second.
pub const DEFAULT_MAX_LATERAL_SPEED: i64 = 40_000;

/// Default shortest time, in milliseconds, to cross the visible width.
pub const DEFAULT_MIN_VISIBLE_MS: i64 = 500;

/// Share of an object's lifetime, in thousandths, left once it has crossed
/// the viewing plane.
pub const REMAINING_LIFETIME_PERMILLE: i64 = 300;

/// Ranges from which spawned objects draw their parameters.
pub const SPAWN_SPEED_MIN: i64 = 20_000;
pub const SPAWN_SPEED_MAX: i64 = 40_000;
pub const SPAWN_DELAY_MIN: i64 = 500;
pub const SPAWN_DELAY_MAX: i64 = 5_000;
pub const SPAWN_LIFETIME_MIN: i64 = 15_000;
pub const SPAWN_LIFETIME_MAX: i64 = 25_000;
pub const SPAWN_SIZE_MIN: i64 = 3_000;
pub const SPAWN_SIZE_MAX: i64 = 27_000;
pub const SPAWN_GROWTH_MIN: i64 = 2_000;
pub const SPAWN_GROWTH_MAX: i64 = 4_000;
pub const SPAWN_ACCELERATION_MIN: i64 = 5_000;
pub const SPAWN_ACCELERATION_MAX: i64 = 30_000;

/// Percent of spawns placed within the central region.
pub const CENTRAL_SPAWN_PERCENT: i64 = 70;

/// Percent of spawns aimed straight at the observer.
pub const OBSERVER_AIM_PERCENT: i64 = 3;

/// Largest positional jitter of a spawn along each lateral axis.
pub const SPAWN_JITTER: i64 = 500;

/// Clock value beyond which a system's time stops advancing.
pub const TIME_LIMIT: i64 = 0x3fff_ffff_ffff_ffff;

/// Half-extent of the default viewing plane.
pub const VIEWING_PLANE_HALF_EXTENT: i64 = 10_000;

/// Whether a move from depth `from` to depth `to` reaches or passes depth `at`.
pub open spec fn crosses_depth(from: int, to: int, at: int) -> bool {
    (from > at && to <= at) || (from < at && to >= at)
}

/// A population of simulated objects flying through a world toward an
/// observer, across a viewing plane.
pub struct SpaceObjectSystem {
    pub space: SpaceDefinition,
    pub objects: Vec<SpaceObject>,
    pub next_id: u64,
    pub target_object_count: usize,
    pub max_objects: usize,
    /// Milliseconds since the system started.
    pub time: i64,
    pub max_lateral_speed: i64,
    pub min_visible_ms: i64,
    pub viewing_plane: Plane,
    /// Kind given to spawned objects.
    pub spawn_kind: SpaceObjectType,
    pub rng: StdRng,
}

/// Whether the move from `o` to its stepped self `m` reaches the viewing
/// plane's depth for the first time while active.
pub open spec fn first_crossing(o: SpaceObject, m: SpaceObject, plane: Plane) -> bool {
    &&& m.age >= 0
    &&& !o.passed_plane
    &&& crosses_depth(o.position.z as int, m.position.z as int, plane.position.z as int)
}

/// Lifetime after a crossing at `age`: the age plus a share of the full
/// lifetime.
pub open spec fn shortened_lifetime(age: int, max_lifetime: int) -> int {
    age + max_lifetime * REMAINING_LIFETIME_PERMILLE / 1000
}

/// `n` with the passed flag, lifetime and trail of `o`: what the object was
/// right after its own step.
pub open spec fn stepped_part(n: SpaceObject, o: SpaceObject) -> SpaceObject {
    SpaceObject { passed_plane: o.passed_plane, max_lifetime: o.max_lifetime, trail: o.trail, ..n }
}

/// Whether an object is removed at the end of its tick.
pub open spec fn dropped(n: SpaceObject, space: SpaceDefinition) -> bool {
    n.age >= 0 && expired(n, space)
}

/// Whether `n` is `o` after one tick of `dt` milliseconds in `sys`: its
/// step; on a first crossing of the viewing plane's depth, the passed flag
/// set and the lifetime shortened; and, for a comet that stays, its trail
/// advanced.
pub open spec fn is_ticked(n: SpaceObject, o: SpaceObject, sys: SpaceObjectSystem, dt: int) -> bool {
    let m = stepped_part(n, o);
    let crossed = first_crossing(o, m, sys.viewing_plane);
    &&& is_stepped(m, o, sys.space, dt, sys.max_lateral_speed as int, sys.min_visible_ms as int)
    &&& n.passed_plane == (o.passed_plane || crossed)
    &&& n.max_lifetime == (if crossed { shortened_lifetime(n.age as int, o.max_lifetime as int) } else { o.max_lifetime as int })
    &&& if n.age >= 0 && !expired(n, sys.space) && n.object_type == SpaceObjectType::NeonComet {
        is_trail_update(n.trail@, o.trail@, SpaceObject { trail: o.trail, ..n }, dt)
    } else {
        n.trail == o.trail
    }
}

/// Whether history `h` and effects `e` follow from `h0` and `e0` by the tick
/// of `o` into `n`: on a first crossing of the viewing plane's depth whose
/// segment meets the plane's rectangle, the crossing is recorded and an
/// effect of the matching kind queued at it; otherwise nothing changes.
pub open spec fn is_crossing_record(
    h: Seq<Intersection>,
    e: Seq<Effect>,
    h0: Seq<Intersection>,
    e0: Seq<Effect>,
    n: SpaceObject,
    o: SpaceObject,
    sys: SpaceObjectSystem,
) -> bool {
    if first_crossing(o, stepped_part(n, o), sys.viewing_plane)
        && crosses_plane(o.position, n.position, sys.viewing_plane) {
        exists|x: Intersection, f: Effect| {
            &&& is_plane_crossing(x, o.position, n.position, sys.viewing_plane, o.id, sys.time)
            &&& h == bounded_append(h0, x)
            &&& f.wf()
            &&& f.position == x.position
            &&& f.color == o.color
            &&& f.kind == effect_kind_for(x.intersection_type)
            &&& f.current_age == 0
            &&& e == queue_append(e0, f)
        }
    } else {
        h == h0 && e == e0
    }
}

/// Whether `ticked` holds each object of `objs` after its tick, in order,
/// with `hs[i]` and `es[i]` the history and effects before the tick of
/// `objs[i]` and `hs[i + 1]`, `es[i + 1]` after it.
pub open spec fn is_update_trace(
    ticked: Seq<SpaceObject>,
    hs: Seq<Seq<Intersection>>,
    es: Seq<Seq<Effect>>,
    objs: Seq<SpaceObject>,
    sys: SpaceObjectSystem,
    dt: int,
) -> bool {
    &&& ticked.len() == objs.len()
    &&& hs.len() == objs.len() + 1
    &&& es.len() == objs.len() + 1
    &&& forall|i: int| 0 <= i < objs.len() ==> #[trigger] is_ticked(ticked[i], objs[i], sys, dt)
    &&& forall|i: int| 0 <= i < objs.len()
        ==> #[trigger] is_crossing_record(hs[i + 1], es[i + 1], hs[i], es[i], ticked[i], objs[i], sys)
}

/// The ticked objects that stay, in order.
pub open spec fn survivors(ticked: Seq<SpaceObject>, space: SpaceDefinition) -> Seq<SpaceObject>
    decreases ticked.len(),
{
    if ticked.len() == 0 {
        ticked
    } else if dropped(ticked.last(), space) {
        survivors(ticked.drop_last(), space)
    } else {
        survivors(ticked.drop_last(), space).push(ticked.last())
    }
}

/// Whether `n`, `h` and `e` are the system, history and effects after one
/// update of `dt` milliseconds from `o`, `h0` and `e0`.
pub open spec fn is_update(
    n: SpaceObjectSystem,
    h: Seq<Intersection>,
    e: Seq<Effect>,
    o: SpaceObjectSystem,
    h0: Seq<Intersection>,
    e0: Seq<Effect>,
    dt: int,
) -> bool {
    &&& same_setup(n, SpaceObjectSystem { time: n.time, ..o })
    &&& n.time == (if o.time <= TIME_LIMIT { o.time + dt } else { o.time as int })
    &&& n.next_id >= o.next_id
    &&& exists|ticked: Seq<SpaceObject>, hs: Seq<Seq<Intersection>>, es: Seq<Seq<Effect>>|
        #![trigger is_update_trace(ticked, hs, es, o.objects@, o, dt)]
    {
        let kept = survivors(ticked, o.space);
        &&& is_update_trace(ticked, hs, es, o.objects@, o, dt)
        &&& hs[0] == h0 && es[0] == e0
        &&& hs.last() == h && es.last() == e
        &&& kept.len() <= n.objects@.len()
        &&& n.objects@.subrange(0, kept.len() as int) == kept
        &&& forall|i: int| kept.len() <= i < n.objects@.len()
            ==> #[trigger] is_fresh_spawn(n.objects@[i], o.space, o.next_id)
        &&& (kept.len() <= o.target_object_count && o.next_id <= u64::MAX - o.max_objects
            ==> n.objects@.len() == o.target_object_count)
    }
}

/// Whether two systems agree on everything but their objects, next id and generator.
pub open spec fn same_setup(a: SpaceObjectSystem, b: SpaceObjectSystem) -> bool {
    &&& a.space == b.space
    &&& a.target_object_count == b.target_object_count
    &&& a.max_objects == b.max_objects
    &&& a.time == b.time
    &&& a.max_lateral_speed == b.max_lateral_speed
    &&& a.min_visible_ms == b.min_visible_ms
    &&& a.viewing_plane == b.viewing_plane
    &&& a.spawn_kind == b.spawn_kind
}

/// The objects of `s` that are active and on-screen, in order.
pub open spec fn shown(s: Seq<SpaceObject>, space: SpaceDefinition) -> Seq<SpaceObject>
    decreases s.len(),
{
    if s.len() == 0 {
        s
    } else if s.last().age >= 0 && in_view(space, s.last().position) {
        shown(s.drop_last(), space).push(s.last())
    } else {
        shown(s.drop_last(), space)
    }
}

/// The trail particles of the objects of `s`, object after object.
pub open spec fn flat_trail(s: Seq<SpaceObject>) -> Seq<TrailParticle>
    decreases s.len(),
{
    if s.len() == 0 {
        Seq::empty()
    } else {
        flat_trail(s.drop_last()) + s.last().trail@
    }
}

/// Flat per-object buffers for a renderer: ids, positions (three per
/// object), scales, Euler angles (three per object, in thousandths of a
/// radian), opacities and colours (three per object); and the trail data:
/// the number of particles of each object, then every particle's position
/// (three values) and fade, object after object.
pub struct VisibleObjects {
    pub ids: Vec<u64>,
    pub positions: Vec<i64>,
    pub scales: Vec<i64>,
    pub angles: Vec<i64>,
    pub opacities: Vec<i64>,
    pub colors: Vec<i64>,
    pub trail_counts: Vec<usize>,
    pub trail_positions: Vec<i64>,
    pub trail_fades: Vec<i64>,
}

impl VisibleObjects {
    /// Whether the particle buffers describe exactly the particles of `t`, in order.
    pub open spec fn trail_matches(&self, t: Seq<TrailParticle>) -> bool {
        &&& self.trail_positions@.len() == 3 * t.len()
        &&& self.trail_fades@.len() == t.len()
        &&& forall|k: int| 0 <= k < t.len() ==> {
            &&& #[trigger] self.trail_fades@[k] == t[k].fade_factor
            &&& self.trail_positions@[3 * k] == t[k].position.x
            &&& self.trail_positions@[3 * k + 1] == t[k].position.y
            &&& self.trail_positions@[3 * k + 2] == t[k].position.z
        }
    }

    /// Whether the buffers describe exactly the objects of `s`, in order.
    pub open spec fn matches(&self, s: Seq<SpaceObject>) -> bool {
        &&& self.ids@.len() == s.len()
        &&& self.positions@.len() == 3 * s.len()
        &&& self.scales@.len() == s.len()
        &&& self.angles@.len() == 3 * s.len()
        &&& self.opacities@.len() == s.len()
        &&& self.colors@.len() == 3 * s.len()
        &&& self.trail_counts@.len() == s.len()
        &&& forall|i: int| 0 <= i < s.len() ==> {
            &&& #[trigger] self.ids@[i] == s[i].id
            &&& self.positions@[3 * i] == s[i].position.x
            &&& self.positions@[3 * i + 1] == s[i].position.y
            &&& self.positions@[3 * i + 2] == s[i].position.z
            &&& self.scales@[i] == s[i].scale
            &&& self.angles@[3 * i] == s[i].rotation.x
            &&& self.angles@[3 * i + 1] == s[i].rotation.y
            &&& self.angles@[3 * i + 2] == s[i].rotation.z
            &&& self.opacities@[i] == s[i].opacity
            &&& self.colors@[3 * i] == s[i].color.r
            &&& self.colors@[3 * i + 1] == s[i].color.g
            &&& self.colors@[3 * i + 2] == s[i].color.b
            &&& self.trail_counts@[i] == s[i].trail@.len()
        }
        &&& self.trail_matches(flat_trail(s))
    }

    fn push_object(&mut self, o: &SpaceObject, Ghost(prev): Ghost<Seq<SpaceObject>>)
        requires
            old(self).matches(prev),
        ensures
            final(self).matches(prev.push(*o)),
    {
        self.ids.push(o.id);
        self.positions.push(o.position.x);
        self.positions.push(o.position.y);
        self.positions.push(o.position.z);
        self.scales.push(o.scale);
        self.angles.push(o.rotation.x);
        self.angles.push(o.rotation.y);
        self.angles.push(o.rotation.z);
        self.opacities.push(o.opacity);
        self.colors.push(o.color.r);
        self.colors.push(o.color.g);
        self.colors.push(o.color.b);
        self.trail_counts.push(o.trail.len());
        let ghost base = flat_trail(prev);
        let mut j: usize = 0;
        while j < o.trail.len()
            invariant
                j <= o.trail@.len(),
                self.trail_matches(base + o.trail@.subrange(0, j as int)),
                self.ids@ == old(self).ids@.push(o.id),
                self.positions@ == old(self).positions@.push(o.position.x).push(o.position.y).push(o.position.z),
                self.scales@ == old(self).scales@.push(o.scale),
                self.angles@ == old(self).angles@.push(o.rotation.x).push(o.rotation.y).push(o.rotation.z),
                self.opacities@ == old(self).opacities@.push(o.opacity),
                self.colors@ == old(self).colors@.push(o.color.r).push(o.color.g).push(o.color.b),
                self.trail_counts@ == old(self).trail_counts@.push(o.trail@.len() as usize),
            decreases o.trail@.len() - j,
        {
            let p = o.trail[j];
            let ghost t_before = base + o.trail@.subrange(0, j as int);
            let ghost pos_before = self.trail_positions@;
            let ghost fades_before = self.trail_fades@;
            self.trail_positions.push(p.position.x);
            self.trail_positions.push(p.position.y);
            self.trail_positions.push(p.position.z);
            self.trail_fades.push(p.fade_factor);
            proof {
                let t = base + o.trail@.subrange(0, j + 1);
                assert(t =~= t_before.push(p));
                assert forall|k: int| 0 <= k < t.len() implies {
                    &&& #[trigger] self.trail_fades@[k] == t[k].fade_factor
                    &&& self.trail_positions@[3 * k] == t[k].position.x
                    &&& self.trail_positions@[3 * k + 1] == t[k].position.y
                    &&& self.trail_positions@[3 * k + 2] == t[k].position.z
                } by {
                    if k < t_before.len() {
                        assert(fades_before[k] == t_before[k].fade_factor);
                        assert(t[k] == t_before[k]);
                    }
                }
            }
            j = j + 1;
        }
        proof {
            let s = prev.push(*o);
            let n = prev.len() as int;
            assert(s.drop_last() =~= prev);
            assert(o.trail@.subrange(0, o.trail@.len() as int) =~= o.trail@);
            assert(flat_trail(s) == base + o.trail@);
            assert forall|i: int| 0 <= i < s.len() implies {
                &&& #[trigger] self.ids@[i] == s[i].id
                &&& self.positions@[3 * i] == s[i].position.x
                &&& self.positions@[3 * i + 1] == s[i].position.y
                &&& self.positions@[3 * i + 2] == s[i].position.z
                &&& self.scales@[i] == s[i].scale
                &&& self.angles@[3 * i] == s[i].rotation.x
                &&& self.angles@[3 * i + 1] == s[i].rotation.y
                &&& self.angles@[3 * i + 2] == s[i].rotation.z
                &&& self.opacities@[i] == s[i].opacity
                &&& self.colors@[3 * i] == s[i].color.r
                &&& self.colors@[3 * i + 1] == s[i].color.g
                &&& self.colors@[3 * i + 2] == s[i].color.b
                &&& self.trail_counts@[i] == s[i].trail@.len()
            } by {
                if i < n {
                    assert(old(self).ids@[i] == prev[i].id);
                }
            }
        }
    }
}

/// Whether `o` is a fresh spawn of a system with world `space` whose next
/// id was `first_id`: waiting on the far plane with nothing grown yet.
pub open spec fn is_fresh_spawn(o: SpaceObject, space: SpaceDefinition, first_id: u64) -> bool {
    &&& o.id >= first_id
    &&& o.age < 0
    &&& o.position.z == space.max_z
    &&& o.size == 0
    &&& o.active && !o.passed_plane
    &&& o.trail@.len() == 0
}

/// Whether `o` may be held by a system with the given world and limits.
pub open spec fn object_fits(o: SpaceObject, max_lateral: int) -> bool {
    &&& o.wf()
    &&& world_bounded(o.position)
    &&& o.age <= o.max_lifetime
    &&& lateral2(o.velocity) <= max_lateral * max_lateral
}

impl SpaceObjectSystem {
    pub open spec fn wf(&self) -> bool {
        &&& self.space.wf()
        &&& self.target_object_count <= self.max_objects <= MAX_OBJECTS
        &&& self.objects@.len() <= self.max_objects
        &&& 0 <= self.max_lateral_speed <= SPEED_LIMIT
        &&& 0 < self.min_visible_ms
        &&& 0 <= self.time
        &&& self.viewing_plane.wf()
        &&& self.space.min_x < self.viewing_plane.position.x - self.viewing_plane.half_width
        &&& self.viewing_plane.position.x + self.viewing_plane.half_width < self.space.max_x
        &&& self.space.min_y < self.viewing_plane.position.y - self.viewing_plane.half_height
        &&& self.viewing_plane.position.y + self.viewing_plane.half_height < self.space.max_y
        &&& forall|i: int| 0 <= i < self.objects@.len()
            ==> #[trigger] object_fits(self.objects@[i], self.max_lateral_speed as int)
        &&& forall|i: int| 0 <= i < self.objects@.len() ==> (#[trigger] self.objects@[i]).id < self.next_id
        &&& forall|i: int, j: int| 0 <= i < j < self.objects@.len() ==> self.objects@[i].id != self.objects@[j].id
    }

    /// A system aiming at `target_count` objects (at most `MAX_OBJECTS`),
    /// with a viewport covering `viewport_percent` of the world, drawing its
    /// randomness from a generator seeded with `seed`. It is filled at once.
    pub fn new(target_count: usize, viewport_percent: i64, fov_degrees: i64, seed: u64) -> (r: SpaceObjectSystem)
        requires
            0 <= viewport_percent <= 100,
        ensures
            r.wf(),
            r.target_object_count == (if target_count < MAX_OBJECTS { target_count } else { MAX_OBJECTS }),
            r.objects@.len() == r.target_object_count,
            r.time == 0,
    {
        let space = SpaceDefinition::new(viewport_percent, fov_degrees);
        let target = if target_count < MAX_OBJECTS { target_count } else { MAX_OBJECTS };
        let mut system = SpaceObjectSystem {
            space,
            objects: Vec::new(),
            next_id: 1,
            target_object_count: target,
            max_objects: MAX_OBJECTS,
            time: 0,
            max_lateral_speed: DEFAULT_MAX_LATERAL_SPEED,
            min_visible_ms: DEFAULT_MIN_VISIBLE_MS,
            viewing_plane: Plane {
                position: Vec3 { x: 0, y: 0, z: 0 },
                normal: Vec3 { x: 0, y: 0, z: -1000 },
                half_width: VIEWING_PLANE_HALF_EXTENT,
                half_height: VIEWING_PLANE_HALF_EXTENT,
                id: 0,
            },
            spawn_kind: SpaceObjectType::NeonComet,
            rng: seeded_generator(seed),
        };
        system.refill();
        system
    }

    /// Empties the system, sets a new target (at most the system's
    /// capacity) and fills it again.
    pub fn initialize(&mut self, target_count: usize)
        requires
            old(self).wf(),
        ensures
            final(self).wf(),
            final(self).target_object_count
                == (if target_count < old(self).max_objects { target_count } else { old(self).max_objects }),
            old(self).next_id <= u64::MAX - old(self).max_objects
                ==> final(self).objects@.len() == final(self).target_object_count,
            forall|i: int| 0 <= i < final(self).objects@.len()
                ==> is_fresh_spawn(final(self).objects@[i], old(self).space, old(self).next_id),
    {
        self.objects = Vec::new();
        self.target_object_count = if target_count < self.max_objects { target_count } else { self.max_objects };
        self.refill();
    }

    /// Number of objects, waiting or active.
    pub fn len(&self) -> (r: usize)
        ensures
            r == self.objects@.len(),
    {
        self.objects.len()
    }

    /// A fresh object on the far plane, waiting a random delay to appear.
    /// It starts within the central region about 70% of the time, aims at a
    /// point outside the viewing plane (or, rarely, at the observer), and
    /// its lateral speed is within the system's limit.
    pub fn spawn_object(&mut self) -> (r: SpaceObject)
        requires
            old(self).wf(),
            old(self).next_id < u64::MAX,
        ensures
            final(self).wf(),
            final(self).objects == old(self).objects,
            final(self).next_id == old(self).next_id + 1,
            same_setup(*final(self), *old(self)),
            object_fits(r, old(self).max_lateral_speed as int),
            r.id == old(self).next_id,
            r.position.z == old(self).space.max_z,
            r.age < 0,
            r.size == 0,
            r.active && !r.passed_plane,
            r.trail@.len() == 0,
            is_fresh_spawn(r, old(self).space, old(self).next_id),
            exists|d: SpawnDraws| d.in_range(old(self).space) && #[trigger] is_spawned_from(
                r, old(self).space, old(self).max_lateral_speed as int, old(self).spawn_kind, old(self).next_id, d),
            r.velocity.z <= 0,
            r.exit_x < old(self).viewing_plane.position.x - old(self).viewing_plane.half_width
                || r.exit_x > old(self).viewing_plane.position.x + old(self).viewing_plane.half_width
                || r.exit_y < old(self).viewing_plane.position.y - old(self).viewing_plane.half_height
                || r.exit_y > old(self).viewing_plane.position.y + old(self).viewing_plane.half_height,
    {
        let s = self.space;
        let plane = self.viewing_plane;
        let (vw, vh) = s.get_viewport_dimensions();
        let cx = s.min_x + (s.max_x - s.min_x) / 2;
        let cy = s.min_y + (s.max_y - s.min_y) / 2;
        let central = draw_range(&mut self.rng, 0, 100) < CENTRAL_SPAWN_PERCENT;
        let (bx, by) = if central && vw >= 2 && vh >= 2 {
            (
                draw_range(&mut self.rng, cx - vw / 2, cx + vw / 2),
                draw_range(&mut self.rng, cy - vh / 2, cy + vh / 2),
            )
        } else {
            (draw_range(&mut self.rng, s.min_x, s.max_x), draw_range(&mut self.rng, s.min_y, s.max_y))
        };
        let jx = bx + draw_range(&mut self.rng, -SPAWN_JITTER, SPAWN_JITTER + 1);
        let jy = by + draw_range(&mut self.rng, -SPAWN_JITTER, SPAWN_JITTER + 1);
        let x = if jx < s.min_x { s.min_x } else if jx > s.max_x { s.max_x } else { jx };
        let y = if jy < s.min_y { s.min_y } else if jy > s.max_y { s.max_y } else { jy };
        let o = s.observer_position;
        let aim_at_observer = draw_range(&mut self.rng, 0, 100) < OBSERVER_AIM_PERCENT;
        let side = draw_range(&mut self.rng, 0, 4);
        let px = plane.position.x;
        let py = plane.position.y;
        let (exit_x, exit_y) = if side == 0 {
            (draw_range(&mut self.rng, s.min_x, px - plane.half_width), draw_range(&mut self.rng, s.min_y, s.max_y))
        } else if side == 1 {
            (draw_range(&mut self.rng, px + plane.half_width + 1, s.max_x + 1), draw_range(&mut self.rng, s.min_y, s.max_y))
        } else if side == 2 {
            (draw_range(&mut self.rng, s.min_x, s.max_x), draw_range(&mut self.rng, s.min_y, py - plane.half_height))
        } else {
            (draw_range(&mut self.rng, s.min_x, s.max_x), draw_range(&mut self.rng, py + plane.half_height + 1, s.max_y + 1))
        };
        let speed = draw_range(&mut self.rng, SPAWN_SPEED_MIN, SPAWN_SPEED_MAX);
        let delay = draw_range(&mut self.rng, SPAWN_DELAY_MIN, SPAWN_DELAY_MAX);
        let lifetime = draw_range(&mut self.rng, SPAWN_LIFETIME_MIN, SPAWN_LIFETIME_MAX);
        let size = draw_range(&mut self.rng, SPAWN_SIZE_MIN, SPAWN_SIZE_MAX);
        let growth = draw_range(&mut self.rng, SPAWN_GROWTH_MIN, SPAWN_GROWTH_MAX);
        let acceleration = draw_range(&mut self.rng, SPAWN_ACCELERATION_MIN, SPAWN_ACCELERATION_MAX);
        let rot_x = draw_range(&mut self.rng, 0, FULL_TURN);
        let rot_y = draw_range(&mut self.rng, 0, FULL_TURN);
        let rot_z = draw_range(&mut self.rng, 0, FULL_TURN);
        let d = SpawnDraws {
            start_x: x,
            start_y: y,
            exit_x,
            exit_y,
            aim_at_observer,
            speed,
            delay,
            lifetime,
            size,
            growth,
            acceleration,
            rot_x,
            rot_y,
            rot_z,
        };
        let id = self.next_id;
        self.next_id = id + 1;
        let r = object_from_draws(&s, self.max_lateral_speed, self.spawn_kind, id, d);
        proof {
            assert(d.in_range(s) && is_spawned_from(r, s, self.max_lateral_speed as int, self.spawn_kind, id, d));
        }
        r
    }

    /// Spawns objects until the population reaches its target, as long as
    /// ids remain.
    pub fn refill(&mut self)
        requires
            old(self).wf(),
        ensures
            final(self).wf(),
            same_setup(*final(self), *old(self)),
            final(self).next_id >= old(self).next_id,
            final(self).objects@.len() >= old(self).objects@.len(),
            old(self).objects@.len() <= old(self).target_object_count
                && old(self).next_id <= u64::MAX - old(self).max_objects
                ==> final(self).objects@.len() == old(self).target_object_count,
            forall|i: int| 0 <= i < old(self).objects@.len() ==> final(self).objects@[i] == old(self).objects@[i],
            forall|i: int| old(self).objects@.len() <= i < final(self).objects@.len()
                ==> is_fresh_spawn(final(self).objects@[i], old(self).space, old(self).next_id),
    {
        while self.objects.len() < self.target_object_count && self.next_id < u64::MAX
            invariant
                self.wf(),
                same_setup(*self, *old(self)),
                self.next_id >= old(self).next_id,
                old(self).objects@.len() <= self.target_object_count ==> self.objects@.len() <= self.target_object_count,
                self.objects@.len() >= old(self).objects@.len(),
                self.next_id - old(self).next_id <= self.objects@.len() - old(self).objects@.len(),
                forall|i: int| 0 <= i < old(self).objects@.len() ==> self.objects@[i] == old(self).objects@[i],
                forall|i: int| old(self).objects@.len() <= i < self.objects@.len()
                    ==> is_fresh_spawn(self.objects@[i], old(self).space, old(self).next_id),
            decreases self.target_object_count - self.objects@.len(),
        {
            let o = self.spawn_object();
            let ghost before = self.objects@;
            self.objects.push(o);
            proof {
                assert forall|i: int| 0 <= i < self.objects@.len()
                    implies #[trigger] object_fits(self.objects@[i], self.max_lateral_speed as int) by {
                    if i < self.objects@.len() - 1 {
                        assert(self.objects@[i] == before[i]);
                    }
                }
                assert forall|i: int| 0 <= i < self.objects@.len() implies (#[trigger] self.objects@[i]).id < self.next_id by {
                    if i < self.objects@.len() - 1 {
                        assert(self.objects@[i] == before[i]);
                    }
                }
                assert forall|i: int| 0 <= i < old(self).objects@.len() implies self.objects@[i] == old(self).objects@[i] by {
                    assert(self.objects@[i] == before[i]);
                }
                assert forall|i: int| old(self).objects@.len() <= i < self.objects@.len()
                    implies is_fresh_spawn(self.objects@[i], old(self).space, old(self).next_id) by {
                    if i < self.objects@.len() - 1 {
                        assert(self.objects@[i] == before[i]);
                    }
                }
            }
        }
    }

    /// One object's tick: its step, then, once active, the first crossing of
    /// the viewing plane's depth (flag, shortened lifetime, recorded
    /// crossing and queued effect), the expiry test, and a comet's trail.
    /// Returns the object and whether it stays.
    pub fn tick_object(
        &mut self,
        o: SpaceObject,
        dt: i64,
        history: &mut IntersectionHistory,
        effects: &mut EffectQueue,
    ) -> (r: (SpaceObject, bool))
        requires
            old(self).wf(),
            object_fits(o, old(self).max_lateral_speed as int),
            old(history).wf(),
            old(effects).wf(),
            0 <= dt <= MAX_STEP_MS,
        ensures
            same_setup(*final(self), *old(self)),
            final(self).next_id == old(self).next_id,
            final(self).objects == old(self).objects,
            final(history).wf(),
            final(effects).wf(),
            is_ticked(r.0, o, *old(self), dt as int),
            is_crossing_record(final(history)@, final(effects)@, old(history)@, old(effects)@, r.0, o, *old(self)),
            r.1 == !dropped(r.0, old(self).space),
            r.1 ==> object_fits(r.0, old(self).max_lateral_speed as int),
            r.0.id == o.id,
    {
        let mut o = o;
        let ghost o0 = o;
        let prev = o.position;
        o.step(dt, &self.space, self.max_lateral_speed, self.min_visible_ms);
        let ghost m = o;
        if o.age < 0 {
            proof {
                assert(stepped_part(o, o0) == m);
            }
            return (o, true);
        }
        let plane_z = self.viewing_plane.position.z;
        let z = o.position.z;
        if !o.passed_plane && ((prev.z > plane_z && z <= plane_z) || (prev.z < plane_z && z >= plane_z)) {
            o.passed_plane = true;
            o.max_lifetime = o.age + o.max_lifetime * REMAINING_LIFETIME_PERMILLE / 1000;
            let hit = history.record_crossing(prev, o.position, &self.viewing_plane, o.id, self.time);
            if let Some(h) = hit {
                let e = effect_for_crossing(&h, o.color, &mut self.rng);
                effects.push(e);
                proof {
                    assert(is_plane_crossing(h, o0.position, o.position, self.viewing_plane, o0.id, self.time));
                }
            }
        }
        proof {
            assert(stepped_part(o, o0) == m);
        }
        if o.is_expired(&self.space) {
            return (o, false);
        }
        let ghost before_trail = o;
        if let SpaceObjectType::NeonComet = o.object_type {
            o.update_trail(dt, &mut self.rng);
        }
        proof {
            assert(stepped_part(o, o0) == m);
            assert(before_trail == (SpaceObject { trail: o0.trail, ..o }));
        }
        (o, true)
    }

    /// Advances the simulation by `dt` milliseconds: every object is ticked
    /// in order (see `is_ticked` and `is_crossing_record`), removed objects
    /// are left out, the rest keep their order, and fresh spawns refill the
    /// population up to its target.
    pub fn update(&mut self, dt: i64, history: &mut IntersectionHistory, effects: &mut EffectQueue)
        requires
            old(self).wf(),
            old(history).wf(),
            old(effects).wf(),
            0 <= dt <= MAX_STEP_MS,
        ensures
            final(self).wf(),
            final(history).wf(),
            final(effects).wf(),
            is_update(*final(self), final(history)@, final(effects)@, *old(self), old(history)@, old(effects)@, dt as int),
    {
        let mut pending: Vec<SpaceObject> = Vec::new();
        std::mem::swap(&mut self.objects, &mut pending);
        let mut kept: Vec<SpaceObject> = Vec::new();
        let ghost total = pending@.len();
        let ghost mut ticked: Seq<SpaceObject> = Seq::empty();
        let ghost mut hs: Seq<Seq<Intersection>> = seq![history@];
        let ghost mut es: Seq<Seq<Effect>> = seq![effects@];
        while pending.len() > 0
            invariant
                same_setup(*self, *old(self)),
                self.next_id == old(self).next_id,
                self.objects@.len() == 0,
                old(self).wf(),
                history.wf(),
                effects.wf(),
                0 <= dt <= MAX_STEP_MS,
                total == old(self).objects@.len(),
                pending@ == old(self).objects@.subrange(total - pending@.len(), total as int),
                kept@.len() <= total - pending@.len(),
                forall|i: int| 0 <= i < kept@.len()
                    ==> #[trigger] object_fits(kept@[i], self.max_lateral_speed as int),
                forall|i: int| 0 <= i < kept@.len() ==> exists|j: int| 0 <= j < total - pending@.len()
                    && (#[trigger] kept@[i]).id == old(self).objects@[j].id,
                forall|i: int, k: int| 0 <= i < k < kept@.len() ==> kept@[i].id != kept@[k].id,
                is_update_trace(ticked, hs, es, old(self).objects@.subrange(0, total - pending@.len()), *old(self), dt as int),
                hs[0] == old(history)@ && es[0] == old(effects)@,
                hs.last() == history@ && es.last() == effects@,
                kept@ == survivors(ticked, old(self).space),
            decreases pending@.len(),
        {
            let ghost before = pending@;
            let ghost source = total - pending@.len();
            let ghost kept_before = kept@;
            let o = pending.remove(0);
            proof {
                assert(before[0] == old(self).objects@[source]);
                assert(pending@ =~= old(self).objects@.subrange(total - pending@.len(), total as int));
                assert(object_fits(old(self).objects@[source], self.max_lateral_speed as int));
            }
            let (n, keep) = self.tick_object(o, dt, history, effects);
            if keep {
                kept.push(n);
                proof {
                    assert forall|i: int| 0 <= i < kept@.len()
                        implies #[trigger] object_fits(kept@[i], self.max_lateral_speed as int) by {
                        if i < kept_before.len() {
                            assert(kept@[i] == kept_before[i]);
                        }
                    }
                    assert forall|i: int| 0 <= i < kept@.len() implies exists|j: int| 0 <= j < total - pending@.len()
                        && (#[trigger] kept@[i]).id == old(self).objects@[j].id by {
                        if i < kept_before.len() {
                            assert(kept@[i] == kept_before[i]);
                            let j = choose|j: int| 0 <= j < source && kept_before[i].id == old(self).objects@[j].id;
                            assert(0 <= j < total - pending@.len());
                        } else {
                            assert(kept@[i].id == old(self).objects@[source].id);
                        }
                    }
                    assert forall|i: int, k: int| 0 <= i < k < kept@.len() implies kept@[i].id != kept@[k].id by {
                        if k < kept_before.len() {
                            assert(kept@[i] == kept_before[i] && kept@[k] == kept_before[k]);
                        } else {
                            assert(kept@[i] == kept_before[i]);
                            let j = choose|j: int| 0 <= j < source && kept_before[i].id == old(self).objects@[j].id;
                            assert(old(self).objects@[j].id != old(self).objects@[source].id);
                        }
                    }
                }
            }
            proof {
                let prev_ticked = ticked;
                let prev_hs = hs;
                let prev_es = es;
                ticked = ticked.push(n);
                hs = hs.push(history@);
                es = es.push(effects@);
                let objs = old(self).objects@.subrange(0, source + 1);
                let prev_objs = old(self).objects@.subrange(0, source);
                assert forall|i: int| 0 <= i < objs.len() implies #[trigger] is_ticked(ticked[i], objs[i], *old(self), dt as int) by {
                    if i < source {
                        assert(ticked[i] == prev_ticked[i] && objs[i] == prev_objs[i]);
                    } else {
                        assert(ticked[i] == n && objs[i] == o);
                    }
                }
                assert forall|i: int| 0 <= i < objs.len() implies #[trigger] is_crossing_record(hs[i + 1], es[i + 1], hs[i], es[i], ticked[i], objs[i], *old(self)) by {
                    if i < source {
                        assert(ticked[i] == prev_ticked[i] && objs[i] == prev_objs[i]);
                        assert(hs[i] == prev_hs[i] && hs[i + 1] == prev_hs[i + 1]);
                        assert(es[i] == prev_es[i] && es[i + 1] == prev_es[i + 1]);
                        assert(is_crossing_record(prev_hs[i + 1], prev_es[i + 1], prev_hs[i], prev_es[i], prev_ticked[i], prev_objs[i], *old(self)));
                    } else {
                        assert(ticked[i] == n && objs[i] == o);
                        assert(hs[i] == prev_hs.last() && es[i] == prev_es.last());
                    }
                }
                assert(ticked.drop_last() =~= prev_ticked);
                assert(ticked.last() == n);
                assert(hs[0] == prev_hs[0] && es[0] == prev_es[0]);
            }
        }
        proof {
            assert(old(self).objects@.subrange(0, total as int) =~= old(self).objects@);
        }
        let ghost kept_seq = kept@;
        self.objects = kept;
        if self.time <= TIME_LIMIT {
            self.time = self.time + dt;
        }
        proof {
            assert forall|i: int| 0 <= i < self.objects@.len() implies (#[trigger] self.objects@[i]).id < self.next_id by {
                let j = choose|j: int| 0 <= j < total && kept_seq[i].id == old(self).objects@[j].id;
                assert(object_fits(old(self).objects@[j], self.max_lateral_speed as int));
            }
        }
        self.refill();
        proof {
            assert(self.objects@.subrange(0, kept_seq.len() as int) =~= kept_seq);
            assert(is_update_trace(ticked, hs, es, old(self).objects@, *old(self), dt as int));
        }
    }

    /// Removes the object with the given id; `false` if there is none.
    pub fn remove_object(&mut self, id: u64) -> (r: bool)
        requires
            old(self).wf(),
        ensures
            final(self).wf(),
            same_setup(*final(self), *old(self)),
            final(self).next_id == old(self).next_id,
            r == (exists|i: int| 0 <= i < old(self).objects@.len() && old(self).objects@[i].id == id),
            r ==> exists|i: int| 0 <= i < old(self).objects@.len() && old(self).objects@[i].id == id
                && final(self).objects@ == old(self).objects@.remove(i),
            !r ==> final(self).objects@ == old(self).objects@,
    {
        let mut i: usize = 0;
        while i < self.objects.len()
            invariant
                *self == *old(self),
                self.wf(),
                i <= self.objects@.len(),
                forall|j: int| 0 <= j < i ==> self.objects@[j].id != id,
            decreases self.objects@.len() - i,
        {
            if self.objects[i].id == id {
                let ghost before = self.objects@;
                assert(forall|j: int| 0 <= j < before.len()
                    ==> #[trigger] object_fits(before[j], self.max_lateral_speed as int));
                let _removed = self.objects.remove(i);
                proof {
                    assert forall|j: int| 0 <= j < self.objects@.len()
                        implies #[trigger] object_fits(self.objects@[j], self.max_lateral_speed as int) by {
                        if j < i {
                            assert(self.objects@[j] == before[j]);
                        } else {
                            assert(self.objects@[j] == before[j + 1]);
                            assert(object_fits(before[j + 1], self.max_lateral_speed as int));
                        }
                    }
                }
                return true;
            }
            i = i + 1;
        }
        false
    }

    /// Number of objects of the given kind, waiting or active.
    pub fn count_of_kind(&self, kind: SpaceObjectType) -> (r: usize)
        ensures
            r <= self.objects@.len(),
            r == self.objects@.filter(|o: SpaceObject| o.object_type == kind).len(),
    {
        let mut count: usize = 0;
        let mut i: usize = 0;
        while i < self.objects.len()
            invariant
                i <= self.objects@.len(),
                count == self.objects@.subrange(0, i as int).filter(|o: SpaceObject| o.object_type == kind).len(),
                count <= i,
            decreases self.objects@.len() - i,
        {
            proof {
                let sub = self.objects@.subrange(0, i + 1);
                assert(sub.drop_last() =~= self.objects@.subrange(0, i as int));
                reveal(Seq::filter);
            }
            if self.objects[i].object_type == kind {
                count = count + 1;
            }
            i = i + 1;
        }
        proof {
            assert(self.objects@.subrange(0, i as int) =~= self.objects@);
        }
        count
    }

    /// Active, on-screen objects as flat buffers for a renderer, in the
    /// order the system holds them.
    pub fn visible_objects(&self) -> (r: VisibleObjects)
        requires
            self.wf(),
        ensures
            r.matches(shown(self.objects@, self.space)),
    {
        let mut out = VisibleObjects {
            ids: Vec::new(),
            positions: Vec::new(),
            scales: Vec::new(),
            angles: Vec::new(),
            opacities: Vec::new(),
            colors: Vec::new(),
            trail_counts: Vec::new(),
            trail_positions: Vec::new(),
            trail_fades: Vec::new(),
        };
        let mut i: usize = 0;
        while i < self.objects.len()
            invariant
                self.wf(),
                i <= self.objects@.len(),
                out.matches(shown(self.objects@.subrange(0, i as int), self.space)),
            decreases self.objects@.len() - i,
        {
            let o = &self.objects[i];
            proof {
                assert(self.objects@.subrange(0, i + 1).drop_last() =~= self.objects@.subrange(0, i as int));
                assert(self.objects@.subrange(0, i + 1).last() == *o);
                assert(object_fits(self.objects@[i as int], self.max_lateral_speed as int));
            }
            if o.age >= 0 && self.space.is_in_view_frustum(o.position) {
                let ghost prev = shown(self.objects@.subrange(0, i as int), self.space);
                out.push_object(o, Ghost(prev));
            }
            i = i + 1;
        }
        proof {
            assert(self.objects@.subrange(0, i as int) =~= self.objects@);
        }
        out
    }

    /// The object with the given id, or `None` if there is none.
    pub fn get_object(&self, id: u64) -> (r: Option<&SpaceObject>)
        ensures
            r.is_none() == !(exists|i: int| 0 <= i < self.objects@.len() && self.objects@[i].id == id),
            r.is_some() ==> exists|i: int| 0 <= i < self.objects@.len() && self.objects@[i] == *r.unwrap()
                && r.unwrap().id == id,
    {
        let mut i: usize = 0;
        while i < self.objects.len()
            invariant
                i <= self.objects@.len(),
                forall|j: int| 0 <= j < i ==> self.objects@[j].id != id,
            decreases self.objects@.len() - i,
        {
            if self.objects[i].id == id {
                return Some(&self.objects[i]);
            }
            i = i + 1;
        }
        None
    }

    /// Index of the object with the greatest age, if any.
    pub fn find_oldest_object_index(&self) -> (r: Option<usize>)
        ensures
            r.is_none() == (self.objects@.len() == 0),
            r.is_some() ==> {
                let k = r.unwrap() as int;
                &&& 0 <= k < self.objects@.len()
                &&& forall|j: int| 0 <= j < self.objects@.len() ==> self.objects@[j].age <= self.objects@[k].age
                &&& forall|j: int| 0 <= j < k ==> self.objects@[j].age < self.objects@[k].age
            },
    {
        if self.objects.len() == 0 {
            return None;
        }
        let mut best: usize = 0;
        let mut i: usize = 1;
        while i < self.objects.len()
            invariant
                1 <= i <= self.objects@.len(),
                best < i,
                forall|j: int| 0 <= j < i ==> self.objects@[j].age <= self.objects@[best as int].age,
                forall|j: int| 0 <= j < best ==> self.objects@[j].age < self.objects@[best as int].age,
            decreases self.objects@.len() - i,
        {
            if self.objects[i].age > self.objects[best].age {
                best = i;
            }
            i = i + 1;
        }
        Some(best)
    }

    /// Adds `object`; when the system is full, it takes the place of the
    /// oldest object instead.
    pub fn add_object(&mut self, object: SpaceObject)
        requires
            old(self).wf(),
            object_fits(object, old(self).max_lateral_speed as int),
            object.id < old(self).next_id,
            forall|i: int| 0 <= i < old(self).objects@.len() ==> old(self).objects@[i].id != object.id,
        ensures
            final(self).wf(),
            old(self).objects@.len() < old(self).max_objects
                ==> final(self).objects@ == old(self).objects@.push(object),
            old(self).objects@.len() >= old(self).max_objects ==> old(self).objects@.len() == 0
                || exists|k: int| {
                    &&& 0 <= k < old(self).objects@.len()
                    &&& forall|j: int| 0 <= j < old(self).objects@.len() ==> old(self).objects@[j].age <= old(self).objects@[k].age
                    &&& final(self).objects@ == old(self).objects@.update(k, object)
                },
    {
        if self.objects.len() >= self.max_objects {
            if let Some(k) = self.find_oldest_object_index() {
                self.objects.set(k, object);
                proof {
                    assert forall|i: int| 0 <= i < self.objects@.len()
                        implies #[trigger] object_fits(self.objects@[i], self.max_lateral_speed as int) by {
                        if i != k {
                            assert(self.objects@[i] == old(self).objects@[i]);
                        }
                    }
                    assert forall|i: int| 0 <= i < self.objects@.len() implies (#[trigger] self.objects@[i]).id < self.next_id by {
                        if i != k {
                            assert(self.objects@[i] == old(self).objects@[i]);
                        }
                    }
                    assert forall|i: int, j: int| 0 <= i < j < self.objects@.len() implies self.objects@[i].id != self.objects@[j].id by {
                        if i != k {
                            assert(self.objects@[i] == old(self).objects@[i]);
                        }
                        if j != k {
                            assert(self.objects@[j] == old(self).objects@[j]);
                        }
                    }
                }
            }
            return;
        }
        self.objects.push(object);
        proof {
            assert forall|i: int| 0 <= i < self.objects@.len()
                implies #[trigger] object_fits(self.objects@[i], self.max_lateral_speed as int) by {
                if i < self.objects@.len() - 1 {
                    assert(self.objects@[i] == old(self).objects@[i]);
                }
            }
            assert forall|i: int| 0 <= i < self.objects@.len() implies (#[trigger] self.objects@[i]).id < self.next_id by {
                if i < self.objects@.len() - 1 {
                    assert(self.objects@[i] == old(self).objects@[i]);
                }
            }
            assert forall|i: int, j: int| 0 <= i < j < self.objects@.len() implies self.objects@[i].id != self.objects@[j].id by {
                assert(self.objects@[i] == old(self).objects@[i]);
                if j < self.objects@.len() - 1 {
                    assert(self.objects@[j] == old(self).objects@[j]);
                }
            }
        }
    }
}

/// In every well-formed system, which construction and every operation on
/// a system keep, each object's opacity lies within `[0, 1]` and its size
/// within `[0, target_size]`.
pub proof fn lemma_object_appearance_in_range(system: SpaceObjectSystem)
    requires
        system.wf(),
    ensures
        forall|i: int| 0 <= i < system.objects@.len() ==> {
            &&& 0 <= #[trigger] system.objects@[i].opacity <= 1000
            &&& 0 <= system.objects@[i].size <= system.objects@[i].target_size
        },
{
    assert forall|i: int| 0 <= i < system.objects@.len() implies {
        &&& 0 <= #[trigger] system.objects@[i].opacity <= 1000
        &&& 0 <= system.objects@[i].size <= system.objects@[i].target_size
    } by {
        assert(object_fits(system.objects@[i], system.max_lateral_speed as int));
    }
}

/// In every well-formed system, which construction and every operation on
/// a system keep, no object moves across the depth axis faster than the
/// system's configured largest lateral speed.
pub proof fn lemma_lateral_speed_within_limit(system: SpaceObjectSystem)
    requires
        system.wf(),
    ensures
        forall|i: int| 0 <= i < system.objects@.len()
            ==> lateral2(#[trigger] system.objects@[i].velocity)
                <= system.max_lateral_speed * system.max_lateral_speed,
{
    assert forall|i: int| 0 <= i < system.objects@.len()
        implies lateral2(#[trigger] system.objects@[i].velocity)
            <= system.max_lateral_speed * system.max_lateral_speed by {
        assert(object_fits(system.objects@[i], system.max_lateral_speed as int));
    }
}

/// The values drawn for a new object: its start on the far plane, the
/// point where it leaves the picture, whether it aims at the observer
/// instead, and its parameters.
#[derive(Clone, Copy, Debug, PartialEq, Eq, Structural)]
pub struct SpawnDraws {
    pub start_x: i64,
    pub start_y: i64,
    pub exit_x: i64,
    pub exit_y: i64,
    pub aim_at_observer: bool,
    pub speed: i64,
    pub delay: i64,
    pub lifetime: i64,
    pub size: i64,
    pub growth: i64,
    pub acceleration: i64,
    pub rot_x: i64,
    pub rot_y: i64,
    pub rot_z: i64,
}

impl SpawnDraws {
    pub open spec fn in_range(self, space: SpaceDefinition) -> bool {
        &&& space.min_x <= self.start_x <= space.max_x
        &&& space.min_y <= self.start_y <= space.max_y
        &&& -COORD_LIMIT <= self.exit_x <= COORD_LIMIT
        &&& -COORD_LIMIT <= self.exit_y <= COORD_LIMIT
        &&& SPAWN_SPEED_MIN <= self.speed < SPAWN_SPEED_MAX
        &&& SPAWN_DELAY_MIN <= self.delay < SPAWN_DELAY_MAX
        &&& SPAWN_LIFETIME_MIN <= self.lifetime < SPAWN_LIFETIME_MAX
        &&& SPAWN_SIZE_MIN <= self.size < SPAWN_SIZE_MAX
        &&& SPAWN_GROWTH_MIN <= self.growth < SPAWN_GROWTH_MAX
        &&& SPAWN_ACCELERATION_MIN <= self.acceleration < SPAWN_ACCELERATION_MAX
        &&& 0 <= self.rot_x < FULL_TURN && 0 <= self.rot_y < FULL_TURN && 0 <= self.rot_z < FULL_TURN
    }
}

/// Whether `c` is the palette colour of the object with this id.
pub open spec fn is_palette_color(c: Color, id: u64) -> bool {
    let k = id % 5;
    if k == 0 {
        c.r == 0 && c.g == 1000 && c.b == 800
    } else if k == 1 {
        c.r == 1000 && c.g == 200 && c.b == 800
    } else if k == 2 {
        c.r == 200 && c.g == 400 && c.b == 1000
    } else if k == 3 {
        c.r == 1000 && c.g == 800 && c.b == 0
    } else {
        c.r == 600 && c.g == 0 && c.b == 1000
    }
}

/// The point the draws `d` aim at: the observer itself, or the exit point
/// at the observer's depth.
pub open spec fn aim_point(space: SpaceDefinition, d: SpawnDraws) -> Vec3 {
    if d.aim_at_observer {
        space.observer_position
    } else {
        Vec3 { x: d.exit_x, y: d.exit_y, z: space.observer_position.z }
    }
}

/// Whether `r` is the object that the draws `d` give: waiting `d.delay`
/// milliseconds at its start on the far plane, nothing grown, moving at
/// `d.speed` from its start toward its aim point (straight down the depth
/// axis if the two coincide), with the lateral part then limited to
/// `max_lateral`; it keeps its exit point either way.
pub open spec fn is_spawned_from(
    r: SpaceObject,
    space: SpaceDefinition,
    max_lateral: int,
    kind: SpaceObjectType,
    id: u64,
    d: SpawnDraws,
) -> bool {
    let from = Vec3 { x: d.start_x, y: d.start_y, z: space.max_z };
    let to = aim_point(space, d);
    let len = int_sqrt(dist2(to, from) as nat) as int;
    &&& r.id == id
    &&& r.object_type == kind
    &&& r.position == from
    &&& r.exit_x == d.exit_x && r.exit_y == d.exit_y
    &&& exists|raw: Vec3| {
        &&& (len > 0 ==> {
            &&& raw.x == scale_toward_zero(to.x - from.x, d.speed as int, len)
            &&& raw.y == scale_toward_zero(to.y - from.y, d.speed as int, len)
            &&& raw.z == scale_toward_zero(to.z - from.z, d.speed as int, len)
        })
        &&& (len == 0 ==> raw.x == 0 && raw.y == 0 && raw.z == -d.speed)
        &&& clamps_lateral(r.velocity, raw, max_lateral)
    }
    &&& r.acceleration == d.acceleration
    &&& r.max_speed == d.speed * 5 / 2
    &&& r.rotation == (Vec3 { x: d.rot_x, y: d.rot_y, z: d.rot_z })
    &&& r.size == 0 && r.scale == 0 && r.opacity == 0
    &&& r.target_size == d.size
    &&& r.growth_rate == d.growth
    &&& r.age == -d.delay
    &&& r.max_lifetime == d.lifetime
    &&& r.active && !r.passed_plane
    &&& r.distance_traveled_ratio == 0
    &&& is_palette_color(r.color, id)
    &&& r.trail@.len() == 0
}

/// The object that the draws `d` give (see `is_spawned_from`).
pub fn object_from_draws(
    space: &SpaceDefinition,
    max_lateral: i64,
    kind: SpaceObjectType,
    id: u64,
    d: SpawnDraws,
) -> (r: SpaceObject)
    requires
        space.wf(),
        0 <= max_lateral <= SPEED_LIMIT,
        d.in_range(*space),
    ensures
        object_fits(r, max_lateral as int),
        is_spawned_from(r, *space, max_lateral as int, kind, id, d),
        r.velocity.z <= 0,
{
    let from = Vec3 { x: d.start_x, y: d.start_y, z: space.max_z };
    let to = if d.aim_at_observer {
        space.observer_position
    } else {
        Vec3 { x: d.exit_x, y: d.exit_y, z: space.observer_position.z }
    };
    let speed = d.speed;
    let n = dist2_exact(to, from);
    let len = floor_sqrt(n);
    proof {
        assert((to.x - from.x) * (to.x - from.x) >= 0) by (nonlinear_arith);
        assert((to.y - from.y) * (to.y - from.y) >= 0) by (nonlinear_arith);
        assert((to.z - from.z) * (to.z - from.z) >= 0) by (nonlinear_arith);
        assert(len <= 4_000_000_000) by (nonlinear_arith)
            requires len * len <= 12_000_000_000_000_000_000, len >= 0;
        lemma_component_within_root(to.x - from.x, n as int, len as int);
        lemma_component_within_root(to.y - from.y, n as int, len as int);
        lemma_component_within_root(to.z - from.z, n as int, len as int);
        assert(0 <= (from.z - to.z) * speed) by (nonlinear_arith)
            requires from.z > to.z, speed > 0;
        if len > 0 {
            vstd::arithmetic::div_mod::lemma_div_pos_is_pos((from.z - to.z) * speed, len as int);
        }
    }
    let raw = if len > 0 {
        Vec3 {
            x: scale_by_ratio(to.x - from.x, speed, len as i64),
            y: scale_by_ratio(to.y - from.y, speed, len as i64),
            z: scale_by_ratio(to.z - from.z, speed, len as i64),
        }
    } else {
        Vec3 { x: 0, y: 0, z: -speed }
    };
    let velocity = clamp_lateral(raw, max_lateral);
    let r = SpaceObject {
        id,
        object_type: kind,
        position: from,
        velocity,
        acceleration: d.acceleration,
        max_speed: speed * 5 / 2,
        rotation: Vec3 { x: d.rot_x, y: d.rot_y, z: d.rot_z },
        size: 0,
        target_size: d.size,
        growth_rate: d.growth,
        scale: 0,
        opacity: 0,
        age: -d.delay,
        max_lifetime: d.lifetime,
        active: true,
        passed_plane: false,
        distance_traveled_ratio: 0,
        color: palette_color(id),
        exit_x: d.exit_x,
        exit_y: d.exit_y,
        trail: Vec::new(),
    };
    proof {
        assert(clamps_lateral(r.velocity, raw, max_lateral as int));
    }
    r
}

/// An object still waiting to appear after a tick is kept, unmoved and
/// ungrown, only older; on the tick in which its wait ends it starts to
/// move with its shaped velocity and to grow.
pub proof fn lemma_waiting_then_active(n: SpaceObject, o: SpaceObject, sys: SpaceObjectSystem, dt: int)
    requires
        is_ticked(n, o, sys, dt),
        o.age < 0,
    ensures
        o.age + dt < 0 ==> {
            &&& !dropped(n, sys.space)
            &&& n == (SpaceObject { age: (o.age + dt) as i64, ..o })
        },
        o.age + dt >= 0 ==> {
            &&& n.position.x == o.position.x + displacement(n.velocity.x as int, dt)
            &&& n.position.y == o.position.y + displacement(n.velocity.y as int, dt)
            &&& n.position.z == o.position.z + displacement(n.velocity.z as int, dt)
            &&& n.size == grown_size(o.size as int, o.growth_rate as int, o.target_size as int, dt)
        },
{
    let m = stepped_part(n, o);
    if o.age + dt < 0 {
        assert(m == (SpaceObject { age: m.age, ..o }));
        assert(!first_crossing(o, m, sys.viewing_plane));
    }
}

proof fn lemma_survivors_len(ticked: Seq<SpaceObject>, space: SpaceDefinition)
    ensures
        survivors(ticked, space).len() <= ticked.len(),
    decreases ticked.len(),
{
    if ticked.len() > 0 {
        lemma_survivors_len(ticked.drop_last(), space);
    }
}

proof fn lemma_survivor_kept(ticked: Seq<SpaceObject>, space: SpaceDefinition, i: int)
    requires
        0 <= i < ticked.len(),
        !dropped(ticked[i], space),
    ensures
        exists|j: int| 0 <= j < survivors(ticked, space).len() && survivors(ticked, space)[j] == ticked[i],
    decreases ticked.len(),
{
    if i == ticked.len() - 1 {
        let k = survivors(ticked.drop_last(), space).len() as int;
        assert(survivors(ticked, space)[k] == ticked[i]);
    } else {
        lemma_survivor_kept(ticked.drop_last(), space, i);
        let prev = survivors(ticked.drop_last(), space);
        let j = choose|j: int| 0 <= j < prev.len() && prev[j] == ticked.drop_last()[i];
        assert(survivors(ticked, space)[j] == ticked[i]);
    }
}

/// After any update, whatever was removed before it, a population at or
/// below its target is back at the target, as long as ids remain.
pub proof fn lemma_population_restored(
    n: SpaceObjectSystem,
    h: Seq<Intersection>,
    e: Seq<Effect>,
    o: SpaceObjectSystem,
    h0: Seq<Intersection>,
    e0: Seq<Effect>,
    dt: int,
)
    requires
        is_update(n, h, e, o, h0, e0, dt),
        o.objects@.len() <= o.target_object_count,
        o.next_id <= u64::MAX - o.max_objects,
    ensures
        n.objects@.len() == o.target_object_count,
{
    let (ticked, hs, es) = choose|ticked: Seq<SpaceObject>, hs: Seq<Seq<Intersection>>, es: Seq<Seq<Effect>>|
        #![trigger is_update_trace(ticked, hs, es, o.objects@, o, dt)]
        {
            let kept = survivors(ticked, o.space);
            &&& is_update_trace(ticked, hs, es, o.objects@, o, dt)
            &&& hs[0] == h0 && es[0] == e0
            &&& hs.last() == h && es.last() == e
            &&& kept.len() <= n.objects@.len()
            &&& n.objects@.subrange(0, kept.len() as int) == kept
            &&& forall|i: int| kept.len() <= i < n.objects@.len()
                ==> #[trigger] is_fresh_spawn(n.objects@[i], o.space, o.next_id)
            &&& (kept.len() <= o.target_object_count && o.next_id <= u64::MAX - o.max_objects
                ==> n.objects@.len() == o.target_object_count)
        };
    lemma_survivors_len(ticked, o.space);
}

/// After any update, an object whose wait outlasts the step is still there,
/// unchanged but for its age.
pub proof fn lemma_waiting_object_kept(
    n: SpaceObjectSystem,
    h: Seq<Intersection>,
    e: Seq<Effect>,
    o: SpaceObjectSystem,
    h0: Seq<Intersection>,
    e0: Seq<Effect>,
    dt: int,
    i: int,
)
    requires
        is_update(n, h, e, o, h0, e0, dt),
        dt >= 0,
        0 <= i < o.objects@.len(),
        o.objects@[i].age + dt < 0,
    ensures
        exists|j: int| 0 <= j < n.objects@.len()
            && n.objects@[j] == (SpaceObject { age: (o.objects@[i].age + dt) as i64, ..o.objects@[i] }),
{
    let (ticked, hs, es) = choose|ticked: Seq<SpaceObject>, hs: Seq<Seq<Intersection>>, es: Seq<Seq<Effect>>|
        #![trigger is_update_trace(ticked, hs, es, o.objects@, o, dt)]
        {
            let kept = survivors(ticked, o.space);
            &&& is_update_trace(ticked, hs, es, o.objects@, o, dt)
            &&& hs[0] == h0 && es[0] == e0
            &&& hs.last() == h && es.last() == e
            &&& kept.len() <= n.objects@.len()
            &&& n.objects@.subrange(0, kept.len() as int) == kept
            &&& forall|i: int| kept.len() <= i < n.objects@.len()
                ==> #[trigger] is_fresh_spawn(n.objects@[i], o.space, o.next_id)
            &&& (kept.len() <= o.target_object_count && o.next_id <= u64::MAX - o.max_objects
                ==> n.objects@.len() == o.target_object_count)
        };
    assert(is_ticked(ticked[i], o.objects@[i], o, dt));
    lemma_waiting_then_active(ticked[i], o.objects@[i], o, dt);
    lemma_survivor_kept(ticked, o.space, i);
    let kept = survivors(ticked, o.space);
    let j = choose|j: int| 0 <= j < kept.len() && kept[j] == ticked[i];
    assert(n.objects@.subrange(0, kept.len() as int)[j] == n.objects@[j]);
}

/// The colour of an object by its id, cycling through five neon hues:
/// cyan, pink, blue, yellow and purple.
pub fn palette_color(id: u64) -> (r: Color)
    ensures
        r.wf(),
        is_palette_color(r, id),
        id % 5 == 0 ==> r == (Color { r: 0, g: 1000, b: 800 }),
        id % 5 == 1 ==> r == (Color { r: 1000, g: 200, b: 800 }),
        id % 5 == 2 ==> r == (Color { r: 200, g: 400, b: 1000 }),
        id % 5 == 3 ==> r == (Color { r: 1000, g: 800, b: 0 }),
        id % 5 == 4 ==> r == (Color { r: 600, g: 0, b: 1000 }),
{
    let choice = id % 5;
    if choice == 0 {
        Color { r: 0, g: 1000, b: 800 }
    } else if choice == 1 {
        Color { r: 1000, g: 200, b: 800 }
    } else if choice == 2 {
        Color { r: 200, g: 400, b: 1000 }
    } else if choice == 3 {
        Color { r: 1000, g: 800, b: 0 }
    } else {
        Color { r: 600, g: 0, b: 1000 }
    }
}

} // verus!
