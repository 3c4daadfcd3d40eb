use vstd::prelude::*;
use rand::rngs::StdRng;
use crate::geometry::Vec3;
use crate::intersection::{Intersection, IntersectionType};
use crate::random::draw_range;

verus! {

/// Most effects a queue keeps.
pub const EFFECT_CAPACITY: usize = 20;

/// Longest lifetime of an effect, in milliseconds.
pub const EFFECT_LIFETIME_LIMIT: i64 = 60_000;

/// Longest frame step accepted, in milliseconds.
pub const MAX_STEP_MS: i64 = 1_000;

/// Ranges from which a new effect's radius (thousandths of a unit),
/// lifetime (milliseconds) and intensity (thousandths) are drawn.
pub const EFFECT_RADIUS_MIN: i64 = 2_000;
pub const EFFECT_RADIUS_MAX: i64 = 6_000;
pub const EFFECT_LIFETIME_MIN: i64 = 500;
pub const EFFECT_LIFETIME_MAX: i64 = 1_500;
pub const EFFECT_INTENSITY_MIN: i64 = 500;
pub const EFFECT_INTENSITY_MAX: i64 = 1_000;

/// An RGB colour, each channel in thousandths.
#[derive(Clone, Copy, Debug, PartialEq, Eq, Structural)]
pub struct Color {
    pub r: i64,
    pub g: i64,
    pub b: i64,
}

impl Color {
    pub open spec fn wf(self) -> bool {
        &&& 0 <= self.r <= 1000
        &&& 0 <= self.g <= 1000
        &&& 0 <= self.b <= 1000
    }
}

#[derive(Clone, Copy, Debug, PartialEq, Eq, Structural)]
pub enum EffectKind {
    Ripple,
    Explosion,
    Glow,
    Distortion,
}

/// A transient visual event at a plane crossing.
#[derive(Clone, Copy, Debug, PartialEq, Eq, Structural)]
pub struct Effect {
    pub position: Vec3,
    pub color: Color,
    pub radius: i64,
    /// Milliseconds the effect lasts.
    pub lifetime: i64,
    /// Milliseconds the effect has lasted so far.
    pub current_age: i64,
    pub intensity: i64,
    pub kind: EffectKind,
}

impl Effect {
    pub open spec fn wf(self) -> bool {
        0 <= self.current_age < self.lifetime <= EFFECT_LIFETIME_LIMIT
    }
}

/// The effect that a crossing of the given kind produces.
pub open spec fn effect_kind_for(t: IntersectionType) -> EffectKind {
    match t {
        IntersectionType::Entry => EffectKind::Ripple,
        IntersectionType::Exit => EffectKind::Glow,
        _ => EffectKind::Distortion,
    }
}

pub fn effect_kind_of(t: IntersectionType) -> (r: EffectKind)
    ensures
        r == effect_kind_for(t),
{
    match t {
        IntersectionType::Entry => EffectKind::Ripple,
        IntersectionType::Exit => EffectKind::Glow,
        _ => EffectKind::Distortion,
    }
}

/// A fresh effect for a crossing, with radius, lifetime and intensity drawn
/// from their configured ranges.
pub fn effect_for_crossing(hit: &Intersection, color: Color, rng: &mut StdRng) -> (r: Effect)
    ensures
        r.wf(),
        r.position == hit.position,
        r.color == color,
        r.kind == effect_kind_for(hit.intersection_type),
        r.current_age == 0,
        EFFECT_RADIUS_MIN <= r.radius < EFFECT_RADIUS_MAX,
        EFFECT_LIFETIME_MIN <= r.lifetime < EFFECT_LIFETIME_MAX,
        EFFECT_INTENSITY_MIN <= r.intensity < EFFECT_INTENSITY_MAX,
{
    let radius = draw_range(rng, EFFECT_RADIUS_MIN, EFFECT_RADIUS_MAX);
    let lifetime = draw_range(rng, EFFECT_LIFETIME_MIN, EFFECT_LIFETIME_MAX);
    let intensity = draw_range(rng, EFFECT_INTENSITY_MIN, EFFECT_INTENSITY_MAX);
    Effect {
        position: hit.position,
        color,
        radius,
        lifetime,
        current_age: 0,
        intensity,
        kind: effect_kind_of(hit.intersection_type),
    }
}

/// `e` after `dt` more milliseconds.
pub open spec fn aged(e: Effect, dt: int) -> Effect {
    Effect { current_age: (e.current_age + dt) as i64, ..e }
}

/// The effects of `s` aged by `dt`, without those whose lifetime has run out.
pub open spec fn aged_survivors(s: Seq<Effect>, dt: int) -> Seq<Effect>
    decreases s.len(),
{
    if s.len() == 0 {
        s
    } else {
        let rest = aged_survivors(s.drop_last(), dt);
        let a = aged(s.last(), dt);
        if a.current_age < a.lifetime {
            rest.push(a)
        } else {
            rest
        }
    }
}

/// `q` with `e` appended, its oldest effect dropped if that overflows the capacity.
pub open spec fn queue_append(q: Seq<Effect>, e: Effect) -> Seq<Effect> {
    if q.len() < EFFECT_CAPACITY {
        q.push(e)
    } else {
        q.push(e).drop_first()
    }
}

/// Live visual effects, oldest first.
pub struct EffectQueue {
    effects: Vec<Effect>,
}

impl View for EffectQueue {
    type V = Seq<Effect>;

    closed spec fn view(&self) -> Seq<Effect> {
        self.effects@
    }
}

pub proof fn lemma_aged_survivors_wf(s: Seq<Effect>, dt: int)
    requires
        0 <= dt <= MAX_STEP_MS,
        forall|i: int| 0 <= i < s.len() ==> s[i].wf(),
    ensures
        aged_survivors(s, dt).len() <= s.len(),
        forall|i: int| 0 <= i < aged_survivors(s, dt).len() ==> aged_survivors(s, dt)[i].wf(),
    decreases s.len(),
{
    if s.len() > 0 {
        let prefix = s.drop_last();
        assert forall|i: int| 0 <= i < prefix.len() implies prefix[i].wf() by {
            assert(prefix[i] == s[i]);
        }
        lemma_aged_survivors_wf(prefix, dt);
        assert(s.last() == s[s.len() - 1]);
        assert(s.last().wf());
        let a = aged(s.last(), dt);
        let rest = aged_survivors(prefix, dt);
        assert(a.current_age == s.last().current_age + dt);
        if a.current_age < a.lifetime {
            assert forall|i: int| 0 <= i < rest.push(a).len() implies rest.push(a)[i].wf() by {
                if i < rest.len() {
                    assert(rest.push(a)[i] == rest[i]);
                }
            }
        }
    }
}

impl EffectQueue {
    pub open spec fn wf(&self) -> bool {
        &&& self@.len() <= EFFECT_CAPACITY
        &&& forall|i: int| 0 <= i < self@.len() ==> self@[i].wf()
    }

    pub fn new() -> (r: EffectQueue)
        ensures
            r.wf(),
            r@ == Seq::<Effect>::empty(),
    {
        EffectQueue { effects: Vec::new() }
    }

    pub fn len(&self) -> (r: usize)
        ensures
            r == self@.len(),
    {
        self.effects.len()
    }

    /// Appends `e`, dropping the oldest effect when the queue is full.
    pub fn push(&mut self, e: Effect)
        requires
            old(self).wf(),
            e.wf(),
        ensures
            final(self).wf(),
            final(self)@ == queue_append(old(self)@, e),
    {
        self.effects.push(e);
        if self.effects.len() > EFFECT_CAPACITY {
            self.effects.remove(0);
        }
        assert(self@ =~= queue_append(old(self)@, e));
    }

    /// Ages every effect by `dt` milliseconds and drops those that have
    /// reached their lifetime; the order of the rest is kept.
    pub fn advance(&mut self, dt: i64)
        requires
            old(self).wf(),
            0 <= dt <= MAX_STEP_MS,
        ensures
            final(self).wf(),
            final(self)@ == aged_survivors(old(self)@, dt as int),
    {
        let mut kept: Vec<Effect> = Vec::new();
        let n = self.effects.len();
        let mut i: usize = 0;
        while i < n
            invariant
                n == self@.len(),
                self.wf(),
                0 <= dt <= MAX_STEP_MS,
                i <= n,
                kept@ == aged_survivors(self@.subrange(0, i as int), dt as int),
            decreases n - i,
        {
            let e = self.effects[i];
            let a = Effect { current_age: e.current_age + dt, ..e };
            proof {
                assert(self@.subrange(0, i + 1).drop_last() =~= self@.subrange(0, i as int));
            }
            if a.current_age < a.lifetime {
                kept.push(a);
            }
            i = i + 1;
        }
        proof {
            assert(self@.subrange(0, n as int) =~= self@);
            lemma_aged_survivors_wf(self@, dt as int);
        }
        self.effects = kept;
    }

    /// A copy of the live effects, oldest first.
    pub fn snapshot(&self) -> (r: Vec<Effect>)
        ensures
            r@ == self@,
    {
        let mut out: Vec<Effect> = Vec::new();
        let mut i: usize = 0;
        while i < self.effects.len()
            invariant
                i <= self@.len(),
                out@ == self@.subrange(0, i as int),
            decreases self@.len() - i,
        {
            out.push(self.effects[i]);
            i = i + 1;
        }
        assert(out@ =~= self@);
        out
    }
}

} // verus!
