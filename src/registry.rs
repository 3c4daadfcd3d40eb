use vstd::prelude::*;
use crate::effects::{aged_survivors, Effect, EffectQueue, MAX_STEP_MS};
use crate::intersection::{Intersection, IntersectionHistory};
use crate::objects::SpaceObjectType;
use crate::system::{is_update, SpaceObjectSystem, VisibleObjects, shown};

verus! {

/// `dt` limited to `[0, MAX_STEP_MS]`.
pub open spec fn clamped_step(dt: int) -> int {
    if dt < 0 {
        0
    } else if dt > MAX_STEP_MS {
        MAX_STEP_MS as int
    } else {
        dt
    }
}

pub fn clamp_step(dt: i64) -> (r: i64)
    ensures
        r == clamped_step(dt as int),
{
    if dt < 0 {
        0
    } else if dt > MAX_STEP_MS {
        MAX_STEP_MS
    } else {
        dt
    }
}

/// The live systems, addressed by handles, with the crossing history and
/// effect queue that they share. A handle is a slot index: it is never
/// reused, so a freed handle stays invalid.
pub struct SystemRegistry {
    systems: Vec<Option<SpaceObjectSystem>>,
    history: IntersectionHistory,
    effects: EffectQueue,
}

impl SystemRegistry {
    pub closed spec fn slots(&self) -> Seq<Option<SpaceObjectSystem>> {
        self.systems@
    }

    pub closed spec fn history_view(&self) -> Seq<Intersection> {
        self.history@
    }

    pub closed spec fn effects_view(&self) -> Seq<Effect> {
        self.effects@
    }

    /// Whether `handle` names a live system.
    pub open spec fn live(&self, handle: usize) -> bool {
        handle < self.slots().len() && self.slots()[handle as int].is_some()
    }

    pub closed spec fn wf(&self) -> bool {
        &&& self.history.wf()
        &&& self.effects.wf()
        &&& forall|i: int| 0 <= i < self.systems@.len() && (#[trigger] self.systems@[i]).is_some()
            ==> self.systems@[i].unwrap().wf()
    }

    pub fn new() -> (r: SystemRegistry)
        ensures
            r.wf(),
            r.slots().len() == 0,
            r.history_view().len() == 0,
            r.effects_view().len() == 0,
    {
        SystemRegistry { systems: Vec::new(), history: IntersectionHistory::new(), effects: EffectQueue::new() }
    }

    /// Creates a system and returns its handle. The viewport share is
    /// limited to `[0, 100]` percent.
    pub fn create_system(&mut self, target_count: usize, viewport_percent: i64, fov_degrees: i64, seed: u64) -> (r: usize)
        requires
            old(self).wf(),
        ensures
            final(self).wf(),
            r == old(self).slots().len(),
            final(self).slots().len() == old(self).slots().len() + 1,
            final(self).live(r),
            final(self).slots()[r as int].unwrap().objects@.len()
                == final(self).slots()[r as int].unwrap().target_object_count,
            forall|h: int| 0 <= h < old(self).slots().len() ==> final(self).slots()[h] == old(self).slots()[h],
            final(self).history_view() == old(self).history_view(),
            final(self).effects_view() == old(self).effects_view(),
    {
        let percent = if viewport_percent < 0 { 0 } else if viewport_percent > 100 { 100 } else { viewport_percent };
        let system = SpaceObjectSystem::new(target_count, percent, fov_degrees, seed);
        let handle = self.systems.len();
        self.systems.push(Some(system));
        proof {
            assert forall|i: int| 0 <= i < self.systems@.len() && (#[trigger] self.systems@[i]).is_some()
                implies self.systems@[i].unwrap().wf() by {
                if i < handle {
                    assert(self.systems@[i] == old(self).systems@[i]);
                }
            }
        }
        handle
    }

    /// Advances the system by `dt` milliseconds, limited to
    /// `[0, MAX_STEP_MS]`; `false`, with nothing changed, if the handle is
    /// not live.
    pub fn update_system(&mut self, handle: usize, dt: i64) -> (r: bool)
        requires
            old(self).wf(),
        ensures
            final(self).wf(),
            r == old(self).live(handle),
            final(self).slots().len() == old(self).slots().len(),
            forall|h: int| 0 <= h < old(self).slots().len() && h != handle
                ==> final(self).slots()[h] == old(self).slots()[h],
            r ==> final(self).live(handle),
            !r ==> final(self).slots() == old(self).slots() && final(self).history_view() == old(self).history_view()
                && final(self).effects_view() == old(self).effects_view(),
            r ==> is_update(
                final(self).slots()[handle as int].unwrap(),
                final(self).history_view(),
                final(self).effects_view(),
                old(self).slots()[handle as int].unwrap(),
                old(self).history_view(),
                old(self).effects_view(),
                clamped_step(dt as int),
            ),
    {
        if handle >= self.systems.len() {
            return false;
        }
        let slot = self.systems.remove(handle);
        match slot {
            None => {
                self.systems.insert(handle, None);
                proof {
                    assert(self.systems@ =~= old(self).systems@);
                }
                false
            },
            Some(mut system) => {
                proof {
                    assert(old(self).systems@[handle as int].is_some());
                }
                system.update(clamp_step(dt), &mut self.history, &mut self.effects);
                self.systems.insert(handle, Some(system));
                proof {
                    assert forall|i: int| 0 <= i < self.systems@.len() && (#[trigger] self.systems@[i]).is_some()
                        implies self.systems@[i].unwrap().wf() by {
                        if i != handle {
                            assert(self.systems@[i] == old(self).systems@[i]);
                        }
                    }
                }
                true
            },
        }
    }

    /// Frees the system; its handle stays invalid from then on. `false` if
    /// the handle was not live.
    pub fn free_system(&mut self, handle: usize) -> (r: bool)
        requires
            old(self).wf(),
        ensures
            final(self).wf(),
            r == old(self).live(handle),
            final(self).slots().len() == old(self).slots().len(),
            !final(self).live(handle),
            forall|h: int| 0 <= h < old(self).slots().len() && h != handle
                ==> final(self).slots()[h] == old(self).slots()[h],
            final(self).history_view() == old(self).history_view(),
            final(self).effects_view() == old(self).effects_view(),
    {
        if handle >= self.systems.len() {
            return false;
        }
        let was_live = self.systems[handle].is_some();
        self.systems.set(handle, None);
        proof {
            assert forall|i: int| 0 <= i < self.systems@.len() && (#[trigger] self.systems@[i]).is_some()
                implies self.systems@[i].unwrap().wf() by {
                assert(i != handle);
                assert(self.systems@[i] == old(self).systems@[i]);
            }
        }
        was_live
    }

    /// Number of objects of `kind` in the system, or `None` if the handle
    /// is not live.
    pub fn get_active_count(&self, handle: usize, kind: SpaceObjectType) -> (r: Option<usize>)
        ensures
            r.is_some() == self.live(handle),
            r.is_some() ==> r.unwrap() == self.slots()[handle as int].unwrap().objects@.filter(
                |o: crate::objects::SpaceObject| o.object_type == kind).len(),
    {
        if handle >= self.systems.len() {
            return None;
        }
        match &self.systems[handle] {
            None => None,
            Some(system) => Some(system.count_of_kind(kind)),
        }
    }

    /// The system's active, on-screen objects as flat buffers, or `None` if
    /// the handle is not live.
    pub fn get_visible_objects(&self, handle: usize) -> (r: Option<VisibleObjects>)
        requires
            self.wf(),
        ensures
            r.is_some() == self.live(handle),
            r.is_some() ==> r.unwrap().matches(shown(
                self.slots()[handle as int].unwrap().objects@,
                self.slots()[handle as int].unwrap().space,
            )),
    {
        if handle >= self.systems.len() {
            return None;
        }
        match &self.systems[handle] {
            None => None,
            Some(system) => {
                proof {
                    assert(self.systems@[handle as int].is_some());
                }
                Some(system.visible_objects())
            },
        }
    }

    /// Up to `max_count` recorded crossings, the most recent first.
    pub fn get_recent_intersections(&self, max_count: usize) -> (r: Vec<Intersection>)
        ensures
            r@.len() == if max_count < self.history_view().len() { max_count as int } else { self.history_view().len() as int },
            forall|i: int| 0 <= i < r@.len() ==> r@[i] == self.history_view()[self.history_view().len() - 1 - i],
    {
        self.history.recent(max_count)
    }

    /// Ages the shared effects by `dt` milliseconds, limited to
    /// `[0, MAX_STEP_MS]`, and returns those still live, oldest first.
    pub fn update_effects(&mut self, dt: i64) -> (r: Vec<Effect>)
        requires
            old(self).wf(),
        ensures
            final(self).wf(),
            final(self).effects_view() == aged_survivors(old(self).effects_view(), clamped_step(dt as int)),
            r@ == final(self).effects_view(),
            final(self).slots() == old(self).slots(),
            final(self).history_view() == old(self).history_view(),
    {
        self.effects.advance(clamp_step(dt));
        self.effects.snapshot()
    }

    /// The live effects, oldest first.
    pub fn get_effects(&self) -> (r: Vec<Effect>)
        ensures
            r@ == self.effects_view(),
    {
        self.effects.snapshot()
    }
}

} // verus!
