use cosmic_space::effects::{effect_kind_of, Color, Effect, EffectKind, EffectQueue, EFFECT_CAPACITY};
use cosmic_space::geometry::Vec3;
use cosmic_space::intersection::{IntersectionHistory, IntersectionType};
use cosmic_space::objects::SpaceObjectType;
use cosmic_space::registry::SystemRegistry;
use cosmic_space::space::SpaceDefinition;
use cosmic_space::system::{palette_color, SpaceObjectSystem, MAX_OBJECTS};

fn effect(lifetime: i64, intensity: i64) -> Effect {
    Effect {
        position: Vec3::new(0, 0, 0),
        color: Color { r: 0, g: 0, b: 0 },
        radius: 1000,
        lifetime,
        current_age: 0,
        intensity,
        kind: EffectKind::Ripple,
    }
}

#[test]
fn space_dimensions_and_viewport() {
    let s = SpaceDefinition::new(25, 60);
    assert_eq!(s.get_dimensions(), Vec3::new(200_000, 200_000, 200_000));
    assert_eq!(s.get_viewport_dimensions(), (50_000, 50_000));
}

#[test]
fn scale_factor_breakpoints() {
    let s = SpaceDefinition::new(25, 60);
    let o = s.observer_position;
    assert_eq!(s.get_scale_factor(o), 1400);
    assert_eq!(s.get_scale_factor(Vec3::new(o.x, o.y, o.z + 5_000)), 1225);
    assert_eq!(s.get_scale_factor(Vec3::new(o.x, o.y, o.z + 10_000)), 960);
    assert_eq!(s.get_scale_factor(Vec3::new(o.x, o.y, o.z + 100_000)), 600);
    assert_eq!(s.get_scale_factor(Vec3::new(o.x, o.y, o.z + 250_000)), 200);
}

#[test]
fn transparency_factor_breakpoints() {
    let s = SpaceDefinition::new(25, 60);
    let o = s.observer_position;
    assert_eq!(s.get_transparency_factor(o), 400);
    assert_eq!(s.get_transparency_factor(Vec3::new(o.x, o.y, o.z + 5_000)), 600);
    assert_eq!(s.get_transparency_factor(Vec3::new(o.x, o.y, o.z + 10_000)), 1000);
    assert_eq!(s.get_transparency_factor(Vec3::new(o.x, o.y, o.z + 149_800)), 1000);
    assert_eq!(s.get_transparency_factor(Vec3::new(o.x, o.y, o.z + 175_000)), 500);
    assert_eq!(s.get_transparency_factor(Vec3::new(o.x, o.y, o.z + 200_000)), 0);
}

#[test]
fn visibility_rules() {
    let s = SpaceDefinition::new(25, 60);
    assert!(s.is_in_view_frustum(Vec3::new(90_000, 90_000, 100_000)));
    assert!(!s.is_in_view_frustum(Vec3::new(0, 0, -60_000)));
    assert!(s.is_in_view_frustum(Vec3::new(1_000, 1_000, -25_000)));
    assert!(s.is_in_view_frustum(Vec3::new(0, 0, 0)));
    assert!(!s.is_in_view_frustum(Vec3::new(95_000, 0, 0)));
}

#[test]
fn effect_kinds_follow_crossing_kind() {
    assert_eq!(effect_kind_of(IntersectionType::Entry), EffectKind::Ripple);
    assert_eq!(effect_kind_of(IntersectionType::Exit), EffectKind::Glow);
    assert_eq!(effect_kind_of(IntersectionType::Parallel), EffectKind::Distortion);
    assert_eq!(effect_kind_of(IntersectionType::Contained), EffectKind::Distortion);
}

#[test]
fn effect_queue_is_bounded_fifo() {
    let mut q = EffectQueue::new();
    for i in 0..30 {
        q.push(effect(1000, i));
    }
    assert_eq!(q.len(), EFFECT_CAPACITY);
    let all = q.snapshot();
    assert_eq!(all[0].intensity, 10);
    assert_eq!(all[19].intensity, 29);
}

#[test]
fn effect_queue_ages_and_expires() {
    let mut q = EffectQueue::new();
    q.push(effect(100, 1));
    q.push(effect(300, 2));
    q.advance(100);
    let left = q.snapshot();
    assert_eq!(left.len(), 1);
    assert_eq!(left[0].intensity, 2);
    assert_eq!(left[0].current_age, 100);
    q.advance(200);
    assert_eq!(q.len(), 0);
}

#[test]
fn new_system_is_filled_to_target() {
    let s = SpaceObjectSystem::new(12, 25, 60, 1);
    assert_eq!(s.len(), 12);
    assert_eq!(s.target_object_count, 12);
    let capped = SpaceObjectSystem::new(10_000, 25, 60, 1);
    assert_eq!(capped.len(), MAX_OBJECTS);
}

#[test]
fn spawned_objects_wait_on_far_plane() {
    let s = SpaceObjectSystem::new(40, 25, 60, 7);
    let mut ages = Vec::new();
    for o in &s.objects {
        assert_eq!(o.position.z, s.space.max_z);
        assert!(o.age >= -5_000 && o.age <= -500);
        assert!(o.exit_x.abs() > 10_000 || o.exit_y.abs() > 10_000);
        assert!(o.velocity.z <= 0);
        assert_eq!(o.size, 0);
        assert_eq!(o.object_type, SpaceObjectType::NeonComet);
        let lat = (o.velocity.x as i128).pow(2) + (o.velocity.y as i128).pow(2);
        assert!(lat <= (s.max_lateral_speed as i128).pow(2));
        ages.push(o.age);
    }
    ages.sort();
    ages.dedup();
    assert!(ages.len() > 1);
    let ids: Vec<u64> = s.objects.iter().map(|o| o.id).collect();
    assert!(ids.windows(2).all(|w| w[0] < w[1]));
}

#[test]
fn same_seed_gives_same_population() {
    let a = SpaceObjectSystem::new(8, 25, 60, 99);
    let b = SpaceObjectSystem::new(8, 25, 60, 99);
    for (x, y) in a.objects.iter().zip(b.objects.iter()) {
        assert_eq!(x.position, y.position);
        assert_eq!(x.velocity, y.velocity);
        assert_eq!(x.age, y.age);
    }
}

#[test]
fn dormant_objects_do_not_move_or_grow() {
    let mut s = SpaceObjectSystem::new(20, 25, 60, 3);
    let mut history = IntersectionHistory::new();
    let mut effects = EffectQueue::new();
    let before: Vec<(u64, Vec3, i64, i64)> = s.objects.iter().map(|o| (o.id, o.position, o.size, o.age)).collect();
    s.update(400, &mut history, &mut effects);
    for (id, pos, size, age) in before {
        let o = s.objects.iter().find(|o| o.id == id).expect("still present");
        assert_eq!(o.age, age + 400);
        assert!(o.age < 0);
        assert_eq!(o.position, pos);
        assert_eq!(o.size, size);
    }
}

#[test]
fn activation_starts_motion_and_growth() {
    let mut s = SpaceObjectSystem::new(20, 25, 60, 5);
    let mut history = IntersectionHistory::new();
    let mut effects = EffectQueue::new();
    let mut started = false;
    for _ in 0..60 {
        let before: Vec<(u64, Vec3, i64)> = s.objects.iter().map(|o| (o.id, o.position, o.age)).collect();
        s.update(100, &mut history, &mut effects);
        for (id, pos, age) in before {
            if let Some(o) = s.objects.iter().find(|o| o.id == id) {
                if age < 0 && o.age >= 0 {
                    started = true;
                    assert!(o.size > 0 || o.age == 0);
                    assert!(o.position != pos || o.velocity == Vec3::new(0, 0, 0) || o.age == 0);
                }
            }
        }
    }
    assert!(started);
}

#[test]
fn appearance_stays_in_range_over_many_ticks() {
    let mut s = SpaceObjectSystem::new(30, 25, 60, 11);
    let mut history = IntersectionHistory::new();
    let mut effects = EffectQueue::new();
    for _ in 0..600 {
        s.update(50, &mut history, &mut effects);
        assert_eq!(s.len(), 30);
        for o in &s.objects {
            assert!(0 <= o.opacity && o.opacity <= 1000);
            assert!(0 <= o.size && o.size <= o.target_size);
            let lat = (o.velocity.x as i128).pow(2) + (o.velocity.y as i128).pow(2);
            assert!(lat <= (s.max_lateral_speed as i128).pow(2));
        }
    }
    assert!(history.len() <= 100);
}

#[test]
fn population_recovers_after_removals() {
    let mut s = SpaceObjectSystem::new(15, 25, 60, 21);
    let mut history = IntersectionHistory::new();
    let mut effects = EffectQueue::new();
    let ids: Vec<u64> = s.objects.iter().take(6).map(|o| o.id).collect();
    for id in ids {
        assert!(s.remove_object(id));
    }
    assert!(!s.remove_object(u64::MAX));
    assert_eq!(s.len(), 9);
    s.update(16, &mut history, &mut effects);
    assert_eq!(s.len(), 15);
}

#[test]
fn oldest_object_is_replaced_when_full() {
    let mut s = SpaceObjectSystem::new(3, 25, 60, 2);
    s.max_objects = 3;
    let oldest = s.find_oldest_object_index().expect("objects");
    let extra = s.spawn_object();
    let extra_id = extra.id;
    s.add_object(extra);
    assert_eq!(s.len(), 3);
    assert_eq!(s.objects[oldest].id, extra_id);
}

#[test]
fn registry_handles_and_failures() {
    let mut r = SystemRegistry::new();
    let a = r.create_system(5, 25, 60, 1);
    let b = r.create_system(3, 250, 60, 2);
    assert_ne!(a, b);
    assert!(r.update_system(a, 16));
    assert!(r.update_system(b, 1_000_000));
    assert!(!r.update_system(99, 16));
    assert_eq!(r.get_active_count(a, SpaceObjectType::NeonComet), Some(5));
    assert_eq!(r.get_active_count(a, SpaceObjectType::EnergySphere), Some(0));
    assert_eq!(r.get_active_count(99, SpaceObjectType::NeonComet), None);
    assert!(r.get_visible_objects(b).is_some());
    assert!(r.free_system(a));
    assert!(!r.free_system(a));
    assert!(!r.update_system(a, 16));
    assert!(r.get_visible_objects(a).is_none());
    let c = r.create_system(2, 25, 60, 3);
    assert_ne!(c, a);
    assert!(r.get_recent_intersections(10).len() <= 10);
    assert!(r.update_effects(16).len() <= EFFECT_CAPACITY);
    assert_eq!(r.get_effects().len(), r.update_effects(0).len());
}

#[test]
fn visible_buffers_are_consistent() {
    let mut r = SystemRegistry::new();
    let h = r.create_system(20, 25, 60, 4);
    for _ in 0..80 {
        r.update_system(h, 50);
    }
    let v = r.get_visible_objects(h).expect("live");
    let n = v.ids.len();
    assert_eq!(v.positions.len(), 3 * n);
    assert_eq!(v.angles.len(), 3 * n);
    assert_eq!(v.trail_counts.len(), n);
    let particles: usize = v.trail_counts.iter().sum();
    assert_eq!(v.trail_positions.len(), 3 * particles);
    assert_eq!(v.trail_fades.len(), particles);
    assert_eq!(v.colors.len(), 3 * n);
    assert_eq!(v.scales.len(), n);
    assert_eq!(v.opacities.len(), n);
}

#[test]
fn palette_cycles_through_five_hues() {
    assert_eq!(palette_color(0), Color { r: 0, g: 1000, b: 800 });
    assert_eq!(palette_color(6), Color { r: 1000, g: 200, b: 800 });
    assert_eq!(palette_color(12), Color { r: 200, g: 400, b: 1000 });
    assert_eq!(palette_color(3), Color { r: 1000, g: 800, b: 0 });
    assert_eq!(palette_color(9), Color { r: 600, g: 0, b: 1000 });
}

#[test]
fn object_lookup_by_id() {
    let s = SpaceObjectSystem::new(4, 25, 60, 8);
    let id = s.objects[2].id;
    assert_eq!(s.get_object(id).map(|o| o.id), Some(id));
    assert!(s.get_object(u64::MAX).is_none());
}

#[test]
fn initialize_resets_population() {
    let mut s = SpaceObjectSystem::new(4, 25, 60, 8);
    let first_new = s.next_id;
    s.initialize(9);
    assert_eq!(s.target_object_count, 9);
    assert_eq!(s.len(), 9);
    assert!(s.objects.iter().all(|o| o.id >= first_new && o.age < 0));
    s.initialize(100_000);
    assert_eq!(s.len(), MAX_OBJECTS);
}
