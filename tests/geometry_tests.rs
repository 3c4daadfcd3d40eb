use cosmic_space::cube::{check_line_cube_intersection, AxisBox};
use cosmic_space::geometry::{floor_sqrt, Vec3};
use cosmic_space::intersection::{
    segment_plane_intersection, Intersection, IntersectionHistory, IntersectionType, Plane,
    HISTORY_CAPACITY,
};
use cosmic_space::motion::clamp_lateral;

fn unit_plane() -> Plane {
    Plane {
        position: Vec3::new(0, 0, 0),
        normal: Vec3::new(0, 0, 1),
        half_width: 1000,
        half_height: 1000,
        id: 7,
    }
}

fn record(object_id: u64) -> Intersection {
    Intersection {
        position: Vec3::new(0, 0, 0),
        normal: Vec3::new(0, 0, 1),
        distance: 0,
        intersection_type: IntersectionType::Entry,
        object_id,
        plane_id: 1,
        time: object_id as i64,
    }
}

#[test]
fn segment_through_plane_enters_at_midpoint() {
    let hit = segment_plane_intersection(
        Vec3::new(0, 0, -1000),
        Vec3::new(0, 0, 1000),
        &unit_plane(),
        3,
        42,
    )
    .expect("the segment crosses the plane");
    assert_eq!(hit.intersection_type, IntersectionType::Entry);
    assert_eq!(hit.position, Vec3::new(0, 0, 0));
    assert_eq!(hit.distance, 1000);
    assert_eq!(hit.normal, Vec3::new(0, 0, 1));
    assert_eq!(hit.object_id, 3);
    assert_eq!(hit.plane_id, 7);
    assert_eq!(hit.time, 42);
}

#[test]
fn segment_on_one_side_misses_plane() {
    let r = segment_plane_intersection(Vec3::new(0, 0, 1000), Vec3::new(0, 0, 2000), &unit_plane(), 1, 0);
    assert!(r.is_none());
}

#[test]
fn parallel_segment_misses_plane() {
    let r = segment_plane_intersection(Vec3::new(-500, 0, 0), Vec3::new(500, 0, 0), &unit_plane(), 1, 0);
    assert!(r.is_none());
}

#[test]
fn segment_against_normal_exits() {
    let hit = segment_plane_intersection(Vec3::new(0, 0, 3000), Vec3::new(0, 0, -1000), &unit_plane(), 1, 0)
        .expect("crossing");
    assert_eq!(hit.intersection_type, IntersectionType::Exit);
    assert_eq!(hit.position, Vec3::new(0, 0, 0));
    assert_eq!(hit.distance, 3000);
}

#[test]
fn crossing_outside_rectangle_misses() {
    let r = segment_plane_intersection(Vec3::new(1500, 0, -1000), Vec3::new(1500, 0, 1000), &unit_plane(), 1, 0);
    assert!(r.is_none());
    let edge = segment_plane_intersection(Vec3::new(1000, -1000, -1000), Vec3::new(1000, -1000, 1000), &unit_plane(), 1, 0);
    assert!(edge.is_some());
}

#[test]
fn oblique_crossing_point_is_exact() {
    let hit = segment_plane_intersection(Vec3::new(-400, 200, -1000), Vec3::new(400, 600, 3000), &unit_plane(), 1, 0)
        .expect("crossing");
    // t = 1/4 of the way along.
    assert_eq!(hit.position, Vec3::new(-200, 300, 0));
}

#[test]
fn history_keeps_latest_hundred_in_order() {
    let mut h = IntersectionHistory::new();
    for i in 0..150u64 {
        h.push(record(i));
        assert!(h.len() <= HISTORY_CAPACITY);
    }
    assert_eq!(h.len(), 100);
    let recent = h.recent(200);
    assert_eq!(recent.len(), 100);
    assert_eq!(recent[0].object_id, 149);
    assert_eq!(recent[99].object_id, 50);
    let three = h.recent(3);
    let ids: Vec<u64> = three.iter().map(|r| r.object_id).collect();
    assert_eq!(ids, vec![149, 148, 147]);
}

#[test]
fn record_crossing_appends_only_hits() {
    let mut h = IntersectionHistory::new();
    let miss = h.record_crossing(Vec3::new(0, 0, 1000), Vec3::new(0, 0, 2000), &unit_plane(), 1, 0);
    assert!(miss.is_none());
    assert_eq!(h.len(), 0);
    let hit = h.record_crossing(Vec3::new(0, 0, -1000), Vec3::new(0, 0, 1000), &unit_plane(), 2, 5);
    assert!(hit.is_some());
    assert_eq!(h.len(), 1);
    assert_eq!(h.recent(1)[0].object_id, 2);
}

#[test]
fn box_entry_through_min_x_face() {
    let b = AxisBox { min: Vec3::new(-1000, -1000, -1000), max: Vec3::new(1000, 1000, 1000) };
    let hit = check_line_cube_intersection(Vec3::new(-3000, 0, 0), Vec3::new(3000, 0, 0), &b, 9, 11).expect("hit");
    assert_eq!(hit.position, Vec3::new(-1000, 0, 0));
    assert_eq!(hit.entry_face, 0);
    assert_eq!(hit.normal, Vec3::new(-1000, 0, 0));
    assert_eq!(hit.cube_id, 9);
    assert_eq!(hit.time, 11);
}

#[test]
fn box_entry_through_max_z_face_when_moving_down() {
    let b = AxisBox { min: Vec3::new(-1000, -1000, -10), max: Vec3::new(1000, 1000, 10) };
    let hit = check_line_cube_intersection(Vec3::new(0, 0, 1000), Vec3::new(0, 0, -1000), &b, 1, 0).expect("hit");
    assert_eq!(hit.entry_face, 5);
    assert_eq!(hit.normal, Vec3::new(0, 0, 1000));
    assert_eq!(hit.position, Vec3::new(0, 0, 10));
}

#[test]
fn box_missed_by_parallel_segment_outside_slab() {
    let b = AxisBox { min: Vec3::new(-1000, -1000, -1000), max: Vec3::new(1000, 1000, 1000) };
    assert!(check_line_cube_intersection(Vec3::new(-3000, 2000, 0), Vec3::new(3000, 2000, 0), &b, 1, 0).is_none());
    assert!(check_line_cube_intersection(Vec3::new(-3000, 0, 0), Vec3::new(-2000, 0, 0), &b, 1, 0).is_none());
}

#[test]
fn segment_starting_inside_box_hits_at_start() {
    let b = AxisBox { min: Vec3::new(-1000, -1000, -1000), max: Vec3::new(1000, 1000, 1000) };
    let hit = check_line_cube_intersection(Vec3::new(100, 200, 300), Vec3::new(5000, 200, 300), &b, 1, 0).expect("hit");
    assert_eq!(hit.position, Vec3::new(100, 200, 300));
    assert!(b.contains_point(Vec3::new(1000, -1000, 0)));
    assert!(!b.contains_point(Vec3::new(1001, 0, 0)));
}

#[test]
fn floor_sqrt_values() {
    assert_eq!(floor_sqrt(0), 0);
    assert_eq!(floor_sqrt(1), 1);
    assert_eq!(floor_sqrt(15), 3);
    assert_eq!(floor_sqrt(16), 4);
    assert_eq!(floor_sqrt(4_000_000), 2000);
    assert_eq!(floor_sqrt(u64::MAX), 4_294_967_295);
}

#[test]
fn lateral_clamp_holds_for_many_velocities() {
    let mut state: u64 = 0x2545_f491_4f6c_dd1d;
    let mut next = || {
        state ^= state << 13;
        state ^= state >> 7;
        state ^= state << 17;
        (state % 200_000_001) as i64 - 100_000_000
    };
    for limit in [0i64, 1, 40_000, 1_000_000, 100_000_000] {
        for _ in 0..500 {
            let v = Vec3::new(next(), next(), next());
            let r = clamp_lateral(v, limit);
            let lat = (r.x as i128) * (r.x as i128) + (r.y as i128) * (r.y as i128);
            assert!(lat <= (limit as i128) * (limit as i128));
            assert_eq!(r.z, v.z);
            assert!(r.x.abs() <= v.x.abs() && r.y.abs() <= v.y.abs());
        }
    }
}

#[test]
fn lateral_clamp_keeps_slow_velocity_and_direction() {
    let slow = Vec3::new(300, 400, -20_000);
    assert_eq!(clamp_lateral(slow, 500), slow);
    let fast = Vec3::new(3000, 4000, -20_000);
    assert_eq!(clamp_lateral(fast, 500), Vec3::new(300, 400, -20_000));
}
