use cosmic_space::cube::is_point_inside_cube;
use cosmic_space::cubes::{CubeSet, SpaceCube};
use cosmic_space::geometry::Vec3;
use cosmic_space::intersection::{IntersectionHistory, IntersectionType};

#[test]
fn centre_plane_covers_nine_tenths() {
    let c = SpaceCube::new(1, 2, Vec3::new(0, 0, 0), Vec3::new(10_000, 20_000, 5_000));
    assert_eq!(c.center_plane.half_width, 9_000);
    assert_eq!(c.center_plane.half_height, 18_000);
    assert_eq!(c.center_plane.id, 2);
    assert!(c.contains_point(Vec3::new(10_000, -20_000, 5_000)));
    assert!(!c.contains_point(Vec3::new(0, 0, 5_001)));
    assert_eq!(c.distance_to_center_plane(Vec3::new(3, 4, -1_500)), -1_500);
    assert!(c.intersects_center_plane(Vec3::new(0, 0, -100), Vec3::new(0, 0, 100)));
    assert!(!c.intersects_center_plane(Vec3::new(9_500, 0, -100), Vec3::new(9_500, 0, 100)));
}

#[test]
fn only_one_viewing_plane_at_a_time() {
    let mut set = CubeSet::new();
    assert_eq!(set.get_viewing_plane_id(), None);
    let a = set.create_viewing_plane(Vec3::new(10_000, 10_000, 10)).expect("fits");
    assert_eq!(set.get_viewing_plane_id(), Some(a));
    let b = set.create_viewing_plane(Vec3::new(5_000, 5_000, 10)).expect("fits");
    assert_ne!(a, b);
    assert_eq!(set.get_viewing_plane_id(), Some(b));
    assert_eq!(set.calculate_distance_to_viewing_plane(Vec3::new(0, 0, 2_000)), Some(2_000));
}

#[test]
fn cube_lookups_fail_for_unknown_ids() {
    let mut set = CubeSet::new();
    let id = set.create_space_cube(Vec3::new(1_000, 0, 0), Vec3::new(500, 500, 500)).expect("fits");
    assert!(set.check_point_in_cube(id, Vec3::new(1_200, 0, 0)));
    assert!(!set.check_point_in_cube(id, Vec3::new(0, 0, 0)));
    assert!(!set.check_point_in_cube(id + 100, Vec3::new(1_200, 0, 0)));
    assert!(set.check_line_intersection_with_center_plane(id, Vec3::new(1_000, 0, -10), Vec3::new(1_000, 0, 10)));
    assert!(!set.check_line_intersection_with_center_plane(id + 100, Vec3::new(1_000, 0, -10), Vec3::new(1_000, 0, 10)));
    assert!(!set.update_space_cube(id + 100, Vec3::new(0, 0, 0), Vec3::new(1, 1, 1), Vec3::new(0, 0, 0)));
    assert!(!set.rotate_cube(id + 100, Vec3::new(1, 2, 3)));
    assert_eq!(set.calculate_distance_to_viewing_plane(Vec3::new(0, 0, 0)), None);
    assert!(set.create_space_cube(Vec3::new(0, 0, 0), Vec3::new(-1, 1, 1)).is_none());
}

#[test]
fn moved_cube_is_tested_at_its_new_place() {
    let mut set = CubeSet::new();
    let id = set.create_space_cube(Vec3::new(0, 0, 0), Vec3::new(500, 500, 500)).expect("fits");
    assert!(set.update_space_cube(id, Vec3::new(5_000, 0, 0), Vec3::new(1_000, 1_000, 1_000), Vec3::new(0, 0, 0)));
    assert!(set.check_point_in_cube(id, Vec3::new(5_900, 0, 0)));
    assert!(!set.check_point_in_cube(id, Vec3::new(0, 0, 0)));
    assert!(set.rotate_cube(id, Vec3::new(100, 0, 0)));
}

#[test]
fn intersection_info_is_recorded() {
    let mut set = CubeSet::new();
    let id = set.create_viewing_plane(Vec3::new(10_000, 10_000, 10)).expect("fits");
    let mut history = IntersectionHistory::new();
    let hit = set
        .get_intersection_info(id, Vec3::new(0, 0, -1_000), Vec3::new(0, 0, 1_000), 4, 9, &mut history)
        .expect("crossing");
    assert_eq!(hit.intersection_type, IntersectionType::Entry);
    assert_eq!(hit.position, Vec3::new(0, 0, 0));
    assert_eq!(history.len(), 1);
    assert!(set
        .get_intersection_info(id + 1, Vec3::new(0, 0, -1_000), Vec3::new(0, 0, 1_000), 4, 9, &mut history)
        .is_none());
    assert_eq!(history.len(), 1);
}

#[test]
fn point_inside_cube_by_corners() {
    let lo = Vec3::new(-10, -10, -10);
    let hi = Vec3::new(10, 10, 10);
    assert!(is_point_inside_cube(Vec3::new(10, -10, 0), lo, hi));
    assert!(!is_point_inside_cube(Vec3::new(11, 0, 0), lo, hi));
}

#[test]
fn viewing_plane_cube_records_crossings() {
    let c = SpaceCube::new_viewing_plane(3, 4, Vec3::new(5_000, 5_000, 10));
    assert!(c.is_viewing_plane);
    assert_eq!(c.position, Vec3::new(0, 0, 0));
    let mut history = IntersectionHistory::new();
    let hit = c
        .intersects_center_plane_with_info(Vec3::new(100, 0, 500), Vec3::new(100, 0, -500), 8, 1_000, &mut history)
        .expect("crossing");
    assert_eq!(hit.intersection_type, IntersectionType::Exit);
    assert_eq!(hit.plane_id, 4);
    assert_eq!(hit.position, Vec3::new(100, 0, 0));
    assert_eq!(history.len(), 1);
}

#[test]
fn cube_copy_by_id() {
    let mut set = CubeSet::new();
    let id = set.create_space_cube(Vec3::new(0, 0, 0), Vec3::new(2_000, 1_000, 500)).expect("fits");
    let c = set.get_cube(id).expect("present");
    assert_eq!(c.id, id);
    assert_eq!(c.center_plane.half_width, 1_800);
    assert!(set.get_cube(id + 1).is_none());
}

#[test]
fn boundary_planes_face_outward() {
    let c = SpaceCube::new(1, 2, Vec3::new(100, 200, 300), Vec3::new(10, 20, 30));
    let faces = c.boundary_planes();
    assert_eq!(faces.len(), 6);
    assert_eq!(faces[0].position, Vec3::new(100, 200, 330));
    assert_eq!(faces[0].normal, Vec3::new(0, 0, 1000));
    assert_eq!(faces[3].position, Vec3::new(90, 200, 300));
    assert_eq!(faces[3].normal, Vec3::new(-1000, 0, 0));
    assert_eq!((faces[3].half_width, faces[3].half_height), (30, 20));
    assert_eq!(faces[5].position, Vec3::new(100, 180, 300));
    assert_eq!((faces[5].half_width, faces[5].half_height), (10, 30));
    assert_eq!(c.rotation, Vec3::new(0, 0, 0));
    let ids: Vec<u64> = faces.iter().map(|f| f.id).collect();
    assert_eq!(ids, vec![3, 4, 5, 6, 7, 8]);
}

#[test]
fn plane_ids_are_unique_across_a_set() {
    let mut set = CubeSet::new();
    let a = set.create_space_cube(Vec3::new(0, 0, 0), Vec3::new(10, 10, 10)).expect("fits");
    let b = set.create_viewing_plane(Vec3::new(20, 20, 1)).expect("fits");
    let mut ids = Vec::new();
    for id in [a, b] {
        let c = set.get_cube(id).expect("present");
        ids.push(c.center_plane.id);
        ids.extend(c.boundary_planes().iter().map(|f| f.id));
    }
    assert_eq!(ids.len(), 14);
    let mut sorted = ids.clone();
    sorted.sort();
    sorted.dedup();
    assert_eq!(sorted.len(), 14);
}

#[test]
fn local_point_test_uses_half_extents() {
    let c = SpaceCube::new(1, 2, Vec3::new(5_000, 0, 0), Vec3::new(10, 20, 30));
    assert!(c.contains_local_point(Vec3::new(10, -20, 30)));
    assert!(!c.contains_local_point(Vec3::new(11, 0, 0)));
}
