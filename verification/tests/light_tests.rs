use light_clusters::geometry::{Aabb, Vec3i};
use light_clusters::light::{check_light_mesh_visibility, directional_cascades, point_light_faces,
    Light};

fn v(x: i64, y: i64, z: i64) -> Vec3i {
    Vec3i { x, y, z }
}

fn bx(min: (i64, i64, i64), max: (i64, i64, i64)) -> Aabb {
    Aabb { min: v(min.0, min.1, min.2), max: v(max.0, max.1, max.2) }
}

#[test]
fn directional_affects_everything() {
    let l = Light::Directional { direction: v(0, 0, 1), intensity: 1, shadows_enabled: false };
    assert!(l.affects_aabb(&bx((-1, -1, -1), (1, 1, 1))));
    assert!(l.affects_aabb(&bx((1000, 1000, 1000), (1001, 1001, 1001))));
}

#[test]
fn point_affects_within_range_only() {
    let l = Light::Point { center: v(0, 0, 0), range: 5, intensity: 1, shadows_enabled: false };
    assert!(l.affects_aabb(&bx((5, 0, 0), (6, 1, 1))));
    assert!(!l.affects_aabb(&bx((6, 0, 0), (7, 1, 1))));
}

#[test]
fn cascades_cover_depth_range_in_order() {
    let vol = bx((-100, -100, 0), (100, 100, 40));
    let cascades = directional_cascades(&vol, 4);
    assert_eq!(cascades.len(), 4);
    assert_eq!(cascades[0].min.z, 0);
    assert_eq!(cascades[3].max.z, 40);
    for w in cascades.windows(2) {
        // consecutive cascades share a boundary: no gap in depth coverage
        assert_eq!(w[0].max.z, w[1].min.z);
    }
    for c in &cascades {
        assert_eq!(c.min.x, vol.min.x);
        assert_eq!(c.max.x, vol.max.x);
        assert_eq!(c.min.y, vol.min.y);
        assert_eq!(c.max.y, vol.max.y);
    }
}

#[test]
fn point_faces_all_kept_when_light_inside_view() {
    let view = bx((-100, -100, -100), (100, 100, 100));
    let faces = point_light_faces(v(0, 0, 0), 10, &view);
    assert_eq!(faces.len(), 6);
    let ids: Vec<u32> = faces.iter().map(|f| f.face).collect();
    assert_eq!(ids, vec![0, 1, 2, 3, 4, 5]);
    // face 0 is the +x half of the range box
    assert_eq!(faces[0].volume.min.x, 0);
    assert_eq!(faces[0].volume.max.x, 10);
    assert_eq!(faces[0].volume.min.y, -10);
}

#[test]
fn point_faces_away_from_view_are_skipped() {
    // the view volume ends at x == 100; a light at x == 105 with range 10
    // cannot reach it through its +x face, which is skipped
    let view = bx((-100, -100, -100), (100, 100, 100));
    let faces = point_light_faces(v(105, 0, 0), 10, &view);
    let ids: Vec<u32> = faces.iter().map(|f| f.face).collect();
    assert!(!ids.contains(&0));
    assert!(ids.contains(&1));
}

#[test]
fn visibility_is_additive_over_camera_pass() {
    let entities = vec![
        bx((0, 0, 0), (10, 10, 10)),     // inside the light volume
        bx((200, 0, 0), (210, 10, 10)),  // outside, but seen by the camera
        bx((300, 0, 0), (310, 10, 10)),  // outside, unseen
    ];
    let volumes = vec![bx((-50, -50, -50), (50, 50, 50))];
    // the camera's own pass already marked entity 1
    let mut visible = vec![false, true, false];
    check_light_mesh_visibility(&entities, &volumes, &mut visible);
    assert_eq!(visible, vec![true, true, false]);
}

#[test]
fn visibility_with_no_light_volumes_changes_nothing() {
    let entities = vec![bx((0, 0, 0), (1, 1, 1))];
    let volumes: Vec<Aabb> = vec![];
    let mut visible = vec![false];
    check_light_mesh_visibility(&entities, &volumes, &mut visible);
    assert_eq!(visible, vec![false]);
}
