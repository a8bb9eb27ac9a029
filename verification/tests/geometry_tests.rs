use light_clusters::geometry::{aabb_intersects_aabb, clamp_i64, sphere_intersects_aabb, Aabb,
    Sphere, Vec3i};

fn v(x: i64, y: i64, z: i64) -> Vec3i {
    Vec3i { x, y, z }
}

fn bx(min: (i64, i64, i64), max: (i64, i64, i64)) -> Aabb {
    Aabb { min: v(min.0, min.1, min.2), max: v(max.0, max.1, max.2) }
}

#[test]
fn aabb_overlap_basic() {
    let a = bx((0, 0, 0), (10, 10, 10));
    let b = bx((5, 5, 5), (15, 15, 15));
    let c = bx((11, 0, 0), (20, 10, 10));
    assert!(aabb_intersects_aabb(&a, &b));
    assert!(aabb_intersects_aabb(&b, &a));
    assert!(!aabb_intersects_aabb(&a, &c));
}

#[test]
fn aabb_overlap_shared_face_counts() {
    let a = bx((0, 0, 0), (10, 10, 10));
    let b = bx((10, 0, 0), (20, 10, 10));
    assert!(aabb_intersects_aabb(&a, &b));
}

#[test]
fn clamp_limits_value() {
    assert_eq!(clamp_i64(-5, 0, 10), 0);
    assert_eq!(clamp_i64(15, 0, 10), 10);
    assert_eq!(clamp_i64(7, 0, 10), 7);
}

#[test]
fn sphere_touch_exact_boundary() {
    let a = bx((0, 0, 0), (10, 10, 10));
    // center 5 units beyond the +x face: touches iff radius >= 5
    let hit = Sphere { center: v(15, 5, 5), radius: 5 };
    let miss = Sphere { center: v(15, 5, 5), radius: 4 };
    assert!(sphere_intersects_aabb(&hit, &a));
    assert!(!sphere_intersects_aabb(&miss, &a));
}

#[test]
fn sphere_touch_corner_uses_euclidean_distance() {
    let a = bx((0, 0, 0), (10, 10, 10));
    // corner distance from (13, 14, 10): sqrt(3^2 + 4^2) == 5
    let hit = Sphere { center: v(13, 14, 10), radius: 5 };
    let miss = Sphere { center: v(13, 14, 10), radius: 4 };
    assert!(sphere_intersects_aabb(&hit, &a));
    assert!(!sphere_intersects_aabb(&miss, &a));
}

#[test]
fn sphere_inside_box_touches() {
    let a = bx((-10, -10, -10), (10, 10, 10));
    let s = Sphere { center: v(0, 0, 0), radius: 0 };
    assert!(sphere_intersects_aabb(&s, &a));
}
