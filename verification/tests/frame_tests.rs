use light_clusters::frame::run_simulation_step;
use light_clusters::geometry::{Aabb, Vec3i};
use light_clusters::grid::{CameraParams, GridCache, GridConfig};
use light_clusters::light::Light;

fn v(x: i64, y: i64, z: i64) -> Vec3i {
    Vec3i { x, y, z }
}

fn bx(min: (i64, i64, i64), max: (i64, i64, i64)) -> Aabb {
    Aabb { min: v(min.0, min.1, min.2), max: v(max.0, max.1, max.2) }
}

#[test]
fn simulation_step_chains_grid_and_assignment() {
    let cfg = GridConfig { nx: 1, ny: 1, nz: 1 };
    let cam = CameraParams { near: 0, far: 20000, half_width: 10000, half_height: 10000 };
    let lights = vec![Light::Point {
        center: v(0, 0, 5000),
        range: 2000,
        intensity: 1,
        shadows_enabled: true,
    }];
    let entities = vec![bx((0, 0, 0), (10, 10, 10)), bx((500000, 0, 0), (500010, 10, 10))];
    let mut visible = vec![false, false];
    let mut cache = GridCache::new();
    let out = run_simulation_step(&mut cache, &cfg, &cam, &lights, 8, &entities, &mut visible)
        .expect("a valid projection builds a grid");
    assert!(out.rebuilt);
    assert_eq!(out.assignment, vec![vec![0]]);
    // the first entity sits in the view volume; the second is far outside
    assert_eq!(visible, vec![true, false]);
}

#[test]
fn simulation_step_without_valid_projection_does_nothing() {
    let cfg = GridConfig { nx: 1, ny: 1, nz: 1 };
    let degenerate = CameraParams { near: 0, far: 0, half_width: 10000, half_height: 10000 };
    let lights: Vec<Light> = vec![];
    let entities = vec![bx((0, 0, 0), (1, 1, 1))];
    let mut visible = vec![false];
    let mut cache = GridCache::new();
    let out =
        run_simulation_step(&mut cache, &cfg, &degenerate, &lights, 8, &entities, &mut visible);
    assert!(out.is_none());
    assert!(cache.entry.is_none());
    assert_eq!(visible, vec![false]);
}

#[test]
fn degenerate_frame_reuses_last_grid() {
    let cfg = GridConfig { nx: 1, ny: 1, nz: 1 };
    let cam = CameraParams { near: 0, far: 20000, half_width: 10000, half_height: 10000 };
    let degenerate = CameraParams { near: 0, far: 0, half_width: 10000, half_height: 10000 };
    let lights: Vec<Light> = vec![];
    let entities: Vec<Aabb> = vec![];
    let mut visible: Vec<bool> = vec![];
    let mut cache = GridCache::new();
    assert!(run_simulation_step(&mut cache, &cfg, &cam, &lights, 8, &entities, &mut visible)
        .is_some());
    let zs = cache.entry.as_ref().unwrap().grid.zs.clone();
    let out =
        run_simulation_step(&mut cache, &cfg, &degenerate, &lights, 8, &entities, &mut visible)
            .expect("the cached grid is reused");
    assert!(!out.rebuilt);
    assert_eq!(cache.entry.as_ref().unwrap().grid.zs, zs);
}
