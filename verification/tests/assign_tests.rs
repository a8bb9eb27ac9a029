use light_clusters::assign::{assign_lights_to_clusters, cluster_light_list};
use light_clusters::geometry::{sphere_intersects_aabb, Aabb, Sphere, Vec3i};
use light_clusters::grid::{build_grid, CameraParams, GridConfig};
use light_clusters::light::Light;
use light_clusters::pipeline::prepare_lights_buffer;

fn v(x: i64, y: i64, z: i64) -> Vec3i {
    Vec3i { x, y, z }
}

fn point(x: i64, y: i64, z: i64, range: i64) -> Light {
    Light::Point { center: v(x, y, z), range, intensity: 1000, shadows_enabled: false }
}

fn directional() -> Light {
    Light::Directional { direction: v(0, 0, 1000), intensity: 1000, shadows_enabled: true }
}

// One-cluster grid over x, y in [-10000, 10000], z in [0, 20000]
// (fixed point: 1000 units per world unit).
fn one_cluster_grid() -> light_clusters::grid::Grid {
    build_grid(
        &GridConfig { nx: 1, ny: 1, nz: 1 },
        &CameraParams { near: 0, far: 20000, half_width: 10000, half_height: 10000 },
    )
}

#[test]
fn membership_follows_intersection() {
    let grid = one_cluster_grid();
    let lights = vec![
        directional(),
        point(5000, 0, 10000, 10000), // range 10, well inside
        point(11000, 0, 10000, 10),   // range 0.01, one unit outside the +x bound
    ];
    let assignment = assign_lights_to_clusters(&lights, &grid, 8);
    assert_eq!(assignment.len(), 1);
    assert_eq!(assignment[0], vec![0, 1]);
}

#[test]
fn assignment_order_is_light_order() {
    let grid = one_cluster_grid();
    let lights = vec![
        point(0, 0, 5000, 2000),
        point(1000, 0, 5000, 2000),
        point(-1000, 0, 5000, 2000),
    ];
    let assignment = assign_lights_to_clusters(&lights, &grid, 8);
    assert_eq!(assignment[0], vec![0, 1, 2]);
}

#[test]
fn overflow_keeps_first_n_and_light_still_lights_scene() {
    let grid = one_cluster_grid();
    let lights = vec![
        point(0, 0, 5000, 2000),
        point(100, 0, 5000, 2000),
        point(200, 0, 5000, 2000),
    ];
    // capacity 2, three overlapping lights: exactly the first two stay
    let assignment = assign_lights_to_clusters(&lights, &grid, 2);
    assert_eq!(assignment[0], vec![0, 1]);
    // the third light is dropped from that cluster only, not from the scene:
    // the packed global light buffer still carries its parameters
    let packed = prepare_lights_buffer(&lights);
    assert_eq!(packed.len(), 3);
    assert_eq!(packed[2].x, 200);
    assert_eq!(packed[2].kind, 1);
}

#[test]
fn empty_lights_give_empty_lists() {
    let grid = one_cluster_grid();
    let lights: Vec<Light> = vec![];
    let assignment = assign_lights_to_clusters(&lights, &grid, 4);
    assert_eq!(assignment.len(), 1);
    assert!(assignment[0].is_empty());
}

#[test]
fn light_on_shared_boundary_lands_in_both_clusters() {
    let grid = build_grid(
        &GridConfig { nx: 2, ny: 1, nz: 1 },
        &CameraParams { near: 0, far: 20000, half_width: 10000, half_height: 10000 },
    );
    // a tiny light exactly on the x boundary between the two clusters
    let lights = vec![point(0, 0, 5000, 0)];
    let assignment = assign_lights_to_clusters(&lights, &grid, 8);
    assert_eq!(assignment.len(), 2);
    assert_eq!(assignment[0], vec![0]);
    assert_eq!(assignment[1], vec![0]);
}

#[test]
fn per_cluster_list_capped() {
    let aabb = Aabb { min: v(-1000, -1000, 0), max: v(1000, 1000, 1000) };
    let lights =
        vec![point(0, 0, 500, 100), point(900, 0, 500, 100), point(0, 900, 500, 100)];
    assert_eq!(cluster_light_list(&lights, &aabb, 8), vec![0, 1, 2]);
    assert_eq!(cluster_light_list(&lights, &aabb, 1), vec![0]);
    assert_eq!(cluster_light_list(&lights, &aabb, 0), Vec::<u32>::new());
}

// A deterministic pseudo-random light set, brute-force checked: a light is
// in a cluster's list exactly when its volume intersects that cluster's box.
#[test]
fn membership_matches_intersection_for_many_lights() {
    let cfg = GridConfig { nx: 2, ny: 2, nz: 2 };
    let cam = CameraParams { near: 10, far: 20000, half_width: 10000, half_height: 10000 };
    let grid = build_grid(&cfg, &cam);

    let mut state: u64 = 0x1234_5678_9abc_def0;
    let mut next = move || {
        state = state.wrapping_mul(6364136223846793005).wrapping_add(1442695040888963407);
        (state >> 33) as i64
    };
    let mut lights = Vec::new();
    for _ in 0..50 {
        let x = next() % 30000 - 15000;
        let y = next() % 30000 - 15000;
        let z = next() % 30000 - 5000;
        let range = next() % 5000;
        lights.push(point(x, y, z, range));
    }

    let assignment = assign_lights_to_clusters(&lights, &grid, lights.len());
    assert_eq!(assignment.len(), 8);
    for ix in 0..2usize {
        for iy in 0..2usize {
            for iz in 0..2usize {
                let cluster = grid.cluster_aabb_at(ix, iy, iz);
                let list = &assignment[(ix * 2 + iy) * 2 + iz];
                for (i, light) in lights.iter().enumerate() {
                    let expected = match light {
                        Light::Point { center, range, .. } => sphere_intersects_aabb(
                            &Sphere { center: *center, radius: *range },
                            &cluster,
                        ),
                        Light::Directional { .. } => true,
                    };
                    assert_eq!(list.contains(&(i as u32)), expected);
                }
            }
        }
    }
}
