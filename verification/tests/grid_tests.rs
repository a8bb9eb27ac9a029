use light_clusters::grid::{build_grid, locate, pow2_i64, CameraParams, GridCache, GridConfig};

fn cfg222() -> GridConfig {
    GridConfig { nx: 2, ny: 2, nz: 2 }
}

fn cam(near: i64, far: i64, hw: i64, hh: i64) -> CameraParams {
    CameraParams { near, far, half_width: hw, half_height: hh }
}

#[test]
fn pow2_values() {
    assert_eq!(pow2_i64(0), 1);
    assert_eq!(pow2_i64(5), 32);
    assert_eq!(pow2_i64(24), 16_777_216);
}

#[test]
fn config_check_rejects_zero_dimensions() {
    assert!(cfg222().check());
    assert!(!GridConfig { nx: 0, ny: 2, nz: 2 }.check());
    assert!(!GridConfig { nx: 2, ny: 2, nz: 0 }.check());
}

#[test]
fn grid_boundaries_exact() {
    // depth split of [10, 110] into 2 slices with weights 2^i:
    // z0 = 10, z1 = 10 + 100*1/3 = 43, z2 = 110
    let g = build_grid(&cfg222(), &cam(10, 110, 50, 40));
    assert_eq!(g.xs, vec![-50, 0, 50]);
    assert_eq!(g.ys, vec![-40, 0, 40]);
    assert_eq!(g.zs, vec![10, 43, 110]);
}

#[test]
fn depth_slices_thinner_near_camera() {
    let g = build_grid(&GridConfig { nx: 1, ny: 1, nz: 4 }, &cam(0, 1500, 10, 10));
    // widths are proportional to 1, 2, 4, 8
    assert_eq!(g.zs, vec![0, 100, 300, 700, 1500]);
    for w in g.zs.windows(2) {
        assert!(w[0] < w[1]);
    }
}

#[test]
fn rebuild_is_bit_identical() {
    let g1 = build_grid(&cfg222(), &cam(10, 110, 50, 40));
    let g2 = build_grid(&cfg222(), &cam(10, 110, 50, 40));
    assert_eq!(g1.xs, g2.xs);
    assert_eq!(g1.ys, g2.ys);
    assert_eq!(g1.zs, g2.zs);
}

#[test]
fn each_point_in_exactly_one_slice() {
    let g = build_grid(&cfg222(), &cam(10, 110, 50, 40));
    for z in 10..110 {
        let mut hits = 0;
        for i in 0..g.zs.len() - 1 {
            if g.zs[i] <= z && z < g.zs[i + 1] {
                hits += 1;
            }
        }
        assert_eq!(hits, 1, "depth {} must fall in exactly one slice", z);
        assert!(locate(&g.zs, z).is_some());
    }
    assert_eq!(locate(&g.zs, 9), None);
    assert_eq!(locate(&g.zs, 110), None);
}

#[test]
fn cache_rebuilds_only_on_parameter_change() {
    let cfg = cfg222();
    let mut cache = GridCache::new();
    // first frame: build
    assert!(cache.refresh(&cfg, &cam(10, 110, 50, 40)));
    let zs_first = cache.entry.as_ref().unwrap().grid.zs.clone();
    // same parameters: reuse
    assert!(!cache.refresh(&cfg, &cam(10, 110, 50, 40)));
    assert_eq!(cache.entry.as_ref().unwrap().grid.zs, zs_first);
}

#[test]
fn far_plane_change_rebuilds_and_covers_new_range() {
    let cfg = cfg222();
    let mut cache = GridCache::new();
    assert!(cache.refresh(&cfg, &cam(0, 100, 50, 40)));
    let old_zs = cache.entry.as_ref().unwrap().grid.zs.clone();
    assert_eq!(*old_zs.last().unwrap(), 100);
    // the far plane moves from 100 to 200: the grid is rebuilt, not reused
    assert!(cache.refresh(&cfg, &cam(0, 200, 50, 40)));
    let new_zs = &cache.entry.as_ref().unwrap().grid.zs;
    assert_ne!(*new_zs, old_zs);
    assert_eq!(new_zs[0], 0);
    assert_eq!(*new_zs.last().unwrap(), 200);
    for w in new_zs.windows(2) {
        assert!(w[0] < w[1]);
    }
}

#[test]
fn degenerate_projection_keeps_previous_grid() {
    let cfg = cfg222();
    let mut cache = GridCache::new();
    assert!(cache.refresh(&cfg, &cam(10, 110, 50, 40)));
    let zs_first = cache.entry.as_ref().unwrap().grid.zs.clone();
    // zero-sized depth range is rejected; the last valid grid stays
    assert!(!cache.refresh(&cfg, &cam(10, 10, 50, 40)));
    assert_eq!(cache.entry.as_ref().unwrap().grid.zs, zs_first);
    // zero far plane likewise
    assert!(!cache.refresh(&cfg, &cam(0, 0, 50, 40)));
    assert_eq!(cache.entry.as_ref().unwrap().grid.zs, zs_first);
}

#[test]
fn each_point_in_exactly_one_cluster_cell() {
    let g = build_grid(&cfg222(), &cam(10, 110, 50, 40));
    for x in [-50i64, -25, -1, 0, 1, 25, 49] {
        for y in [-40i64, -17, 0, 13, 39] {
            for z in [10i64, 42, 43, 80, 109] {
                let mut cells = 0;
                for ix in 0..2 {
                    for iy in 0..2 {
                        for iz in 0..2 {
                            let inside = g.xs[ix] <= x
                                && x < g.xs[ix + 1]
                                && g.ys[iy] <= y
                                && y < g.ys[iy + 1]
                                && g.zs[iz] <= z
                                && z < g.zs[iz + 1];
                            if inside {
                                cells += 1;
                            }
                        }
                    }
                }
                assert_eq!(cells, 1, "({}, {}, {}) must lie in exactly one cluster", x, y, z);
            }
        }
    }
}
