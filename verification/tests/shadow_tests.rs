use light_clusters::geometry::{Aabb, Vec3i};
use light_clusters::graph::{topological_order, MAIN_PASS_NODE, SHADOW_PASS_NODE};
use light_clusters::light::Light;
use light_clusters::shadow::{ShadowPhase, ShadowScheduler};

fn v(x: i64, y: i64, z: i64) -> Vec3i {
    Vec3i { x, y, z }
}

fn view_volume() -> Aabb {
    Aabb { min: v(-10000, -10000, 0), max: v(10000, 10000, 20000) }
}

fn caster_point(x: i64) -> Light {
    Light::Point { center: v(x, 0, 5000), range: 2000, intensity: 1, shadows_enabled: true }
}

#[test]
fn collect_keeps_only_visible_shadow_casters() {
    let lights = vec![
        Light::Directional { direction: v(0, 0, 1), intensity: 1, shadows_enabled: true },
        caster_point(0),
        // shadows disabled: lights the scene but casts nothing
        Light::Point { center: v(0, 0, 5000), range: 2000, intensity: 1, shadows_enabled: false },
        // shadows enabled but far outside the view volume
        Light::Point { center: v(500000, 0, 5000), range: 10, intensity: 1, shadows_enabled: true },
    ];
    let mut s = ShadowScheduler::new();
    assert_eq!(s.phase, ShadowPhase::Idle);
    s.collect_casters(&lights, &view_volume());
    assert_eq!(s.phase, ShadowPhase::CollectCasters);
    assert_eq!(s.casters, vec![0, 1]);
}

#[test]
fn atlas_overflow_drops_lowest_priority_casters() {
    // two point casters want 6 regions each; capacity 10 fits only the first
    let lights = vec![caster_point(0), caster_point(100)];
    let mut s = ShadowScheduler::new();
    s.collect_casters(&lights, &view_volume());
    s.allocate_atlas_regions(&lights, 10, 4);
    assert_eq!(s.phase, ShadowPhase::AllocateAtlasRegions);
    assert_eq!(s.allocations.len(), 1);
    assert_eq!(s.allocations[0].light, 0);
    assert_eq!(s.allocations[0].offset, 0);
    assert_eq!(s.allocations[0].count, 6);
}

#[test]
fn allocations_are_contiguous_in_priority_order() {
    let lights = vec![
        Light::Directional { direction: v(0, 0, 1), intensity: 1, shadows_enabled: true },
        caster_point(0),
    ];
    let mut s = ShadowScheduler::new();
    s.collect_casters(&lights, &view_volume());
    s.allocate_atlas_regions(&lights, 64, 4);
    assert_eq!(s.allocations.len(), 2);
    // directional: 4 cascades at offset 0; point: 6 faces right after
    assert_eq!((s.allocations[0].light, s.allocations[0].offset, s.allocations[0].count), (0, 0, 4));
    assert_eq!((s.allocations[1].light, s.allocations[1].offset, s.allocations[1].count), (1, 4, 6));
}

#[test]
fn view_descriptors_cover_cascades_and_faces() {
    let lights = vec![
        Light::Directional { direction: v(0, 0, 1), intensity: 1, shadows_enabled: true },
        caster_point(0),
    ];
    let vol = view_volume();
    let mut s = ShadowScheduler::new();
    s.collect_casters(&lights, &vol);
    s.allocate_atlas_regions(&lights, 64, 4);
    s.build_view_descriptors(&lights, &vol, 4);
    assert_eq!(s.phase, ShadowPhase::BuildViewDescriptors);
    assert_eq!(s.views.len(), 2);

    // directional: 4 cascades splitting [0, 20000] uniformly, regions 0..4
    let dir = &s.views[0];
    assert_eq!(dir.parts.len(), 4);
    assert_eq!(dir.parts[0].region, 0);
    assert_eq!(dir.parts[0].volume.min.z, 0);
    assert_eq!(dir.parts[0].volume.max.z, 5000);
    assert_eq!(dir.parts[3].volume.max.z, 20000);

    // point light inside the view: all six faces, regions 4..10
    let pt = &s.views[1];
    assert_eq!(pt.parts.len(), 6);
    assert_eq!(pt.parts[0].region, 4);
    assert_eq!(pt.parts[5].region, 9);
    // face 0 is the +x half of the range box
    assert_eq!(pt.parts[0].volume.min.x, 0);
    assert_eq!(pt.parts[0].volume.max.x, 2000);
}

#[test]
fn schedule_orders_shadow_pass_before_main_pass() {
    let lights = vec![caster_point(0)];
    let vol = view_volume();
    let mut s = ShadowScheduler::new();
    s.collect_casters(&lights, &vol);
    s.allocate_atlas_regions(&lights, 64, 4);
    s.build_view_descriptors(&lights, &vol, 4);
    let g = s.schedule();
    assert_eq!(s.phase, ShadowPhase::Scheduled);
    let order = topological_order(&g).expect("the frame graph is acyclic");
    let shadow = order.iter().position(|&n| n == SHADOW_PASS_NODE).unwrap();
    let main = order.iter().position(|&n| n == MAIN_PASS_NODE).unwrap();
    assert!(shadow < main);
}

#[test]
fn full_schedule_run_reaches_scheduled_phase() {
    let lights = vec![
        Light::Directional { direction: v(0, 0, 1), intensity: 1, shadows_enabled: true },
        caster_point(0),
    ];
    let vol = view_volume();
    let (s, g) = light_clusters::frame::run_shadow_schedule(&lights, &vol, 64, 4);
    assert_eq!(s.phase, ShadowPhase::Scheduled);
    assert_eq!(s.casters, vec![0, 1]);
    assert_eq!(s.views.len(), 2);
    assert!(g.edges.contains(&(SHADOW_PASS_NODE, MAIN_PASS_NODE)));
}

#[test]
fn point_caster_views_cover_every_kept_face() {
    // center pokes past the +x bound of the view: the +x face is skipped,
    // the other five faces each get a view, in face order
    let lights = vec![Light::Point {
        center: v(10500, 0, 5000),
        range: 2000,
        intensity: 1,
        shadows_enabled: true,
    }];
    let vol = view_volume();
    let mut s = ShadowScheduler::new();
    s.collect_casters(&lights, &vol);
    s.allocate_atlas_regions(&lights, 64, 4);
    s.build_view_descriptors(&lights, &vol, 4);
    let pt = &s.views[0];
    assert_eq!(pt.parts.len(), 5);
    let faces: Vec<u32> = pt.parts.iter().map(|p| p.region - pt.offset).collect();
    assert_eq!(faces, vec![1, 2, 3, 4, 5]);
}
