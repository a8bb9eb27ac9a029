use light_clusters::geometry::{Aabb, Vec3i};
use light_clusters::light::Light;
use light_clusters::pipeline::{extract_frame, prepare_cluster_buffers, prepare_lights_buffer,
    queue_shadow_draws, SnapshotSlot};

fn v(x: i64, y: i64, z: i64) -> Vec3i {
    Vec3i { x, y, z }
}

fn bx(min: (i64, i64, i64), max: (i64, i64, i64)) -> Aabb {
    Aabb { min: v(min.0, min.1, min.2), max: v(max.0, max.1, max.2) }
}

#[test]
fn extraction_copies_lights_and_assignment() {
    let lights = vec![
        Light::Directional { direction: v(0, 0, 1), intensity: 7, shadows_enabled: true },
        Light::Point { center: v(1, 2, 3), range: 4, intensity: 5, shadows_enabled: false },
    ];
    let assignment = vec![vec![0u32, 1], vec![], vec![1]];
    let snapshot = extract_frame(&lights, &assignment, 42);
    assert_eq!(snapshot.frame, 42);
    assert_eq!(snapshot.lights, lights);
    assert_eq!(snapshot.cluster_lists, assignment);
}

#[test]
fn snapshot_commit_replaces_whole_frame() {
    let mut slot = SnapshotSlot::new();
    assert!(slot.committed.is_none());
    let a = extract_frame(&vec![], &vec![vec![]], 1);
    let b = extract_frame(&vec![], &vec![vec![0u32]], 2);
    slot.commit(a);
    assert_eq!(slot.committed.as_ref().unwrap().frame, 1);
    slot.commit(b);
    let latest = slot.committed.as_ref().unwrap();
    assert_eq!(latest.frame, 2);
    assert_eq!(latest.cluster_lists, vec![vec![0u32]]);
}

#[test]
fn packed_light_rows_are_exact() {
    let lights = vec![
        Light::Directional { direction: v(0, 0, 1000), intensity: 7, shadows_enabled: true },
        Light::Point { center: v(1, 2, 3), range: 4, intensity: 5, shadows_enabled: false },
    ];
    let packed = prepare_lights_buffer(&lights);
    assert_eq!(packed.len(), 2);
    assert_eq!(packed[0].kind, 0);
    assert_eq!((packed[0].x, packed[0].y, packed[0].z), (0, 0, 1000));
    assert_eq!(packed[0].range, 0);
    assert_eq!(packed[0].shadows, 1);
    assert_eq!(packed[1].kind, 1);
    assert_eq!((packed[1].x, packed[1].y, packed[1].z), (1, 2, 3));
    assert_eq!(packed[1].range, 4);
    assert_eq!(packed[1].intensity, 5);
    assert_eq!(packed[1].shadows, 0);
}

#[test]
fn cluster_buffers_flatten_exactly() {
    let lists = vec![vec![1u32, 2], vec![], vec![3]];
    let buffers = prepare_cluster_buffers(&lists);
    assert_eq!(buffers.offsets, vec![0, 2, 2]);
    assert_eq!(buffers.counts, vec![2, 0, 1]);
    assert_eq!(buffers.indices, vec![1, 2, 3]);
    for c in 0..lists.len() {
        let lo = buffers.offsets[c] as usize;
        let hi = lo + buffers.counts[c] as usize;
        assert_eq!(&buffers.indices[lo..hi], &lists[c][..]);
    }
}

#[test]
fn empty_cluster_lists_flatten_to_empty_buffers() {
    let lists: Vec<Vec<u32>> = vec![];
    let buffers = prepare_cluster_buffers(&lists);
    assert!(buffers.offsets.is_empty());
    assert!(buffers.counts.is_empty());
    assert!(buffers.indices.is_empty());
}

#[test]
fn queued_draws_are_visible_entities_sorted_by_key() {
    let bounds = vec![
        bx((0, 0, 0), (10, 10, 10)),       // visible, key 30
        bx((200, 0, 0), (210, 10, 10)),    // not visible
        bx((20, 0, 0), (30, 10, 10)),      // visible, key 10
        bx((-30, 0, 0), (-20, 10, 10)),    // visible, key 20
    ];
    let keys = vec![30u64, 99, 10, 20];
    let volume = bx((-50, -50, -50), (50, 50, 50));
    let draws = queue_shadow_draws(&bounds, &keys, &volume);
    let entities: Vec<u32> = draws.iter().map(|d| d.entity).collect();
    let draw_keys: Vec<u64> = draws.iter().map(|d| d.key).collect();
    assert_eq!(entities, vec![2, 3, 0]);
    assert_eq!(draw_keys, vec![10, 20, 30]);
}

#[test]
fn queue_is_stable_under_equal_keys() {
    let bounds = vec![
        bx((0, 0, 0), (1, 1, 1)),
        bx((2, 0, 0), (3, 1, 1)),
        bx((4, 0, 0), (5, 1, 1)),
        bx((6, 0, 0), (7, 1, 1)),
    ];
    let keys = vec![5u64, 3, 5, 3];
    let volume = bx((-10, -10, -10), (10, 10, 10));
    let draws = queue_shadow_draws(&bounds, &keys, &volume);
    let pairs: Vec<(u64, u32)> = draws.iter().map(|d| (d.key, d.entity)).collect();
    // equal keys keep entity order
    assert_eq!(pairs, vec![(3, 1), (3, 3), (5, 0), (5, 2)]);
}
