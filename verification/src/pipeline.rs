//! Extraction, preparation and queueing: the staged handoff from the
//! simulation world to the render world.
//!
//! Extraction copies light and cluster-assignment state into a frame-local
//! snapshot, committed whole so the render side never observes a partial
//! update. Preparation packs the snapshot into GPU-style buffers: one packed
//! row per light, and the cluster lists flattened into an offset/count/index
//! triple. Queueing emits one depth-only draw per entity visible to a shadow
//! view, ordered by the pipeline's draw key.

use vstd::prelude::*;
use vstd::seq_lib::group_to_multiset_ensures;
use vstd::multiset::Multiset;
use crate::geometry::Aabb;
use crate::light::Light;

verus! {

/// A frame-local, read-only copy of the simulation-side lighting state.
#[derive(Clone, Debug, PartialEq)]
pub struct RenderSnapshot {
    pub frame: u64,
    pub lights: Vec<Light>,
    pub cluster_lists: Vec<Vec<u32>>,
}

/// Copy a light list element by element.
fn copy_lights(v: &Vec<Light>) -> (r: Vec<Light>)
    ensures
        r@ == v@,
{
    let mut r: Vec<Light> = Vec::new();
    let mut i: usize = 0;
    while i < v.len()
        invariant
            i <= v@.len(),
            r@ == v@.take(i as int),
        decreases v@.len() - i,
    {
        r.push(v[i]);
        proof {
            assert(v@.take(i + 1 as int) =~= v@.take(i as int).push(v@[i as int]));
        }
        i = i + 1;
    }
    proof {
        assert(v@.take(v@.len() as int) =~= v@);
    }
    r
}

/// Copy one cluster's light-index list.
fn copy_indices(v: &Vec<u32>) -> (r: Vec<u32>)
    ensures
        r@ == v@,
{
    let mut r: Vec<u32> = Vec::new();
    let mut i: usize = 0;
    while i < v.len()
        invariant
            i <= v@.len(),
            r@ == v@.take(i as int),
        decreases v@.len() - i,
    {
        r.push(v[i]);
        proof {
            assert(v@.take(i + 1 as int) =~= v@.take(i as int).push(v@[i as int]));
        }
        i = i + 1;
    }
    proof {
        assert(v@.take(v@.len() as int) =~= v@);
    }
    r
}

/// Read-only extraction: copy the lights and the cluster assignment into a
/// snapshot for frame `frame`. The simulation-side data is only read.
pub fn extract_frame(lights: &Vec<Light>, assignment: &Vec<Vec<u32>>, frame: u64) -> (s:
    RenderSnapshot)
    ensures
        s.frame == frame,
        s.lights@ == lights@,
        s.cluster_lists@.len() == assignment@.len(),
        forall|c: int|
            0 <= c < assignment@.len() ==> (#[trigger] s.cluster_lists@[c])@ == assignment@[c]@,
{
    let copied = copy_lights(lights);
    let mut cluster_lists: Vec<Vec<u32>> = Vec::new();
    let mut c: usize = 0;
    while c < assignment.len()
        invariant
            c <= assignment@.len(),
            cluster_lists@.len() == c,
            forall|k: int|
                0 <= k < c ==> (#[trigger] cluster_lists@[k])@ == assignment@[k]@,
        decreases assignment@.len() - c,
    {
        let one = copy_indices(&assignment[c]);
        cluster_lists.push(one);
        c = c + 1;
    }
    RenderSnapshot { frame, lights: copied, cluster_lists }
}

/// The synchronization point between the simulation and render timelines: a
/// slot holding the latest committed snapshot, swapped whole.
#[derive(Clone, Debug, PartialEq)]
pub struct SnapshotSlot {
    pub committed: Option<RenderSnapshot>,
}

impl SnapshotSlot {
    /// An empty slot: no frame committed yet.
    pub fn new() -> (s: SnapshotSlot)
        ensures
            s.committed is None,
    {
        SnapshotSlot { committed: None }
    }

    /// Commit a whole snapshot: the previous one is replaced in one step, so
    /// a reader sees either the old frame or the new frame, never a mixture.
    pub fn commit(&mut self, s: RenderSnapshot)
        ensures
            final(self).committed == Some(s),
    {
        self.committed = Some(s);
    }
}

/// One GPU-style row of packed light parameters.
#[derive(Clone, Copy, Debug, PartialEq, Eq, Structural)]
pub struct PackedLight {
    pub kind: u32,
    pub x: i64,
    pub y: i64,
    pub z: i64,
    pub range: i64,
    pub intensity: i64,
    pub shadows: u32,
}

/// Directional lights pack as kind 0 with their direction; point lights as
/// kind 1 with their position and range.
pub open spec fn packed_of(l: Light) -> PackedLight {
    match l {
        Light::Directional { direction, intensity, shadows_enabled } => PackedLight {
            kind: 0,
            x: direction.x,
            y: direction.y,
            z: direction.z,
            range: 0,
            intensity,
            shadows: if shadows_enabled {
                1
            } else {
                0
            },
        },
        Light::Point { center, range, intensity, shadows_enabled } => PackedLight {
            kind: 1,
            x: center.x,
            y: center.y,
            z: center.z,
            range,
            intensity,
            shadows: if shadows_enabled {
                1
            } else {
                0
            },
        },
    }
}

/// Pack the snapshot's lights into the GPU-visible parameter buffer, one row
/// per light, in light order.
pub fn prepare_lights_buffer(lights: &Vec<Light>) -> (r: Vec<PackedLight>)
    ensures
        r@.len() == lights@.len(),
        forall|i: int| 0 <= i < lights@.len() ==> #[trigger] r@[i] == packed_of(lights@[i]),
{
    let mut r: Vec<PackedLight> = Vec::new();
    let mut i: usize = 0;
    while i < lights.len()
        invariant
            i <= lights@.len(),
            r@.len() == i,
            forall|k: int| 0 <= k < i ==> #[trigger] r@[k] == packed_of(lights@[k]),
        decreases lights@.len() - i,
    {
        let row = match &lights[i] {
            Light::Directional { direction, intensity, shadows_enabled } => PackedLight {
                kind: 0,
                x: direction.x,
                y: direction.y,
                z: direction.z,
                range: 0,
                intensity: *intensity,
                shadows: if *shadows_enabled {
                    1
                } else {
                    0
                },
            },
            Light::Point { center, range, intensity, shadows_enabled } => PackedLight {
                kind: 1,
                x: center.x,
                y: center.y,
                z: center.z,
                range: *range,
                intensity: *intensity,
                shadows: if *shadows_enabled {
                    1
                } else {
                    0
                },
            },
        };
        r.push(row);
        i = i + 1;
    }
    r
}

/// The total number of light indices in the first `n` cluster lists.
pub open spec fn flat_len(lists: Seq<Vec<u32>>, n: int) -> int
    decreases n,
{
    if n <= 0 {
        0
    } else {
        flat_len(lists, n - 1) + lists[n - 1]@.len()
    }
}

/// The running totals only grow with more lists.
pub proof fn lemma_flat_len_mono(lists: Seq<Vec<u32>>, a: int, b: int)
    requires
        0 <= a <= b,
    ensures
        0 <= flat_len(lists, a) <= flat_len(lists, b),
    decreases b,
{
    if b > 0 {
        if a == b {
            lemma_flat_len_mono(lists, a - 1, b - 1);
        } else {
            lemma_flat_len_mono(lists, a, b - 1);
        }
    }
}

/// A subrange within the prefix is unchanged by appending.
proof fn lemma_subrange_of_concat_prefix(s1: Seq<u32>, s2: Seq<u32>, a: int, b: int)
    requires
        0 <= a <= b <= s1.len(),
    ensures
        (s1 + s2).subrange(a, b) == s1.subrange(a, b),
{
    assert((s1 + s2).subrange(a, b) =~= s1.subrange(a, b)) by {
        assert forall|x: int| 0 <= x < b - a implies (s1 + s2).subrange(a, b)[x] == s1.subrange(
            a,
            b,
        )[x] by {
            assert((s1 + s2)[a + x] == s1[a + x]);
        }
    }
}

/// The appended part is exactly the tail subrange of the concatenation.
proof fn lemma_subrange_of_concat_suffix(s1: Seq<u32>, s2: Seq<u32>)
    ensures
        (s1 + s2).subrange(s1.len() as int, s1.len() as int + s2.len() as int) == s2,
{
    assert((s1 + s2).subrange(s1.len() as int, s1.len() as int + s2.len() as int) =~= s2) by {
        assert forall|x: int| 0 <= x < s2.len() implies (s1 + s2).subrange(
            s1.len() as int,
            s1.len() as int + s2.len() as int,
        )[x] == s2[x] by {
            assert((s1 + s2)[s1.len() + x] == s2[x]);
        }
    }
}

/// The GPU-visible cluster buffers: for cluster `c`, its light indices are
/// `indices[offsets[c] .. offsets[c] + counts[c]]`.
#[derive(Clone, Debug, PartialEq)]
pub struct ClusterBuffers {
    pub offsets: Vec<u32>,
    pub counts: Vec<u32>,
    pub indices: Vec<u32>,
}

/// Flatten the per-cluster light lists into the packed offset/count/index
/// buffers the lighting shader reads.
#[verifier::rlimit(60)]
pub fn prepare_cluster_buffers(lists: &Vec<Vec<u32>>) -> (r: ClusterBuffers)
    requires
        flat_len(lists@, lists@.len() as int) <= u32::MAX,
        lists@.len() <= u32::MAX,
    ensures
        r.offsets@.len() == lists@.len(),
        r.counts@.len() == lists@.len(),
        r.indices@.len() == flat_len(lists@, lists@.len() as int),
        forall|c: int|
            0 <= c < lists@.len() ==> #[trigger] r.offsets@[c] == flat_len(lists@, c)
                && r.counts@[c] == lists@[c]@.len(),
        forall|c: int|
            0 <= c < lists@.len() ==> r.indices@.subrange(
                flat_len(lists@, c),
                flat_len(lists@, c + 1),
            ) == (#[trigger] lists@[c])@,
{
    let mut offsets: Vec<u32> = Vec::new();
    let mut counts: Vec<u32> = Vec::new();
    let mut indices: Vec<u32> = Vec::new();
    let mut total: u32 = 0;
    let mut c: usize = 0;
    while c < lists.len()
        invariant
            flat_len(lists@, lists@.len() as int) <= u32::MAX,
            lists@.len() <= u32::MAX,
            c <= lists@.len(),
            offsets@.len() == c,
            counts@.len() == c,
            total == flat_len(lists@, c as int),
            indices@.len() == total,
            forall|k: int|
                0 <= k < c ==> #[trigger] offsets@[k] == flat_len(lists@, k) && counts@[k]
                    == lists@[k]@.len(),
            forall|k: int|
                0 <= k < c ==> indices@.subrange(flat_len(lists@, k), flat_len(lists@, k + 1)) == (
                #[trigger] lists@[k])@,
        decreases lists@.len() - c,
    {
        proof {
            lemma_flat_len_mono(lists@, c + 1 as int, lists@.len() as int);
            lemma_flat_len_mono(lists@, c as int, c + 1 as int);
        }
        let row = &lists[c];
        offsets.push(total);
        counts.push(row.len() as u32);
        let ghost ind0 = indices@;
        let mut j: usize = 0;
        while j < row.len()
            invariant
                row == &lists[c as int],
                c < lists@.len(),
                flat_len(lists@, c + 1 as int) <= u32::MAX,
                total == flat_len(lists@, c as int),
                ind0.len() == total,
                j <= row@.len(),
                indices@ == ind0 + row@.take(j as int),
            decreases row@.len() - j,
        {
            indices.push(row[j]);
            proof {
                assert(row@.take(j + 1 as int) =~= row@.take(j as int).push(row@[j as int]));
                assert(ind0 + row@.take(j + 1 as int) =~= (ind0 + row@.take(j as int)).push(
                    row@[j as int],
                ));
            }
            j = j + 1;
        }
        proof {
            assert(row@.take(row@.len() as int) =~= row@);
            assert(indices@ == ind0 + row@);
            lemma_subrange_of_concat_suffix(ind0, row@);
            assert(indices@.subrange(total as int, total + row@.len()) == row@);
            assert forall|k: int|
                0 <= k < c implies indices@.subrange(
                flat_len(lists@, k),
                flat_len(lists@, k + 1),
            ) == (#[trigger] lists@[k])@ by {
                lemma_flat_len_mono(lists@, 0, k);
                lemma_flat_len_mono(lists@, k, k + 1);
                lemma_flat_len_mono(lists@, k + 1, c as int);
                lemma_subrange_of_concat_prefix(
                    ind0,
                    row@,
                    flat_len(lists@, k),
                    flat_len(lists@, k + 1),
                );
                assert(ind0.subrange(flat_len(lists@, k), flat_len(lists@, k + 1)) == lists@[k]@);
            }
        }
        total = total + (row.len() as u32);
        c = c + 1;
    }
    ClusterBuffers { offsets, counts, indices }
}

/// One depth-only draw command: the entity to draw and the pipeline-defined
/// sort key (a distance or material-batch key).
#[derive(Clone, Copy, Debug, PartialEq, Eq, Structural)]
pub struct DrawCommand {
    pub entity: u32,
    pub key: u64,
}

/// Draw keys never decrease along the queue.
pub open spec fn sorted_by_key(s: Seq<DrawCommand>) -> bool {
    forall|i: int, j: int| 0 <= i < j < s.len() ==> #[trigger] s[i].key <= #[trigger] s[j].key
}

/// The draws for the entities among the first `n` whose bounds meet the
/// shadow view's volume, in entity order.
pub open spec fn visible_draws_upto(
    bounds: Seq<Aabb>,
    keys: Seq<u64>,
    volume: Aabb,
    n: int,
) -> Seq<DrawCommand>
    decreases n,
{
    if n <= 0 {
        Seq::empty()
    } else if bounds[n - 1].overlaps(volume) {
        visible_draws_upto(bounds, keys, volume, n - 1).push(
            DrawCommand { entity: (n - 1) as u32, key: keys[n - 1] },
        )
    } else {
        visible_draws_upto(bounds, keys, volume, n - 1)
    }
}

/// All draws for entities visible to the shadow view.
pub open spec fn visible_draws(bounds: Seq<Aabb>, keys: Seq<u64>, volume: Aabb) -> Seq<
    DrawCommand,
> {
    visible_draws_upto(bounds, keys, volume, bounds.len() as int)
}

/// The index of the pending draw with the smallest key.
fn min_key_index(pending: &Vec<DrawCommand>) -> (m: usize)
    requires
        pending@.len() > 0,
    ensures
        m < pending@.len(),
        forall|j: int| 0 <= j < pending@.len() ==> pending@[m as int].key <= (#[trigger] pending@[j]).key,
        // the first position attaining the minimum: everything earlier is
        // strictly larger
        forall|j: int| 0 <= j < m ==> (#[trigger] pending@[j]).key > pending@[m as int].key,
{
    let mut m: usize = 0;
    let mut j: usize = 1;
    while j < pending.len()
        invariant
            m < j <= pending@.len(),
            forall|k: int| 0 <= k < j ==> pending@[m as int].key <= (#[trigger] pending@[k]).key,
            forall|k: int| 0 <= k < m ==> (#[trigger] pending@[k]).key > pending@[m as int].key,
        decreases pending@.len() - j,
    {
        if pending[j].key < pending[m].key {
            m = j;
        }
        j = j + 1;
    }
    m
}

/// Enqueue one depth-only draw for every entity visible to the shadow view,
/// sorted by the pipeline's draw key for stable draw ordering. The result
/// holds exactly the visible entities' draws.
pub fn queue_shadow_draws(bounds: &Vec<Aabb>, keys: &Vec<u64>, volume: &Aabb) -> (r: Vec<
    DrawCommand,
>)
    requires
        keys@.len() == bounds@.len(),
        bounds@.len() <= u32::MAX,
    ensures
        sorted_by_key(r@),
        r@.to_multiset() == visible_draws(bounds@, keys@, *volume).to_multiset(),
        // stable: draws with equal keys keep entity order
        forall|i: int, j: int|
            #![trigger r@[i], r@[j]]
            0 <= i < j < r@.len() && r@[i].key == r@[j].key ==> r@[i].entity < r@[j].entity,
{
    let mut pending: Vec<DrawCommand> = Vec::new();
    let mut e: usize = 0;
    while e < bounds.len()
        invariant
            keys@.len() == bounds@.len(),
            bounds@.len() <= u32::MAX,
            e <= bounds@.len(),
            pending@ == visible_draws_upto(bounds@, keys@, *volume, e as int),
            forall|a: int| 0 <= a < pending@.len() ==> (#[trigger] pending@[a]).entity < e,
            forall|a: int, b: int|
                #![trigger pending@[a], pending@[b]]
                0 <= a < b < pending@.len() ==> pending@[a].entity < pending@[b].entity,
        decreases bounds@.len() - e,
    {
        let ghost s0 = visible_draws_upto(bounds@, keys@, *volume, e as int);
        let ghost s1 = visible_draws_upto(bounds@, keys@, *volume, e + 1 as int);
        if crate::geometry::aabb_intersects_aabb(&bounds[e], volume) {
            pending.push(DrawCommand { entity: e as u32, key: keys[e] });
            assert(s1 == s0.push(DrawCommand { entity: e as u32, key: keys@[e as int] }));
        } else {
            assert(s1 == s0);
        }
        e = e + 1;
    }
    let ghost all = pending@;
    proof {
        broadcast use group_to_multiset_ensures;

        assert(Seq::<DrawCommand>::empty().to_multiset().add(all.to_multiset())
            =~= all.to_multiset());
    }
    let mut out: Vec<DrawCommand> = Vec::new();
    while pending.len() > 0
        invariant
            sorted_by_key(out@),
            forall|i: int, j: int|
                0 <= i < out@.len() && 0 <= j < pending@.len() ==> (#[trigger] out@[i]).key <= (
                #[trigger] pending@[j]).key,
            out@.to_multiset().add(pending@.to_multiset()) =~= all.to_multiset(),
            forall|a: int, b: int|
                #![trigger pending@[a], pending@[b]]
                0 <= a < b < pending@.len() ==> pending@[a].entity < pending@[b].entity,
            forall|i: int, j: int|
                #![trigger out@[i], out@[j]]
                0 <= i < j < out@.len() && out@[i].key == out@[j].key ==> out@[i].entity
                    < out@[j].entity,
            forall|i: int, j: int|
                0 <= i < out@.len() && 0 <= j < pending@.len() && (#[trigger] out@[i]).key == (
                #[trigger] pending@[j]).key ==> out@[i].entity < pending@[j].entity,
        decreases pending@.len(),
    {
        let m = min_key_index(&pending);
        let d = pending[m];
        let ghost out0 = out@;
        let ghost pend0 = pending@;
        out.push(d);
        pending.remove(m);
        proof {
            broadcast use group_to_multiset_ensures;

            assert(out@ == out0.push(d));
            assert(pending@ == pend0.remove(m as int));
            assert(out@.to_multiset() =~= out0.to_multiset().insert(d));
            assert(pending@.to_multiset() =~= pend0.to_multiset().remove(d));
            assert(pend0.contains(d));
            assert(pend0.to_multiset().count(d) > 0);
            assert(out@.to_multiset().add(pending@.to_multiset()) =~= all.to_multiset());
            assert forall|i: int, j: int|
                0 <= i < j < out@.len() implies (#[trigger] out@[i]).key <= (
            #[trigger] out@[j]).key by {
                if j < out@.len() - 1 {
                    assert(out@[i] == out0[i] && out@[j] == out0[j]);
                } else {
                    assert(out@[j] == d);
                    assert(out@[i] == out0[i]);
                }
            }
            assert forall|i: int, j: int|
                0 <= i < out@.len() && 0 <= j < pending@.len() implies (#[trigger] out@[i]).key <= (
            #[trigger] pending@[j]).key by {
                if i < out@.len() - 1 {
                    assert(out@[i] == out0[i]);
                } else {
                    assert(out@[i] == d);
                }
                if j < m {
                    assert(pending@[j] == pend0[j]);
                } else {
                    assert(pending@[j] == pend0[j + 1]);
                }
            }
            assert forall|a: int, b: int|
                #![trigger pending@[a], pending@[b]]
                0 <= a < b < pending@.len() implies pending@[a].entity < pending@[b].entity by {
                let a0: int = if a < m {
                    a
                } else {
                    a + 1
                };
                let b0: int = if b < m {
                    b
                } else {
                    b + 1
                };
                assert(pending@[a] == pend0[a0] && pending@[b] == pend0[b0]);
            }
            assert forall|i: int, j: int|
                #![trigger out@[i], out@[j]]
                0 <= i < j < out@.len() && out@[i].key == out@[j].key implies out@[i].entity
                < out@[j].entity by {
                if j < out@.len() - 1 {
                    assert(out@[i] == out0[i] && out@[j] == out0[j]);
                } else {
                    assert(out@[j] == d && out@[i] == out0[i]);
                    assert(pend0[m as int] == d);
                }
            }
            assert forall|i: int, j: int|
                0 <= i < out@.len() && 0 <= j < pending@.len() && (#[trigger] out@[i]).key == (
            #[trigger] pending@[j]).key implies out@[i].entity < pending@[j].entity by {
                let j0: int = if j < m {
                    j
                } else {
                    j + 1
                };
                assert(pending@[j] == pend0[j0]);
                if i < out@.len() - 1 {
                    assert(out@[i] == out0[i]);
                } else {
                    assert(out@[i] == d);
                    if j0 < m {
                        assert(pend0[j0].key > d.key);
                        assert(false);
                    } else {
                        assert(pend0[m as int].entity < pend0[j0].entity);
                    }
                }
            }
        }
    }
    proof {
        broadcast use group_to_multiset_ensures;

        assert(pending@.to_multiset() =~= Multiset::<DrawCommand>::empty());
        assert(out@.to_multiset() =~= all.to_multiset());
    }
    out
}

/// An entity's draw is queued exactly when its bounds meet the shadow view's
/// volume.
pub proof fn lemma_queue_membership(
    bounds: Seq<Aabb>,
    keys: Seq<u64>,
    volume: Aabb,
    n: int,
    e: u32,
)
    requires
        n <= bounds.len(),
        bounds.len() <= u32::MAX,
        keys.len() == bounds.len(),
    ensures
        visible_draws_upto(bounds, keys, volume, n).contains(
            DrawCommand { entity: e, key: keys[e as int] },
        ) <==> (0 <= e < n && bounds[e as int].overlaps(volume)),
    decreases n,
{
    let d = DrawCommand { entity: e, key: keys[e as int] };
    if n > 0 {
        lemma_queue_membership(bounds, keys, volume, n - 1, e);
        let s = visible_draws_upto(bounds, keys, volume, n);
        let s0 = visible_draws_upto(bounds, keys, volume, n - 1);
        lemma_visible_entities(bounds, keys, volume, n - 1);
        if bounds[n - 1].overlaps(volume) {
            let last = DrawCommand { entity: (n - 1) as u32, key: keys[n - 1] };
            assert(s == s0.push(last));
            if 0 <= e < n && bounds[e as int].overlaps(volume) {
                if e == n - 1 {
                    assert(s[s.len() - 1] == d);
                    assert(s.contains(d));
                } else {
                    let k = choose|k: int| 0 <= k < s0.len() && s0[k] == d;
                    assert(s[k] == d);
                    assert(s.contains(d));
                }
            }
            if s.contains(d) {
                let k = choose|k: int| 0 <= k < s.len() && s[k] == d;
                if k < s.len() - 1 {
                    assert(s0[k] == d);
                    assert(s0.contains(d));
                }
            }
        } else {
            assert(s == s0);
        }
    }
}

/// Every queued draw names an entity below `n` with its own key.
pub proof fn lemma_visible_entities(bounds: Seq<Aabb>, keys: Seq<u64>, volume: Aabb, n: int)
    requires
        n <= bounds.len(),
        bounds.len() <= u32::MAX,
        keys.len() == bounds.len(),
    ensures
        forall|k: int|
            0 <= k < visible_draws_upto(bounds, keys, volume, n).len() ==> {
                let d = #[trigger] visible_draws_upto(bounds, keys, volume, n)[k];
                0 <= d.entity < n && d.key == keys[d.entity as int] && bounds[d.entity
                    as int].overlaps(volume)
            },
    decreases n,
{
    if n > 0 {
        lemma_visible_entities(bounds, keys, volume, n - 1);
        let s = visible_draws_upto(bounds, keys, volume, n);
        let s0 = visible_draws_upto(bounds, keys, volume, n - 1);
        if bounds[n - 1].overlaps(volume) {
            assert(s == s0.push(DrawCommand { entity: (n - 1) as u32, key: keys[n - 1] }));
            assert forall|k: int| 0 <= k < s.len() implies {
                let d = #[trigger] s[k];
                0 <= d.entity < n && d.key == keys[d.entity as int] && bounds[d.entity
                    as int].overlaps(volume)
            } by {
                if k < s0.len() {
                    assert(s[k] == s0[k]);
                } else {
                    assert(s[k] == DrawCommand { entity: (n - 1) as u32, key: keys[n - 1] });
                }
            }
        } else {
            assert(s == s0);
        }
    }
}

} // verus!
