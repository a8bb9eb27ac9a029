//! Shadow resource and pass scheduling: a per-frame state machine that
//! collects the shadow casters, allocates atlas regions, builds the per-region
//! view descriptors, and splices the shadow pass into the frame graph.
//!
//! Degradation is graceful and never a failure: when the fixed-capacity
//! atlas runs out, the lowest-priority casters (latest in the stable light
//! order) lose their shadows for this frame only; they keep lighting the
//! scene.

use vstd::prelude::*;
use crate::geometry::{Aabb, Vec3i};
use crate::light::{Light, cascade_volume, face_volume, directional_cascades, point_light_faces,
    kept_face_ids, lemma_kept_face_ids_props, lemma_kept_face_ids_membership};
use crate::graph::{DepGraph, SHADOW_PASS_NODE, MAIN_PASS_NODE, VIEW_INPUT_NODE, build_frame_graph};

verus! {

/// The stages of the per-frame shadow scheduling state machine, in order.
#[derive(Clone, Copy, Debug, PartialEq, Eq, Structural)]
pub enum ShadowPhase {
    Idle,
    CollectCasters,
    AllocateAtlasRegions,
    BuildViewDescriptors,
    Scheduled,
}

/// A caster's reservation in the shadow-map atlas: `count` regions starting
/// at `offset`.
#[derive(Clone, Copy, Debug, PartialEq, Eq, Structural)]
pub struct AtlasAllocation {
    pub light: u32,
    pub offset: u32,
    pub count: u32,
}

/// One depth-only rendering view: a virtual camera volume bound to one atlas
/// region.
#[derive(Clone, Copy, Debug, PartialEq, Eq, Structural)]
pub struct ShadowView {
    pub region: u32,
    pub volume: Aabb,
}

/// All the shadow views of one allocated caster.
#[derive(Clone, Debug, PartialEq)]
pub struct LightViews {
    pub light: u32,
    pub offset: u32,
    pub parts: Vec<ShadowView>,
}

/// The indices among the first `n` lights that cast shadows and whose
/// influence volume is visible to the main camera, in light order.
pub open spec fn shadow_casters_upto(lights: Seq<Light>, vol: Aabb, n: int) -> Seq<u32>
    decreases n,
{
    if n <= 0 {
        Seq::empty()
    } else if lights[n - 1].casts_shadows() && lights[n - 1].affects(vol) {
        shadow_casters_upto(lights, vol, n - 1).push((n - 1) as u32)
    } else {
        shadow_casters_upto(lights, vol, n - 1)
    }
}

/// All shadow-caster indices, in light order (the documented priority order:
/// earlier lights keep their shadows first under atlas pressure).
pub open spec fn shadow_casters(lights: Seq<Light>, vol: Aabb) -> Seq<u32> {
    shadow_casters_upto(lights, vol, lights.len() as int)
}

/// Every collected caster index is in range, casts shadows, affects the view
/// volume, and the list is strictly increasing.
pub proof fn lemma_shadow_casters_props(lights: Seq<Light>, vol: Aabb, n: int)
    requires
        n <= lights.len(),
        lights.len() <= u32::MAX,
    ensures
        forall|k: int|
            0 <= k < shadow_casters_upto(lights, vol, n).len() ==> 0 <= #[trigger]
            shadow_casters_upto(lights, vol, n)[k] < n && lights[shadow_casters_upto(
                lights,
                vol,
                n,
            )[k] as int].casts_shadows() && lights[shadow_casters_upto(lights, vol, n)[k]
                as int].affects(vol),
        forall|k1: int, k2: int|
            0 <= k1 < k2 < shadow_casters_upto(lights, vol, n).len() ==> #[trigger]
            shadow_casters_upto(lights, vol, n)[k1] < #[trigger] shadow_casters_upto(
                lights,
                vol,
                n,
            )[k2],
    decreases n,
{
    if n > 0 {
        lemma_shadow_casters_props(lights, vol, n - 1);
        let s = shadow_casters_upto(lights, vol, n);
        let s0 = shadow_casters_upto(lights, vol, n - 1);
        if lights[n - 1].casts_shadows() && lights[n - 1].affects(vol) {
            assert(s == s0.push((n - 1) as u32));
            assert forall|k: int| 0 <= k < s.len() implies 0 <= #[trigger] s[k] < n
                && lights[s[k] as int].casts_shadows() && lights[s[k] as int].affects(vol) by {
                if k < s0.len() {
                    assert(s[k] == s0[k]);
                } else {
                    assert(s[k] == (n - 1) as u32);
                }
            }
            assert forall|k1: int, k2: int| 0 <= k1 < k2 < s.len() implies #[trigger] s[k1]
                < #[trigger] s[k2] by {
                if k2 < s0.len() {
                    assert(s[k1] == s0[k1] && s[k2] == s0[k2]);
                } else {
                    assert(s[k1] == s0[k1] && s[k2] == (n - 1) as u32);
                    assert(s0[k1] < n - 1);
                }
            }
        } else {
            assert(s == s0);
        }
    }
}

/// A light is collected as a caster exactly when it casts shadows and its
/// influence volume is visible.
pub proof fn lemma_shadow_casters_membership(lights: Seq<Light>, vol: Aabb, n: int, idx: u32)
    requires
        n <= lights.len(),
        lights.len() <= u32::MAX,
    ensures
        shadow_casters_upto(lights, vol, n).contains(idx) <==> (0 <= idx < n && lights[idx
            as int].casts_shadows() && lights[idx as int].affects(vol)),
    decreases n,
{
    if n > 0 {
        lemma_shadow_casters_membership(lights, vol, n - 1, idx);
        let s = shadow_casters_upto(lights, vol, n);
        let s0 = shadow_casters_upto(lights, vol, n - 1);
        if lights[n - 1].casts_shadows() && lights[n - 1].affects(vol) {
            assert(s == s0.push((n - 1) as u32));
            if 0 <= idx < n && lights[idx as int].casts_shadows() && lights[idx as int].affects(
                vol,
            ) {
                if idx == n - 1 {
                    assert(s[s.len() - 1] == idx);
                    assert(s.contains(idx));
                } else {
                    let k = choose|k: int| 0 <= k < s0.len() && s0[k] == idx;
                    assert(s[k] == idx);
                    assert(s.contains(idx));
                }
            }
            if s.contains(idx) {
                let k = choose|k: int| 0 <= k < s.len() && s[k] == idx;
                if k < s.len() - 1 {
                    assert(s0[k] == idx);
                    assert(s0.contains(idx));
                }
            }
        } else {
            assert(s == s0);
        }
    }
}

/// How many atlas regions a caster needs: one per cascade for a directional
/// light, one per cube face for a point light.
pub open spec fn regions_of(l: Light, cascades: int) -> int {
    match l {
        Light::Directional { .. } => cascades,
        Light::Point { .. } => 6,
    }
}

/// The total regions of the first `n` casters.
pub open spec fn regions_sum(lights: Seq<Light>, casters: Seq<u32>, cascades: int, n: int) -> int
    decreases n,
{
    if n <= 0 {
        0
    } else {
        regions_sum(lights, casters, cascades, n - 1) + regions_of(
            lights[casters[n - 1] as int],
            cascades,
        )
    }
}

/// The views of one caster are exactly right for its allocation: a
/// directional caster renders one cascade per region, covering the visible
/// depth range in order; a point caster renders one view per kept cube face
/// (every face whose volume can meet the view volume, and no other), in face
/// order, the face identified by `region - offset`.
pub open spec fn views_match(
    v: LightViews,
    alo: AtlasAllocation,
    lights: Seq<Light>,
    view_volume: Aabb,
    cascades: int,
) -> bool {
    &&& v.light == alo.light
    &&& v.offset == alo.offset
    &&& match lights[alo.light as int] {
        Light::Directional { .. } => v.parts@.len() == cascades && forall|c: int|
            0 <= c < cascades ==> (#[trigger] v.parts@[c]).volume == cascade_volume(
                view_volume,
                cascades,
                c,
            ) && v.parts@[c].region == alo.offset + c,
        Light::Point { center, range, .. } => v.parts@.len() == kept_face_ids(
            center,
            range,
            view_volume,
            6,
        ).len() && forall|j: int|
            0 <= j < v.parts@.len() ==> (#[trigger] v.parts@[j]).region == alo.offset
                + kept_face_ids(center, range, view_volume, 6)[j] && v.parts@[j].volume
                == face_volume(
                center,
                range,
                kept_face_ids(center, range, view_volume, 6)[j] as int,
            ),
    }
}

/// What the exact view spec gives a point caster: one view per kept cube
/// face, regions distinct, in face order and within the caster's atlas
/// reservation, each view's volume able to meet the view volume, and a view
/// present for every face that can meet it.
pub proof fn lemma_point_views_props(
    v: LightViews,
    alo: AtlasAllocation,
    lights: Seq<Light>,
    view_volume: Aabb,
    cascades: int,
    center: Vec3i,
    range: i64,
)
    requires
        views_match(v, alo, lights, view_volume, cascades),
        lights[alo.light as int] == (Light::Point {
            center,
            range,
            intensity: lights[alo.light as int]->Point_intensity,
            shadows_enabled: lights[alo.light as int]->Point_shadows_enabled,
        }),
    ensures
        v.parts@.len() <= 6,
        forall|j: int|
            0 <= j < v.parts@.len() ==> alo.offset <= (#[trigger] v.parts@[j]).region < alo.offset
                + 6 && face_volume(center, range, v.parts@[j].region - alo.offset).overlaps(
                view_volume,
            ),
        forall|j1: int, j2: int|
            0 <= j1 < j2 < v.parts@.len() ==> (#[trigger] v.parts@[j1]).region < (
            #[trigger] v.parts@[j2]).region,
        forall|f: int|
            0 <= f < 6 && face_volume(center, range, f).overlaps(view_volume) ==> exists|j: int|
                0 <= j < v.parts@.len() && (#[trigger] v.parts@[j]).region == alo.offset + f,
{
    let kept = kept_face_ids(center, range, view_volume, 6);
    lemma_kept_face_ids_props(center, range, view_volume, 6);
    assert forall|j: int|
        0 <= j < v.parts@.len() implies alo.offset <= (#[trigger] v.parts@[j]).region < alo.offset
        + 6 && face_volume(center, range, v.parts@[j].region - alo.offset).overlaps(
        view_volume,
    ) by {
        assert(v.parts@[j].region == alo.offset + kept[j]);
    }
    assert forall|j1: int, j2: int|
        0 <= j1 < j2 < v.parts@.len() implies (#[trigger] v.parts@[j1]).region < (
    #[trigger] v.parts@[j2]).region by {
        assert(v.parts@[j1].region == alo.offset + kept[j1]);
        assert(v.parts@[j2].region == alo.offset + kept[j2]);
    }
    assert forall|f: int|
        0 <= f < 6 && face_volume(center, range, f).overlaps(view_volume) implies exists|j: int|
        0 <= j < v.parts@.len() && (#[trigger] v.parts@[j]).region == alo.offset + f by {
        lemma_kept_face_ids_membership(center, range, view_volume, 6, f as u32);
        assert(kept.contains(f as u32));
        let j = choose|j: int| 0 <= j < kept.len() && kept[j] == f as u32;
        assert(v.parts@[j].region == alo.offset + f);
    }
}

/// The per-frame shadow scheduler.
#[derive(Clone, Debug, PartialEq)]
pub struct ShadowScheduler {
    pub phase: ShadowPhase,
    pub casters: Vec<u32>,
    pub allocations: Vec<AtlasAllocation>,
    pub views: Vec<LightViews>,
}

impl ShadowScheduler {
    /// A fresh scheduler, idle until the frame starts.
    pub fn new() -> (s: ShadowScheduler)
        ensures
            s.phase == ShadowPhase::Idle,
            s.casters@.len() == 0,
            s.allocations@.len() == 0,
            s.views@.len() == 0,
    {
        ShadowScheduler {
            phase: ShadowPhase::Idle,
            casters: Vec::new(),
            allocations: Vec::new(),
            views: Vec::new(),
        }
    }

    /// Select the lights that cast shadows this frame: shadows enabled and
    /// influence volume visible to the main camera.
    pub fn collect_casters(&mut self, lights: &Vec<Light>, view_volume: &Aabb)
        requires
            old(self).phase == ShadowPhase::Idle,
            forall|i: int| 0 <= i < lights@.len() ==> (#[trigger] lights@[i]).wf(),
            lights@.len() <= u32::MAX,
            view_volume.wf(),
        ensures
            final(self).phase == ShadowPhase::CollectCasters,
            final(self).casters@ == shadow_casters(lights@, *view_volume),
            final(self).allocations == old(self).allocations,
            final(self).views == old(self).views,
    {
        let mut v: Vec<u32> = Vec::new();
        let mut j: usize = 0;
        while j < lights.len()
            invariant
                forall|i: int| 0 <= i < lights@.len() ==> (#[trigger] lights@[i]).wf(),
                lights@.len() <= u32::MAX,
                view_volume.wf(),
                j <= lights@.len(),
                v@ == shadow_casters_upto(lights@, *view_volume, j as int),
            decreases lights@.len() - j,
        {
            let ghost s0 = shadow_casters_upto(lights@, *view_volume, j as int);
            let ghost s1 = shadow_casters_upto(lights@, *view_volume, j + 1 as int);
            if lights[j].shadows_on() && lights[j].affects_aabb(view_volume) {
                assert(s1 == s0.push(j as u32));
                v.push(j as u32);
            } else {
                assert(s1 == s0);
            }
            j = j + 1;
        }
        self.casters = v;
        self.phase = ShadowPhase::CollectCasters;
    }

    /// Reserve atlas regions for the casters in priority order (light order)
    /// until the fixed capacity runs out; casters that no longer fit are
    /// dropped from shadowing this frame only.
    pub fn allocate_atlas_regions(&mut self, lights: &Vec<Light>, capacity: u32, cascades: u32)
        requires
            old(self).phase == ShadowPhase::CollectCasters,
            1 <= cascades <= 16,
            forall|k: int|
                0 <= k < old(self).casters@.len() ==> #[trigger] old(self).casters@[k]
                    < lights@.len(),
        ensures
            final(self).phase == ShadowPhase::AllocateAtlasRegions,
            final(self).casters == old(self).casters,
            final(self).views == old(self).views,
            final(self).allocations@.len() <= old(self).casters@.len(),
            regions_sum(
                lights@,
                old(self).casters@,
                cascades as int,
                final(self).allocations@.len() as int,
            ) <= capacity,
            final(self).allocations@.len() < old(self).casters@.len() ==> regions_sum(
                lights@,
                old(self).casters@,
                cascades as int,
                final(self).allocations@.len() as int + 1,
            ) > capacity,
            forall|k: int|
                0 <= k < final(self).allocations@.len() ==> {
                    let alo = #[trigger] final(self).allocations@[k];
                    alo.light == old(self).casters@[k] && alo.offset == regions_sum(
                        lights@,
                        old(self).casters@,
                        cascades as int,
                        k,
                    ) && alo.count == regions_of(
                        lights@[old(self).casters@[k] as int],
                        cascades as int,
                    ) && alo.offset + alo.count <= capacity
                },
    {
        let mut allocations: Vec<AtlasAllocation> = Vec::new();
        let mut total: u32 = 0;
        let mut k: usize = 0;
        let n = self.casters.len();
        let mut stopped = false;
        while k < n && !stopped
            invariant
                self.phase == old(self).phase,
                self.casters == old(self).casters,
                self.views == old(self).views,
                n == self.casters@.len(),
                1 <= cascades <= 16,
                forall|j: int|
                    0 <= j < self.casters@.len() ==> #[trigger] self.casters@[j] < lights@.len(),
                k <= n,
                allocations@.len() == k,
                total == regions_sum(lights@, self.casters@, cascades as int, k as int),
                total <= capacity,
                !stopped ==> k == allocations@.len(),
                stopped ==> k < n && regions_sum(
                    lights@,
                    self.casters@,
                    cascades as int,
                    k + 1,
                ) > capacity,
                forall|j: int|
                    0 <= j < allocations@.len() ==> (#[trigger] allocations@[j]).light
                        == self.casters@[j] && allocations@[j].offset == regions_sum(
                        lights@,
                        self.casters@,
                        cascades as int,
                        j,
                    ) && allocations@[j].count == regions_of(
                        lights@[self.casters@[j] as int],
                        cascades as int,
                    ) && allocations@[j].offset + allocations@[j].count <= capacity,
            decreases n - k + if stopped { 0int } else { 1int },
        {
            let light_idx = self.casters[k];
            let count: u32 = match &lights[light_idx as usize] {
                Light::Directional { .. } => cascades,
                Light::Point { .. } => 6,
            };
            if count <= capacity - total {
                allocations.push(AtlasAllocation { light: light_idx, offset: total, count });
                total = total + count;
                k = k + 1;
            } else {
                stopped = true;
            }
        }
        self.allocations = allocations;
        self.phase = ShadowPhase::AllocateAtlasRegions;
    }

    /// Build one virtual depth-only camera per allocated atlas region:
    /// cascades fitted to the view volume for a directional caster, kept cube
    /// faces for a point caster. A part's atlas region encodes which cascade
    /// or face it renders: `region - offset`.
    pub fn build_view_descriptors(&mut self, lights: &Vec<Light>, view_volume: &Aabb, cascades: u32)
        requires
            old(self).phase == ShadowPhase::AllocateAtlasRegions,
            forall|i: int| 0 <= i < lights@.len() ==> (#[trigger] lights@[i]).wf(),
            view_volume.wf(),
            1 <= cascades <= 16,
            view_volume.max.z - view_volume.min.z >= cascades,
            forall|k: int|
                0 <= k < old(self).allocations@.len() ==> {
                    let alo = #[trigger] old(self).allocations@[k];
                    alo.light < lights@.len() && alo.count == regions_of(
                        lights@[alo.light as int],
                        cascades as int,
                    ) && alo.offset + alo.count <= u32::MAX
                },
        ensures
            final(self).phase == ShadowPhase::BuildViewDescriptors,
            final(self).casters == old(self).casters,
            final(self).allocations == old(self).allocations,
            final(self).views@.len() == old(self).allocations@.len(),
            forall|k: int|
                0 <= k < final(self).views@.len() ==> views_match(
                    #[trigger] final(self).views@[k],
                    old(self).allocations@[k],
                    lights@,
                    *view_volume,
                    cascades as int,
                ),
    {
        let mut views: Vec<LightViews> = Vec::new();
        let mut k: usize = 0;
        let n = self.allocations.len();
        while k < n
            invariant
                self.phase == old(self).phase,
                self.casters == old(self).casters,
                self.allocations == old(self).allocations,
                n == self.allocations@.len(),
                forall|i: int| 0 <= i < lights@.len() ==> (#[trigger] lights@[i]).wf(),
                view_volume.wf(),
                1 <= cascades <= 16,
                view_volume.max.z - view_volume.min.z >= cascades,
                forall|j: int|
                    0 <= j < self.allocations@.len() ==> {
                        let alo = #[trigger] self.allocations@[j];
                        alo.light < lights@.len() && alo.count == regions_of(
                            lights@[alo.light as int],
                            cascades as int,
                        ) && alo.offset + alo.count <= u32::MAX
                    },
                k <= n,
                views@.len() == k,
                forall|j: int|
                    0 <= j < views@.len() ==> views_match(
                        #[trigger] views@[j],
                        self.allocations@[j],
                        lights@,
                        *view_volume,
                        cascades as int,
                    ),
            decreases n - k,
        {
            let alo = self.allocations[k];
            let ghost v0 = views@;
            match &lights[alo.light as usize] {
                Light::Directional { .. } => {
                    let vols = directional_cascades(view_volume, cascades);
                    let mut parts: Vec<ShadowView> = Vec::new();
                    let mut c: usize = 0;
                    while c < vols.len()
                        invariant
                            vols@.len() == cascades,
                            1 <= cascades <= 16,
                            alo.count == cascades,
                            alo.offset + alo.count <= u32::MAX,
                            forall|c2: int|
                                0 <= c2 < vols@.len() ==> #[trigger] vols@[c2] == cascade_volume(
                                    *view_volume,
                                    cascades as int,
                                    c2,
                                ),
                            c <= vols@.len(),
                            parts@.len() == c,
                            forall|c2: int|
                                0 <= c2 < parts@.len() ==> (#[trigger] parts@[c2]).volume
                                    == cascade_volume(*view_volume, cascades as int, c2)
                                    && parts@[c2].region == alo.offset + c2,
                        decreases vols@.len() - c,
                    {
                        parts.push(ShadowView { region: alo.offset + c as u32, volume: vols[c] });
                        c = c + 1;
                    }
                    let ghost psnap = parts@;
                    views.push(LightViews { light: alo.light, offset: alo.offset, parts });
                    proof {
                        assert forall|j: int| 0 <= j < views@.len() implies views_match(
                            #[trigger] views@[j],
                            self.allocations@[j],
                            lights@,
                            *view_volume,
                            cascades as int,
                        ) by {
                            if j < v0.len() {
                                assert(views@[j] == v0[j]);
                            } else {
                                assert(views@[j].parts@ == psnap);
                            }
                        }
                    }
                },
                Light::Point { center, range, .. } => {
                    let faces = point_light_faces(*center, *range, view_volume);
                    let mut parts: Vec<ShadowView> = Vec::new();
                    let mut jf: usize = 0;
                    while jf < faces.len()
                        invariant
                            faces@.len() <= 6,
                            alo.count == 6,
                            alo.offset + alo.count <= u32::MAX,
                            faces@.len() == kept_face_ids(*center, *range, *view_volume, 6).len(),
                            forall|j2: int|
                                0 <= j2 < faces@.len() ==> (#[trigger] faces@[j2]).face
                                    == kept_face_ids(*center, *range, *view_volume, 6)[j2]
                                    && faces@[j2].face < 6 && faces@[j2].volume == face_volume(
                                    *center,
                                    *range,
                                    faces@[j2].face as int,
                                ),
                            jf <= faces@.len(),
                            parts@.len() == jf,
                            forall|j2: int|
                                0 <= j2 < parts@.len() ==> (#[trigger] parts@[j2]).region
                                    == alo.offset + faces@[j2].face && parts@[j2].volume
                                    == faces@[j2].volume,
                        decreases faces@.len() - jf,
                    {
                        let fv = faces[jf];
                        parts.push(ShadowView { region: alo.offset + fv.face, volume: fv.volume });
                        jf = jf + 1;
                    }
                    let ghost psnap = parts@;
                    views.push(LightViews { light: alo.light, offset: alo.offset, parts });
                    proof {
                        let kept = kept_face_ids(*center, *range, *view_volume, 6);
                        assert forall|j: int| 0 <= j < views@.len() implies views_match(
                            #[trigger] views@[j],
                            self.allocations@[j],
                            lights@,
                            *view_volume,
                            cascades as int,
                        ) by {
                            if j < v0.len() {
                                assert(views@[j] == v0[j]);
                            } else {
                                assert(views@[j].parts@ == psnap);
                                assert forall|j2: int|
                                    0 <= j2 < psnap.len() implies (#[trigger] psnap[j2]).region
                                    == alo.offset + kept[j2] && psnap[j2].volume == face_volume(
                                    *center,
                                    *range,
                                    kept[j2] as int,
                                ) by {
                                    assert(psnap[j2].region == alo.offset + faces@[j2].face);
                                    assert(faces@[j2].face == kept[j2]);
                                    assert(psnap[j2].volume == faces@[j2].volume);
                                }
                            }
                        }
                    }
                },
            }
            k = k + 1;
        }
        self.views = views;
        self.phase = ShadowPhase::BuildViewDescriptors;
    }

    /// Insert the shadow pass into the frame's dependency graph, ordered
    /// strictly before the main pass and fed by the view input.
    pub fn schedule(&mut self) -> (g: DepGraph)
        requires
            old(self).phase == ShadowPhase::BuildViewDescriptors,
        ensures
            final(self).phase == ShadowPhase::Scheduled,
            final(self).casters == old(self).casters,
            final(self).allocations == old(self).allocations,
            final(self).views == old(self).views,
            g.wf(),
            g.edges@.contains((SHADOW_PASS_NODE, MAIN_PASS_NODE)),
            g.edges@.contains((VIEW_INPUT_NODE, SHADOW_PASS_NODE)),
    {
        let g = build_frame_graph();
        self.phase = ShadowPhase::Scheduled;
        g
    }
}

} // verus!
