//! The verified per-frame simulation step: cluster-grid refresh, then
//! light-to-cluster assignment against that grid, then per-light visibility.
//!
//! Chaining the stages in one function makes the frame's ordering guarantee
//! part of the code: assignment always runs against the grid this frame's
//! refresh produced (or kept), never a stale or partial one.

use vstd::prelude::*;
use crate::assign::{affecting, assign_lights_to_clusters, capped, cluster_index};
use crate::geometry::Aabb;
use crate::graph::{DepGraph, MAIN_PASS_NODE, SHADOW_PASS_NODE, VIEW_INPUT_NODE};
use crate::grid::{CameraParams, GridCache, GridConfig};
use crate::light::{check_light_mesh_visibility, Light};
use crate::shadow::{lemma_shadow_casters_props, shadow_casters, views_match, ShadowPhase,
    ShadowScheduler};

verus! {

/// What one simulation step produced: the per-cluster light lists, derived
/// from the cluster grid that is current after this frame's refresh.
pub struct SimulationOutput {
    pub rebuilt: bool,
    pub assignment: Vec<Vec<u32>>,
}

/// Run one frame of simulation-side lighting work, in the declared order:
/// refresh the cluster grid from the camera, assign lights against it, and
/// mark entities visible to the lighting volume, additively.
///
/// Returns `None`, leaving the cache and flags unchanged, only while no
/// valid projection has ever been seen; a degenerate projection after a
/// valid one reuses the last grid.
pub fn run_simulation_step(
    cache: &mut GridCache,
    cfg: &GridConfig,
    cam: &CameraParams,
    lights: &Vec<Light>,
    max_per_cluster: usize,
    entity_bounds: &Vec<Aabb>,
    visible: &mut Vec<bool>,
) -> (r: Option<SimulationOutput>)
    requires
        cfg.wf(),
        old(cache).wf(*cfg),
        forall|i: int| 0 <= i < lights@.len() ==> (#[trigger] lights@[i]).wf(),
        lights@.len() <= u32::MAX,
        old(visible)@.len() == entity_bounds@.len(),
    ensures
        final(cache).wf(*cfg),
        match r {
            Some(out) => match final(cache).entry {
                Some(c) => {
                    &&& out.rebuilt == (cam.valid_for(*cfg) && match old(cache).entry {
                        Some(p) => p.params != *cam,
                        None => true,
                    })
                    &&& out.assignment@.len() == c.grid.cluster_count()
                    &&& forall|ix: int, iy: int, iz: int|
                        0 <= ix < c.grid.nx && 0 <= iy < c.grid.ny && 0 <= iz < c.grid.nz ==> (
                        #[trigger] out.assignment@[cluster_index(c.grid, ix, iy, iz)])@ == capped(
                            affecting(lights@, c.grid.cluster_aabb(ix, iy, iz)),
                            max_per_cluster as int,
                        )
                    &&& final(visible)@.len() == entity_bounds@.len()
                    &&& forall|e: int|
                        0 <= e < entity_bounds@.len() ==> #[trigger] final(visible)@[e] == (old(
                            visible,
                        )@[e] || entity_bounds@[e].overlaps(c.grid.view_volume()))
                },
                None => false,
            },
            None => {
                &&& *final(cache) == *old(cache)
                &&& final(cache).entry is None
                &&& !cam.valid_for(*cfg)
                &&& *final(visible) == *old(visible)
            },
        },
{
    let rebuilt = cache.refresh(cfg, cam);
    match &cache.entry {
        Some(entry) => {
            let assignment = assign_lights_to_clusters(lights, &entry.grid, max_per_cluster);
            let volume = entry.grid.view_volume_aabb();
            let mut volumes: Vec<Aabb> = Vec::new();
            volumes.push(volume);
            check_light_mesh_visibility(entity_bounds, &volumes, visible);
            proof {
                assert forall|e: int| 0 <= e < entity_bounds@.len() implies #[trigger] visible@[e]
                    == (old(visible)@[e] || entity_bounds@[e].overlaps(
                    entry.grid.view_volume(),
                )) by {
                    assert(volumes@[0] == entry.grid.view_volume());
                    if entity_bounds@[e].overlaps(entry.grid.view_volume()) {
                        assert(exists|f: int|
                            0 <= f < volumes@.len() && entity_bounds@[e].overlaps(
                                #[trigger] volumes@[f],
                            ));
                    }
                }
            }
            Some(SimulationOutput { rebuilt, assignment })
        },
        None => None,
    }
}

/// Run the whole shadow scheduling state machine for one frame: collect the
/// casters, allocate atlas regions in priority order, build the view
/// descriptors, and splice the shadow pass ahead of the main pass.
pub fn run_shadow_schedule(
    lights: &Vec<Light>,
    view_volume: &Aabb,
    atlas_capacity: u32,
    cascades: u32,
) -> (r: (ShadowScheduler, DepGraph))
    requires
        forall|i: int| 0 <= i < lights@.len() ==> (#[trigger] lights@[i]).wf(),
        lights@.len() <= u32::MAX,
        view_volume.wf(),
        1 <= cascades <= 16,
        view_volume.max.z - view_volume.min.z >= cascades,
    ensures
        r.0.phase == ShadowPhase::Scheduled,
        r.0.casters@ == shadow_casters(lights@, *view_volume),
        r.0.allocations@.len() <= r.0.casters@.len(),
        r.0.views@.len() == r.0.allocations@.len(),
        forall|k: int|
            0 <= k < r.0.views@.len() ==> views_match(
                #[trigger] r.0.views@[k],
                r.0.allocations@[k],
                lights@,
                *view_volume,
                cascades as int,
            ),
        r.1.wf(),
        r.1.edges@.contains((SHADOW_PASS_NODE, MAIN_PASS_NODE)),
        r.1.edges@.contains((VIEW_INPUT_NODE, SHADOW_PASS_NODE)),
{
    let mut scheduler = ShadowScheduler::new();
    scheduler.collect_casters(lights, view_volume);
    proof {
        lemma_shadow_casters_props(lights@, *view_volume, lights@.len() as int);
    }
    scheduler.allocate_atlas_regions(lights, atlas_capacity, cascades);
    scheduler.build_view_descriptors(lights, view_volume, cascades);
    let frame_graph = scheduler.schedule();
    (scheduler, frame_graph)
}

} // verus!
