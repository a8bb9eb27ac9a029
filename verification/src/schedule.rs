//! The per-frame work schedule: explicit typed stages with declared
//! predecessor sets, checked at graph-build time.
//!
//! Simulation-side work (cluster setup, light-to-cluster assignment, frustum
//! updates, light visibility) and render-side work (extraction, GPU buffer
//! preparation, draw queueing, phase sorting) are registered as labelled
//! units in a dependency graph. A verified topological traversal of that
//! graph is the frame's execution order; cycles or missing dependencies are
//! caught when the order is built, not at run time.

use vstd::prelude::*;
use crate::graph::{DepGraph, is_topo_order, precedes, lemma_edge_ordered};

verus! {

// Simulation-schedule labels. Transform propagation, bound calculation and
// the camera's own visibility pass are external collaborators the light
// systems order themselves after.
pub const TRANSFORM_PROPAGATE: u32 = 10;

pub const CALCULATE_BOUNDS: u32 = 11;

pub const CHECK_VISIBILITY: u32 = 12;

/// Creates cluster storage for new cameras; exclusive, so the storage exists
/// before the update runs.
pub const ADD_CLUSTERS: u32 = 13;

/// Rebuilds the cluster grid from this frame's camera projection.
pub const UPDATE_CLUSTERS: u32 = 14;

/// Assigns every active light to the clusters it can influence.
pub const ASSIGN_LIGHTS: u32 = 15;

/// Fits directional-light cascade frusta to the camera view.
pub const UPDATE_DIRECTIONAL_FRUSTA: u32 = 16;

/// Builds point-light cube-face frusta.
pub const UPDATE_POINT_FRUSTA: u32 = 17;

/// Marks entities visible to each shadow-casting light; additive over the
/// camera pass's own flags.
pub const CHECK_LIGHT_VISIBILITY: u32 = 18;

// Render-schedule labels.
pub const EXTRACT_CLUSTERS: u32 = 30;

pub const EXTRACT_LIGHTS: u32 = 31;

/// Contributes the shadow views; exclusive, so its views exist before
/// general view preparation consumes the view list.
pub const PREPARE_LIGHTS: u32 = 32;

/// Packs cluster index lists into GPU-visible buffers; exclusive.
pub const PREPARE_CLUSTERS: u32 = 33;

/// Generic per-view preparation, consuming the full view list.
pub const PREPARE_VIEWS: u32 = 34;

/// Enqueues depth-only draws for every shadow view.
pub const QUEUE_SHADOWS: u32 = 35;

/// Sorts each render phase by its draw key.
pub const PHASE_SORT: u32 = 36;

/// A unit of work that must complete, with its deferred mutations applied,
/// before the next unit starts. In a sequential frame driver this is a plain
/// phase boundary.
pub open spec fn is_exclusive(label: u32) -> bool {
    label == ADD_CLUSTERS || label == PREPARE_LIGHTS || label == PREPARE_CLUSTERS
}

/// Executable form of the exclusivity table.
pub fn exclusive_label(label: u32) -> (r: bool)
    ensures
        r == is_exclusive(label),
{
    label == ADD_CLUSTERS || label == PREPARE_LIGHTS || label == PREPARE_CLUSTERS
}

/// The simulation-side schedule: cluster setup before cluster update, both
/// after transform propagation; assignment after the grid exists; frustum
/// updates after transforms; light visibility last, after the camera's own
/// visibility pass so its additive flags are not clobbered.
pub fn build_simulation_schedule() -> (g: DepGraph)
    ensures
        g.wf(),
        g.edges@.contains((ADD_CLUSTERS, UPDATE_CLUSTERS)),
        g.edges@.contains((TRANSFORM_PROPAGATE, UPDATE_CLUSTERS)),
        g.edges@.contains((TRANSFORM_PROPAGATE, ASSIGN_LIGHTS)),
        g.edges@.contains((UPDATE_CLUSTERS, ASSIGN_LIGHTS)),
        g.edges@.contains((TRANSFORM_PROPAGATE, UPDATE_DIRECTIONAL_FRUSTA)),
        g.edges@.contains((TRANSFORM_PROPAGATE, UPDATE_POINT_FRUSTA)),
        g.edges@.contains((ASSIGN_LIGHTS, UPDATE_POINT_FRUSTA)),
        g.edges@.contains((TRANSFORM_PROPAGATE, CHECK_LIGHT_VISIBILITY)),
        g.edges@.contains((CALCULATE_BOUNDS, CHECK_LIGHT_VISIBILITY)),
        g.edges@.contains((UPDATE_DIRECTIONAL_FRUSTA, CHECK_LIGHT_VISIBILITY)),
        g.edges@.contains((UPDATE_POINT_FRUSTA, CHECK_LIGHT_VISIBILITY)),
        g.edges@.contains((CHECK_VISIBILITY, CHECK_LIGHT_VISIBILITY)),
{
    let mut g = DepGraph::new();
    g.add_node(TRANSFORM_PROPAGATE);
    g.add_node(CALCULATE_BOUNDS);
    g.add_node(CHECK_VISIBILITY);
    g.add_node(ADD_CLUSTERS);
    g.add_node(UPDATE_CLUSTERS);
    g.add_node(ASSIGN_LIGHTS);
    g.add_node(UPDATE_DIRECTIONAL_FRUSTA);
    g.add_node(UPDATE_POINT_FRUSTA);
    g.add_node(CHECK_LIGHT_VISIBILITY);
    proof {
        assert(g.nodes@[0] == TRANSFORM_PROPAGATE);
        assert(g.nodes@[1] == CALCULATE_BOUNDS);
        assert(g.nodes@[2] == CHECK_VISIBILITY);
        assert(g.nodes@[3] == ADD_CLUSTERS);
        assert(g.nodes@[4] == UPDATE_CLUSTERS);
        assert(g.nodes@[5] == ASSIGN_LIGHTS);
        assert(g.nodes@[6] == UPDATE_DIRECTIONAL_FRUSTA);
        assert(g.nodes@[7] == UPDATE_POINT_FRUSTA);
        assert(g.nodes@[8] == CHECK_LIGHT_VISIBILITY);
        assert(g.nodes@.contains(TRANSFORM_PROPAGATE));
        assert(g.nodes@.contains(CALCULATE_BOUNDS));
        assert(g.nodes@.contains(CHECK_VISIBILITY));
        assert(g.nodes@.contains(ADD_CLUSTERS));
        assert(g.nodes@.contains(UPDATE_CLUSTERS));
        assert(g.nodes@.contains(ASSIGN_LIGHTS));
        assert(g.nodes@.contains(UPDATE_DIRECTIONAL_FRUSTA));
        assert(g.nodes@.contains(UPDATE_POINT_FRUSTA));
        assert(g.nodes@.contains(CHECK_LIGHT_VISIBILITY));
    }
    g.add_edge(ADD_CLUSTERS, UPDATE_CLUSTERS);
    g.add_edge(TRANSFORM_PROPAGATE, UPDATE_CLUSTERS);
    g.add_edge(TRANSFORM_PROPAGATE, ASSIGN_LIGHTS);
    g.add_edge(UPDATE_CLUSTERS, ASSIGN_LIGHTS);
    g.add_edge(TRANSFORM_PROPAGATE, UPDATE_DIRECTIONAL_FRUSTA);
    g.add_edge(TRANSFORM_PROPAGATE, UPDATE_POINT_FRUSTA);
    g.add_edge(ASSIGN_LIGHTS, UPDATE_POINT_FRUSTA);
    g.add_edge(TRANSFORM_PROPAGATE, CHECK_LIGHT_VISIBILITY);
    g.add_edge(CALCULATE_BOUNDS, CHECK_LIGHT_VISIBILITY);
    g.add_edge(UPDATE_DIRECTIONAL_FRUSTA, CHECK_LIGHT_VISIBILITY);
    g.add_edge(UPDATE_POINT_FRUSTA, CHECK_LIGHT_VISIBILITY);
    g.add_edge(CHECK_VISIBILITY, CHECK_LIGHT_VISIBILITY);
    proof {
        assert(g.edges@[0] == (ADD_CLUSTERS, UPDATE_CLUSTERS));
        assert(g.edges@[1] == (TRANSFORM_PROPAGATE, UPDATE_CLUSTERS));
        assert(g.edges@[2] == (TRANSFORM_PROPAGATE, ASSIGN_LIGHTS));
        assert(g.edges@[3] == (UPDATE_CLUSTERS, ASSIGN_LIGHTS));
        assert(g.edges@[4] == (TRANSFORM_PROPAGATE, UPDATE_DIRECTIONAL_FRUSTA));
        assert(g.edges@[5] == (TRANSFORM_PROPAGATE, UPDATE_POINT_FRUSTA));
        assert(g.edges@[6] == (ASSIGN_LIGHTS, UPDATE_POINT_FRUSTA));
        assert(g.edges@[7] == (TRANSFORM_PROPAGATE, CHECK_LIGHT_VISIBILITY));
        assert(g.edges@[8] == (CALCULATE_BOUNDS, CHECK_LIGHT_VISIBILITY));
        assert(g.edges@[9] == (UPDATE_DIRECTIONAL_FRUSTA, CHECK_LIGHT_VISIBILITY));
        assert(g.edges@[10] == (UPDATE_POINT_FRUSTA, CHECK_LIGHT_VISIBILITY));
        assert(g.edges@[11] == (CHECK_VISIBILITY, CHECK_LIGHT_VISIBILITY));
    }
    g
}

/// The render-side schedule: extraction before buffer preparation, shadow
/// view preparation before general view preparation, queueing after the
/// views exist, phase sorting last.
pub fn build_render_schedule() -> (g: DepGraph)
    ensures
        g.wf(),
        g.edges@.contains((EXTRACT_CLUSTERS, PREPARE_LIGHTS)),
        g.edges@.contains((EXTRACT_LIGHTS, PREPARE_LIGHTS)),
        g.edges@.contains((PREPARE_LIGHTS, PREPARE_CLUSTERS)),
        g.edges@.contains((PREPARE_LIGHTS, PREPARE_VIEWS)),
        g.edges@.contains((PREPARE_CLUSTERS, PREPARE_VIEWS)),
        g.edges@.contains((PREPARE_VIEWS, QUEUE_SHADOWS)),
        g.edges@.contains((QUEUE_SHADOWS, PHASE_SORT)),
{
    let mut g = DepGraph::new();
    g.add_node(EXTRACT_CLUSTERS);
    g.add_node(EXTRACT_LIGHTS);
    g.add_node(PREPARE_LIGHTS);
    g.add_node(PREPARE_CLUSTERS);
    g.add_node(PREPARE_VIEWS);
    g.add_node(QUEUE_SHADOWS);
    g.add_node(PHASE_SORT);
    proof {
        assert(g.nodes@[0] == EXTRACT_CLUSTERS);
        assert(g.nodes@[1] == EXTRACT_LIGHTS);
        assert(g.nodes@[2] == PREPARE_LIGHTS);
        assert(g.nodes@[3] == PREPARE_CLUSTERS);
        assert(g.nodes@[4] == PREPARE_VIEWS);
        assert(g.nodes@[5] == QUEUE_SHADOWS);
        assert(g.nodes@[6] == PHASE_SORT);
        assert(g.nodes@.contains(EXTRACT_CLUSTERS));
        assert(g.nodes@.contains(EXTRACT_LIGHTS));
        assert(g.nodes@.contains(PREPARE_LIGHTS));
        assert(g.nodes@.contains(PREPARE_CLUSTERS));
        assert(g.nodes@.contains(PREPARE_VIEWS));
        assert(g.nodes@.contains(QUEUE_SHADOWS));
        assert(g.nodes@.contains(PHASE_SORT));
    }
    g.add_edge(EXTRACT_CLUSTERS, PREPARE_LIGHTS);
    g.add_edge(EXTRACT_LIGHTS, PREPARE_LIGHTS);
    g.add_edge(PREPARE_LIGHTS, PREPARE_CLUSTERS);
    g.add_edge(PREPARE_LIGHTS, PREPARE_VIEWS);
    g.add_edge(PREPARE_CLUSTERS, PREPARE_VIEWS);
    g.add_edge(PREPARE_VIEWS, QUEUE_SHADOWS);
    g.add_edge(QUEUE_SHADOWS, PHASE_SORT);
    proof {
        assert(g.edges@[0] == (EXTRACT_CLUSTERS, PREPARE_LIGHTS));
        assert(g.edges@[1] == (EXTRACT_LIGHTS, PREPARE_LIGHTS));
        assert(g.edges@[2] == (PREPARE_LIGHTS, PREPARE_CLUSTERS));
        assert(g.edges@[3] == (PREPARE_LIGHTS, PREPARE_VIEWS));
        assert(g.edges@[4] == (PREPARE_CLUSTERS, PREPARE_VIEWS));
        assert(g.edges@[5] == (PREPARE_VIEWS, QUEUE_SHADOWS));
        assert(g.edges@[6] == (QUEUE_SHADOWS, PHASE_SORT));
    }
    g
}

/// Every execution order of the simulation schedule builds the cluster grid
/// before lights are assigned to clusters, and checks light visibility only
/// after frusta are up to date and after the camera's own visibility pass.
pub proof fn lemma_simulation_order(g: DepGraph, o: Seq<u32>)
    requires
        is_topo_order(g, o),
        g.edges@.contains((ADD_CLUSTERS, UPDATE_CLUSTERS)),
        g.edges@.contains((UPDATE_CLUSTERS, ASSIGN_LIGHTS)),
        g.edges@.contains((UPDATE_POINT_FRUSTA, CHECK_LIGHT_VISIBILITY)),
        g.edges@.contains((UPDATE_DIRECTIONAL_FRUSTA, CHECK_LIGHT_VISIBILITY)),
        g.edges@.contains((CHECK_VISIBILITY, CHECK_LIGHT_VISIBILITY)),
    ensures
        precedes(o, ADD_CLUSTERS, UPDATE_CLUSTERS),
        precedes(o, UPDATE_CLUSTERS, ASSIGN_LIGHTS),
        precedes(o, UPDATE_POINT_FRUSTA, CHECK_LIGHT_VISIBILITY),
        precedes(o, UPDATE_DIRECTIONAL_FRUSTA, CHECK_LIGHT_VISIBILITY),
        precedes(o, CHECK_VISIBILITY, CHECK_LIGHT_VISIBILITY),
{
    lemma_edge_ordered(g, o, ADD_CLUSTERS, UPDATE_CLUSTERS);
    lemma_edge_ordered(g, o, UPDATE_CLUSTERS, ASSIGN_LIGHTS);
    lemma_edge_ordered(g, o, UPDATE_POINT_FRUSTA, CHECK_LIGHT_VISIBILITY);
    lemma_edge_ordered(g, o, UPDATE_DIRECTIONAL_FRUSTA, CHECK_LIGHT_VISIBILITY);
    lemma_edge_ordered(g, o, CHECK_VISIBILITY, CHECK_LIGHT_VISIBILITY);
}

/// Every execution order of the render schedule extracts before preparing,
/// prepares the shadow views before general view preparation, and queues
/// draws before the phases are sorted.
pub proof fn lemma_render_order(g: DepGraph, o: Seq<u32>)
    requires
        is_topo_order(g, o),
        g.edges@.contains((EXTRACT_LIGHTS, PREPARE_LIGHTS)),
        g.edges@.contains((PREPARE_LIGHTS, PREPARE_VIEWS)),
        g.edges@.contains((PREPARE_CLUSTERS, PREPARE_VIEWS)),
        g.edges@.contains((PREPARE_VIEWS, QUEUE_SHADOWS)),
        g.edges@.contains((QUEUE_SHADOWS, PHASE_SORT)),
    ensures
        precedes(o, EXTRACT_LIGHTS, PREPARE_LIGHTS),
        precedes(o, PREPARE_LIGHTS, PREPARE_VIEWS),
        precedes(o, PREPARE_CLUSTERS, PREPARE_VIEWS),
        precedes(o, PREPARE_VIEWS, QUEUE_SHADOWS),
        precedes(o, QUEUE_SHADOWS, PHASE_SORT),
{
    lemma_edge_ordered(g, o, EXTRACT_LIGHTS, PREPARE_LIGHTS);
    lemma_edge_ordered(g, o, PREPARE_LIGHTS, PREPARE_VIEWS);
    lemma_edge_ordered(g, o, PREPARE_CLUSTERS, PREPARE_VIEWS);
    lemma_edge_ordered(g, o, PREPARE_VIEWS, QUEUE_SHADOWS);
    lemma_edge_ordered(g, o, QUEUE_SHADOWS, PHASE_SORT);
}

} // verus!
