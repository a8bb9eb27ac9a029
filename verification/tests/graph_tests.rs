use light_clusters::graph::{build_frame_graph, contains_node, topological_order, DepGraph,
    MAIN_PASS_NODE, SHADOW_PASS_NODE, VIEW_INPUT_NODE};
use light_clusters::schedule::{build_render_schedule, build_simulation_schedule, exclusive_label,
    ADD_CLUSTERS, ASSIGN_LIGHTS, CHECK_LIGHT_VISIBILITY, CHECK_VISIBILITY, PHASE_SORT,
    PREPARE_CLUSTERS, PREPARE_LIGHTS, PREPARE_VIEWS, QUEUE_SHADOWS, UPDATE_CLUSTERS};

fn position(order: &[u32], node: u32) -> usize {
    order.iter().position(|&n| n == node).expect("node must be in the order")
}

#[test]
fn frame_graph_nodes_and_edges() {
    let g = build_frame_graph();
    assert_eq!(g.nodes, vec![VIEW_INPUT_NODE, SHADOW_PASS_NODE, MAIN_PASS_NODE]);
    assert!(g.edges.contains(&(SHADOW_PASS_NODE, MAIN_PASS_NODE)));
    assert!(g.edges.contains(&(VIEW_INPUT_NODE, SHADOW_PASS_NODE)));
    assert!(contains_node(&g.nodes, SHADOW_PASS_NODE));
}

#[test]
fn shadow_pass_precedes_main_pass_in_topological_order() {
    let g = build_frame_graph();
    let order = topological_order(&g).expect("the frame graph is acyclic");
    assert_eq!(order.len(), 3);
    assert!(position(&order, SHADOW_PASS_NODE) < position(&order, MAIN_PASS_NODE));
    assert!(position(&order, VIEW_INPUT_NODE) < position(&order, SHADOW_PASS_NODE));
}

#[test]
fn cyclic_graph_is_rejected() {
    let mut g = DepGraph::new();
    g.add_node(1);
    g.add_node(2);
    g.add_edge(1, 2);
    g.add_edge(2, 1);
    assert!(topological_order(&g).is_none());
}

#[test]
fn simulation_schedule_orders_cluster_work() {
    let g = build_simulation_schedule();
    let order = topological_order(&g).expect("the simulation schedule is acyclic");
    assert!(position(&order, ADD_CLUSTERS) < position(&order, UPDATE_CLUSTERS));
    assert!(position(&order, UPDATE_CLUSTERS) < position(&order, ASSIGN_LIGHTS));
    assert!(position(&order, CHECK_VISIBILITY) < position(&order, CHECK_LIGHT_VISIBILITY));
}

#[test]
fn render_schedule_prepares_shadow_views_before_general_views() {
    let g = build_render_schedule();
    let order = topological_order(&g).expect("the render schedule is acyclic");
    assert!(position(&order, PREPARE_LIGHTS) < position(&order, PREPARE_VIEWS));
    assert!(position(&order, PREPARE_CLUSTERS) < position(&order, PREPARE_VIEWS));
    assert!(position(&order, PREPARE_VIEWS) < position(&order, QUEUE_SHADOWS));
    assert!(position(&order, QUEUE_SHADOWS) < position(&order, PHASE_SORT));
}

#[test]
fn exclusive_units_are_marked() {
    assert!(exclusive_label(ADD_CLUSTERS));
    assert!(exclusive_label(PREPARE_LIGHTS));
    assert!(exclusive_label(PREPARE_CLUSTERS));
    assert!(!exclusive_label(QUEUE_SHADOWS));
}
