//! The frame dependency graph: named nodes with explicit ordering edges,
//! checked at build time, and a verified topological traversal.
//!
//! The shadow-pass node is spliced into the frame's draw graph with a hard
//! edge ahead of the main color pass, and with an edge from the view input so
//! the pass knows which camera's lights to shadow. Any topological traversal
//! of such a graph runs the shadow pass, and makes its output visible, before
//! the main pass samples it.

use vstd::prelude::*;

verus! {

/// The node that supplies the active camera/view to the draw graph.
pub const VIEW_INPUT_NODE: u32 = 1;

/// The depth-only shadow rendering pass.
pub const SHADOW_PASS_NODE: u32 = 2;

/// The main color pass, which samples the shadow maps.
pub const MAIN_PASS_NODE: u32 = 3;

/// A dependency graph over named units of work: `(a, b)` in `edges` means
/// `a` must complete before `b` starts.
#[derive(Clone, Debug, PartialEq)]
pub struct DepGraph {
    pub nodes: Vec<u32>,
    pub edges: Vec<(u32, u32)>,
}

impl DepGraph {
    /// Nodes are distinct and every edge joins registered nodes.
    pub open spec fn wf(self) -> bool {
        &&& self.nodes@.no_duplicates()
        &&& forall|k: int|
            0 <= k < self.edges@.len() ==> self.nodes@.contains((#[trigger] self.edges@[k]).0)
                && self.nodes@.contains(self.edges@[k].1)
    }

    pub fn new() -> (g: DepGraph)
        ensures
            g.wf(),
            g.nodes@ == Seq::<u32>::empty(),
            g.edges@ == Seq::<(u32, u32)>::empty(),
    {
        DepGraph { nodes: Vec::new(), edges: Vec::new() }
    }

    /// Register a unit of work under a fresh label.
    pub fn add_node(&mut self, n: u32)
        requires
            old(self).wf(),
            !old(self).nodes@.contains(n),
        ensures
            final(self).wf(),
            final(self).nodes@ == old(self).nodes@.push(n),
            final(self).edges@ == old(self).edges@,
    {
        proof {
            let nodes2 = self.nodes@.push(n);
            assert forall|i: int, j: int|
                0 <= i < nodes2.len() && 0 <= j < nodes2.len() && i != j implies nodes2[i]
                != nodes2[j] by {
                if i < nodes2.len() - 1 && j < nodes2.len() - 1 {
                    assert(nodes2[i] == self.nodes@[i] && nodes2[j] == self.nodes@[j]);
                } else if i < nodes2.len() - 1 {
                    assert(!self.nodes@.contains(nodes2[j]) && self.nodes@[i] == nodes2[i]);
                } else {
                    assert(!self.nodes@.contains(nodes2[i]) && self.nodes@[j] == nodes2[j]);
                }
            }
            assert forall|k: int| 0 <= k < self.edges@.len() implies nodes2.contains(
                (#[trigger] self.edges@[k]).0,
            ) && nodes2.contains(self.edges@[k].1) by {
                let a = self.edges@[k].0;
                let b = self.edges@[k].1;
                let ka = choose|ka: int| 0 <= ka < self.nodes@.len() && self.nodes@[ka] == a;
                let kb = choose|kb: int| 0 <= kb < self.nodes@.len() && self.nodes@[kb] == b;
                assert(nodes2[ka] == a && nodes2[kb] == b);
            }
        }
        self.nodes.push(n);
    }

    /// Declare that `a` must complete before `b` starts.
    pub fn add_edge(&mut self, a: u32, b: u32)
        requires
            old(self).wf(),
            old(self).nodes@.contains(a),
            old(self).nodes@.contains(b),
        ensures
            final(self).wf(),
            final(self).nodes@ == old(self).nodes@,
            final(self).edges@ == old(self).edges@.push((a, b)),
    {
        self.edges.push((a, b));
    }
}

/// `a` appears strictly before `b` in the order.
pub open spec fn precedes(o: Seq<u32>, a: u32, b: u32) -> bool {
    exists|i: int, j: int| #![trigger o[i], o[j]] 0 <= i < j < o.len() && o[i] == a && o[j] == b
}

/// The order runs each registered unit exactly once and respects every edge.
pub open spec fn is_topo_order(g: DepGraph, o: Seq<u32>) -> bool {
    &&& o.no_duplicates()
    &&& forall|n: u32| #[trigger] o.contains(n) ==> g.nodes@.contains(n)
    &&& forall|n: u32| #[trigger] g.nodes@.contains(n) ==> o.contains(n)
    &&& forall|k: int|
        0 <= k < g.edges@.len() ==> precedes(o, (#[trigger] g.edges@[k]).0, g.edges@[k].1)
}

/// Linear scan for membership.
pub fn contains_node(v: &Vec<u32>, x: u32) -> (r: bool)
    ensures
        r == v@.contains(x),
{
    let mut i: usize = 0;
    while i < v.len()
        invariant
            i <= v@.len(),
            forall|k: int| 0 <= k < i ==> v@[k] != x,
        decreases v@.len() - i,
    {
        if v[i] == x {
            return true;
        }
        i = i + 1;
    }
    false
}

/// Have all declared predecessors of `c` already been ordered?
fn preds_ordered(g: &DepGraph, order: &Vec<u32>, c: u32) -> (r: bool)
    ensures
        r == (forall|k: int|
            0 <= k < g.edges@.len() && (#[trigger] g.edges@[k]).1 == c ==> order@.contains(
                g.edges@[k].0,
            )),
{
    let mut k: usize = 0;
    while k < g.edges.len()
        invariant
            k <= g.edges@.len(),
            forall|j: int|
                0 <= j < k && (#[trigger] g.edges@[j]).1 == c ==> order@.contains(g.edges@[j].0),
        decreases g.edges@.len() - k,
    {
        let (from, to) = g.edges[k];
        if to == c {
            if !contains_node(order, from) {
                return false;
            }
        }
        k = k + 1;
    }
    true
}

/// The first `k` units of the candidate order `o` have all been placed.
pub open spec fn prefix_ordered(placed: Seq<u32>, o: Seq<u32>, k: int) -> bool {
    forall|j: int| 0 <= j < k && j < o.len() ==> placed.contains(#[trigger] o[j])
}

/// A topological traversal of the graph: every unit after all its declared
/// predecessors. Returns `None` exactly when the declared dependencies admit
/// no order at all (a cycle): failure is never spurious.
pub fn topological_order(g: &DepGraph) -> (r: Option<Vec<u32>>)
    requires
        g.wf(),
    ensures
        match r {
            Some(o) => is_topo_order(*g, o@),
            None => forall|o: Seq<u32>| !is_topo_order(*g, o),
        },
{
    broadcast use vstd::seq_lib::lemma_seq_contains_after_push;

    let n = g.nodes.len();
    let mut order: Vec<u32> = Vec::new();
    let mut round: usize = 0;
    while round < n
        invariant
            g.wf(),
            n == g.nodes@.len(),
            order@.no_duplicates(),
            forall|x: u32| #[trigger] order@.contains(x) ==> g.nodes@.contains(x),
            forall|k: int|
                0 <= k < g.edges@.len() && order@.contains((#[trigger] g.edges@[k]).1) ==> precedes(
                    order@,
                    g.edges@[k].0,
                    g.edges@[k].1,
                ),
            forall|o: Seq<u32>|
                #[trigger] is_topo_order(*g, o) ==> prefix_ordered(order@, o, round as int),
        decreases n - round,
    {
        let mut i: usize = 0;
        while i < n
            invariant
                g.wf(),
                n == g.nodes@.len(),
                round < n,
                i <= n,
                order@.no_duplicates(),
                forall|x: u32| #[trigger] order@.contains(x) ==> g.nodes@.contains(x),
                forall|k: int|
                    0 <= k < g.edges@.len() && order@.contains((#[trigger] g.edges@[k]).1)
                        ==> precedes(order@, g.edges@[k].0, g.edges@[k].1),
                forall|o: Seq<u32>|
                    #[trigger] is_topo_order(*g, o) ==> prefix_ordered(order@, o, round as int),
                forall|o: Seq<u32>|
                    #[trigger] is_topo_order(*g, o) && (round as int) < o.len() && (exists|idx: int|
                        0 <= idx < i && g.nodes@[idx] == o[round as int]) ==> order@.contains(
                        o[round as int],
                    ),
            decreases n - i,
        {
            let c = g.nodes[i];
            let already = contains_node(&order, c);
            let preds_ok = preds_ordered(g, &order, c);
            let ghost o0 = order@;
            if !already && preds_ok {
                order.push(c);
                proof {
                    assert forall|x: u32| #[trigger] order@.contains(x) implies g.nodes@.contains(
                        x,
                    ) by {
                        if !o0.contains(x) {
                            assert(x == c);
                            assert(g.nodes@[i as int] == c);
                        }
                    }
                    assert forall|k: int|
                        0 <= k < g.edges@.len() && order@.contains(
                            (#[trigger] g.edges@[k]).1,
                        ) implies precedes(order@, g.edges@[k].0, g.edges@[k].1) by {
                        let e = g.edges@[k];
                        if o0.contains(e.1) {
                            let (pi, pj) = choose|pi: int, pj: int|
                                #![trigger o0[pi], o0[pj]]
                                0 <= pi < pj < o0.len() && o0[pi] == e.0 && o0[pj] == e.1;
                            assert(order@[pi] == e.0 && order@[pj] == e.1);
                        } else {
                            assert(order@[order@.len() - 1] == c);
                            assert(e.1 == c);
                            assert(o0.contains(e.0));
                            let pi = choose|pi: int| 0 <= pi < o0.len() && o0[pi] == e.0;
                            assert(order@[pi] == e.0);
                            assert(precedes(order@, e.0, e.1));
                        }
                    }
                }
            }
            proof {
                broadcast use vstd::seq_lib::lemma_seq_contains_after_push;

                assert(order@ == o0 || order@ == o0.push(c));
                assert forall|o: Seq<u32>|
                    #[trigger] is_topo_order(*g, o) && (round as int) < o.len() && (exists|idx: int|
                        0 <= idx < i + 1 && g.nodes@[idx] == o[round as int]) implies order@
                    .contains(o[round as int]) by {
                    let ri = round as int;
                    let idx = choose|idx: int| 0 <= idx < i + 1 && g.nodes@[idx] == o[ri];
                    if idx < i {
                        assert(exists|idx2: int| 0 <= idx2 < i && g.nodes@[idx2] == o[ri]);
                        assert(o0.contains(o[ri]));
                    } else {
                        // the scan reached the candidate this iteration
                        assert(c == o[ri]);
                        if already {
                            assert(o0.contains(o[ri]));
                        } else if preds_ok {
                            assert(order@ == o0.push(c));
                            assert(order@[order@.len() - 1] == o[ri]);
                        } else {
                            // impossible: in a topological order every
                            // predecessor of o[ri] sits strictly earlier,
                            // and those were all placed in earlier rounds
                            let k = choose|k: int|
                                0 <= k < g.edges@.len() && (#[trigger] g.edges@[k]).1 == c && !o0
                                    .contains(g.edges@[k].0);
                            let e = g.edges@[k];
                            assert(precedes(o, e.0, e.1));
                            let (pa, pb) = choose|pa: int, pb: int|
                                #![trigger o[pa], o[pb]]
                                0 <= pa < pb < o.len() && o[pa] == e.0 && o[pb] == e.1;
                            assert(o[pb] == o[ri]);
                            assert(pb == ri);
                            assert(prefix_ordered(o0, o, ri));
                            assert(o0.contains(o[pa]));
                            assert(false);
                        }
                    }
                }
                assert forall|o: Seq<u32>| #[trigger] is_topo_order(*g, o) implies prefix_ordered(
                    order@,
                    o,
                    round as int,
                ) by {
                    assert(prefix_ordered(o0, o, round as int));
                    assert forall|j: int| 0 <= j < round && j < o.len() implies order@.contains(
                        #[trigger] o[j],
                    ) by {
                        assert(o0.contains(o[j]));
                        if order@ != o0 {
                            assert(order@ == o0.push(c));
                        }
                    }
                }
            }
            i = i + 1;
        }
        proof {
            assert forall|o: Seq<u32>| #[trigger] is_topo_order(*g, o) implies prefix_ordered(
                order@,
                o,
                round + 1 as int,
            ) by {
                assert forall|j: int| 0 <= j < round + 1 && j < o.len() implies order@.contains(
                    #[trigger] o[j],
                ) by {
                    if j == round {
                        assert(o.contains(o[j]));
                        assert(g.nodes@.contains(o[j]));
                        let idx = choose|idx: int|
                            0 <= idx < g.nodes@.len() && g.nodes@[idx] == o[j];
                        assert(exists|idx2: int| 0 <= idx2 < n && g.nodes@[idx2] == o[j]);
                    }
                }
            }
        }
        round = round + 1;
    }
    let mut complete = true;
    let mut i: usize = 0;
    while i < n
        invariant
            n == g.nodes@.len(),
            i <= n,
            complete == (forall|k: int| 0 <= k < i ==> order@.contains(#[trigger] g.nodes@[k])),
        decreases n - i,
    {
        if !contains_node(&order, g.nodes[i]) {
            complete = false;
        }
        i = i + 1;
    }
    if complete {
        proof {
            assert forall|x: u32| #[trigger] g.nodes@.contains(x) implies order@.contains(x) by {
                let k = choose|k: int| 0 <= k < g.nodes@.len() && g.nodes@[k] == x;
                assert(order@.contains(g.nodes@[k]));
            }
            assert forall|k: int|
                0 <= k < g.edges@.len() implies precedes(
                order@,
                (#[trigger] g.edges@[k]).0,
                g.edges@[k].1,
            ) by {
                assert(g.nodes@.contains(g.edges@[k].1));
            }
        }
        Some(order)
    } else {
        proof {
            broadcast use vstd::set::group_set_axioms;
            broadcast use vstd::seq_lib::seq_to_set_is_finite;

            assert(exists|k: int| 0 <= k < n && !order@.contains(#[trigger] g.nodes@[k]));
            let bad = choose|k: int| 0 <= k < n && !order@.contains(#[trigger] g.nodes@[k]);
            assert forall|o: Seq<u32>| is_topo_order(*g, o) implies false by {
                // a topological order lists every node, all were placed
                // within n rounds, yet some node was never placed
                o.unique_seq_to_set();
                g.nodes@.unique_seq_to_set();
                assert(o.to_set().subset_of(g.nodes@.to_set()));
                vstd::set_lib::lemma_len_subset(o.to_set(), g.nodes@.to_set());
                assert(o.len() <= n);
                let x = g.nodes@[bad];
                assert(g.nodes@.contains(x));
                assert(o.contains(x));
                let jx = choose|jx: int| 0 <= jx < o.len() && o[jx] == x;
                assert(prefix_ordered(order@, o, n as int));
                assert(order@.contains(o[jx]));
            }
        }
        None
    }
}

/// An order cannot place two distinct labels both before each other./// An order cannot place two distinct labels both before each other.
pub proof fn lemma_precedes_antisym(o: Seq<u32>, a: u32, b: u32)
    requires
        o.no_duplicates(),
        precedes(o, a, b),
        a != b,
    ensures
        !precedes(o, b, a),
{
    if precedes(o, b, a) {
        let (i1, j1) = choose|i1: int, j1: int|
            #![trigger o[i1], o[j1]]
            0 <= i1 < j1 < o.len() && o[i1] == a && o[j1] == b;
        let (i2, j2) = choose|i2: int, j2: int|
            #![trigger o[i2], o[j2]]
            0 <= i2 < j2 < o.len() && o[i2] == b && o[j2] == a;
        assert(i1 == j2);
        assert(i2 == j1);
    }
}

/// Build the frame's draw graph: the view input feeds both passes, and the
/// shadow pass carries a hard ordering edge into the main pass.
pub fn build_frame_graph() -> (g: DepGraph)
    ensures
        g.wf(),
        g.nodes@ == seq![VIEW_INPUT_NODE, SHADOW_PASS_NODE, MAIN_PASS_NODE],
        g.edges@.contains((SHADOW_PASS_NODE, MAIN_PASS_NODE)),
        g.edges@.contains((VIEW_INPUT_NODE, SHADOW_PASS_NODE)),
        g.edges@.contains((VIEW_INPUT_NODE, MAIN_PASS_NODE)),
{
    let mut g = DepGraph::new();
    g.add_node(VIEW_INPUT_NODE);
    g.add_node(SHADOW_PASS_NODE);
    g.add_node(MAIN_PASS_NODE);
    proof {
        assert(g.nodes@[0] == VIEW_INPUT_NODE);
        assert(g.nodes@[1] == SHADOW_PASS_NODE);
        assert(g.nodes@[2] == MAIN_PASS_NODE);
        assert(g.nodes@.contains(VIEW_INPUT_NODE));
        assert(g.nodes@.contains(SHADOW_PASS_NODE));
        assert(g.nodes@.contains(MAIN_PASS_NODE));
    }
    g.add_edge(VIEW_INPUT_NODE, SHADOW_PASS_NODE);
    g.add_edge(VIEW_INPUT_NODE, MAIN_PASS_NODE);
    g.add_edge(SHADOW_PASS_NODE, MAIN_PASS_NODE);
    proof {
        assert(g.edges@[2] == (SHADOW_PASS_NODE, MAIN_PASS_NODE));
        assert(g.edges@[0] == (VIEW_INPUT_NODE, SHADOW_PASS_NODE));
        assert(g.edges@[1] == (VIEW_INPUT_NODE, MAIN_PASS_NODE));
        assert(g.nodes@ =~= seq![VIEW_INPUT_NODE, SHADOW_PASS_NODE, MAIN_PASS_NODE]);
    }
    g
}

/// A declared edge is honored by every topological traversal.
pub proof fn lemma_edge_ordered(g: DepGraph, o: Seq<u32>, a: u32, b: u32)
    requires
        is_topo_order(g, o),
        g.edges@.contains((a, b)),
    ensures
        precedes(o, a, b),
{
    let k = choose|k: int| 0 <= k < g.edges@.len() && g.edges@[k] == (a, b);
    assert(precedes(o, (g.edges@[k]).0, g.edges@[k].1));
}

/// In every topological traversal of a graph that carries the
/// shadow-before-main edge, the shadow pass runs strictly before the main
/// pass, and never the other way around: shadows are written before they are
/// sampled.
pub proof fn lemma_shadow_before_main(g: DepGraph, o: Seq<u32>)
    requires
        is_topo_order(g, o),
        g.edges@.contains((SHADOW_PASS_NODE, MAIN_PASS_NODE)),
    ensures
        precedes(o, SHADOW_PASS_NODE, MAIN_PASS_NODE),
        !precedes(o, MAIN_PASS_NODE, SHADOW_PASS_NODE),
{
    lemma_edge_ordered(g, o, SHADOW_PASS_NODE, MAIN_PASS_NODE);
    lemma_precedes_antisym(o, SHADOW_PASS_NODE, MAIN_PASS_NODE);
}

} // verus!
