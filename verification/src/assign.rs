//! Light-to-cluster assignment engine.
//!
//! For every cluster of the grid, the engine collects the indices of the
//! active lights whose influence volume intersects the cluster's sub-frustum,
//! in light iteration order (the stable tie-break for GPU binding limits),
//! truncated to the configured per-cluster capacity. Truncation is a
//! recoverable degradation local to one cluster: a dropped light keeps
//! lighting the rest of the scene.

use vstd::prelude::*;
use vstd::arithmetic::div_mod::lemma_fundamental_div_mod_converse;
use crate::geometry::Aabb;
use crate::grid::Grid;
use crate::light::Light;

verus! {

/// The indices of the lights among the first `n` that affect the box, in
/// light order.
pub open spec fn affecting_upto(lights: Seq<Light>, a: Aabb, n: int) -> Seq<u32>
    decreases n,
{
    if n <= 0 {
        Seq::empty()
    } else if lights[n - 1].affects(a) {
        affecting_upto(lights, a, n - 1).push((n - 1) as u32)
    } else {
        affecting_upto(lights, a, n - 1)
    }
}

/// The indices of all lights that affect the box, in light order.
pub open spec fn affecting(lights: Seq<Light>, a: Aabb) -> Seq<u32> {
    affecting_upto(lights, a, lights.len() as int)
}

/// A sequence truncated to at most `max` elements, keeping the front.
pub open spec fn capped(s: Seq<u32>, max: int) -> Seq<u32> {
    if s.len() <= max {
        s
    } else {
        s.take(max)
    }
}

/// Every index the filter keeps is in range, affects the box, and the kept
/// indices are strictly increasing (so each appears at most once, in stable
/// light order).
pub proof fn lemma_affecting_upto_props(lights: Seq<Light>, a: Aabb, n: int)
    requires
        n <= lights.len(),
        lights.len() <= u32::MAX,
    ensures
        forall|k: int|
            0 <= k < affecting_upto(lights, a, n).len() ==> 0 <= #[trigger] affecting_upto(
                lights,
                a,
                n,
            )[k] < n && lights[affecting_upto(lights, a, n)[k] as int].affects(a),
        forall|k1: int, k2: int|
            0 <= k1 < k2 < affecting_upto(lights, a, n).len() ==> #[trigger] affecting_upto(
                lights,
                a,
                n,
            )[k1] < #[trigger] affecting_upto(lights, a, n)[k2],
    decreases n,
{
    if n > 0 {
        lemma_affecting_upto_props(lights, a, n - 1);
        let s = affecting_upto(lights, a, n);
        let s0 = affecting_upto(lights, a, n - 1);
        if lights[n - 1].affects(a) {
            assert(s == s0.push((n - 1) as u32));
            assert forall|k: int| 0 <= k < s.len() implies 0 <= #[trigger] s[k] < n
                && lights[s[k] as int].affects(a) by {
                if k < s0.len() {
                    assert(s[k] == s0[k]);
                } else {
                    assert(s[k] == (n - 1) as u32);
                }
            }
            assert forall|k1: int, k2: int| 0 <= k1 < k2 < s.len() implies #[trigger] s[k1]
                < #[trigger] s[k2] by {
                if k2 < s0.len() {
                    assert(s[k1] == s0[k1] && s[k2] == s0[k2]);
                } else {
                    assert(s[k1] == s0[k1] && s[k2] == (n - 1) as u32);
                    assert(s0[k1] < n - 1);
                }
            }
        } else {
            assert(s == s0);
        }
    }
}

/// An index is kept by the filter exactly when it is in range and its light
/// affects the box.
pub proof fn lemma_affecting_upto_membership(lights: Seq<Light>, a: Aabb, n: int, idx: u32)
    requires
        n <= lights.len(),
        lights.len() <= u32::MAX,
    ensures
        affecting_upto(lights, a, n).contains(idx) <==> (0 <= idx < n && lights[idx as int].affects(
            a,
        )),
    decreases n,
{
    if n > 0 {
        lemma_affecting_upto_membership(lights, a, n - 1, idx);
        let s = affecting_upto(lights, a, n);
        let s0 = affecting_upto(lights, a, n - 1);
        if lights[n - 1].affects(a) {
            assert(s == s0.push((n - 1) as u32));
            if 0 <= idx < n && lights[idx as int].affects(a) {
                if idx == n - 1 {
                    assert(s[s.len() - 1] == idx);
                    assert(s.contains(idx));
                } else {
                    let k = choose|k: int| 0 <= k < s0.len() && s0[k] == idx;
                    assert(s[k] == idx);
                    assert(s.contains(idx));
                }
            }
            if s.contains(idx) {
                let k = choose|k: int| 0 <= k < s.len() && s[k] == idx;
                if k < s.len() - 1 {
                    assert(s0[k] == idx);
                    assert(s0.contains(idx));
                }
            }
        } else {
            assert(s == s0);
        }
    }
}

/// The per-cluster light list: the first `max` affecting light indices, in
/// light order.
pub fn cluster_light_list(lights: &Vec<Light>, a: &Aabb, max: usize) -> (v: Vec<u32>)
    requires
        forall|i: int| 0 <= i < lights@.len() ==> (#[trigger] lights@[i]).wf(),
        lights@.len() <= u32::MAX,
        a.wf(),
    ensures
        v@ == capped(affecting(lights@, *a), max as int),
{
    let mut v: Vec<u32> = Vec::new();
    let mut j: usize = 0;
    while j < lights.len()
        invariant
            forall|i: int| 0 <= i < lights@.len() ==> (#[trigger] lights@[i]).wf(),
            lights@.len() <= u32::MAX,
            a.wf(),
            j <= lights@.len(),
            v@ == capped(affecting_upto(lights@, *a, j as int), max as int),
        decreases lights@.len() - j,
    {
        proof {
            lemma_affecting_upto_props(lights@, *a, j as int);
        }
        let ghost s0 = affecting_upto(lights@, *a, j as int);
        let ghost s1 = affecting_upto(lights@, *a, j + 1 as int);
        if lights[j].affects_aabb(a) {
            assert(s1 == s0.push(j as u32));
            if v.len() < max {
                assert(s0.len() < max);
                v.push(j as u32);
                assert(v@ == capped(s1, max as int));
            } else {
                assert(s0.len() >= max);
                assert(capped(s1, max as int) =~= capped(s0, max as int));
            }
        } else {
            assert(s1 == s0);
        }
        j = j + 1;
    }
    v
}

/// The linear index of cluster `(ix, iy, iz)` in the assignment table.
pub open spec fn cluster_index(g: Grid, ix: int, iy: int, iz: int) -> int {
    (ix * g.ny + iy) * g.nz + iz
}

/// Cluster indices are within the table and distinct for distinct clusters.
pub proof fn lemma_cluster_index_inj(
    g: Grid,
    ix: int,
    iy: int,
    iz: int,
    jx: int,
    jy: int,
    jz: int,
)
    requires
        0 <= ix < g.nx && 0 <= iy < g.ny && 0 <= iz < g.nz,
        0 <= jx < g.nx && 0 <= jy < g.ny && 0 <= jz < g.nz,
        cluster_index(g, ix, iy, iz) == cluster_index(g, jx, jy, jz),
    ensures
        ix == jx && iy == jy && iz == jz,
{
    let qi = ix * g.ny + iy;
    let qj = jx * g.ny + jy;
    let c = cluster_index(g, ix, iy, iz);
    lemma_fundamental_div_mod_converse(c, g.nz as int, qi, iz);
    lemma_fundamental_div_mod_converse(c, g.nz as int, qj, jz);
    lemma_fundamental_div_mod_converse(qi, g.ny as int, ix, iy);
    lemma_fundamental_div_mod_converse(qj, g.ny as int, jx, jy);
}

/// Cluster indices stay within the table.
pub proof fn lemma_cluster_index_range(g: Grid, ix: int, iy: int, iz: int)
    requires
        0 <= ix < g.nx && 0 <= iy < g.ny && 0 <= iz < g.nz,
    ensures
        0 <= cluster_index(g, ix, iy, iz) < g.cluster_count(),
{
    assert(0 <= (ix * g.ny + iy) * g.nz + iz < g.nx * g.ny * g.nz) by (nonlinear_arith)
        requires
            0 <= ix < g.nx && 0 <= iy < g.ny && 0 <= iz < g.nz,
            0 < g.ny,
            0 < g.nz,
    ;
}

/// Assign every active light to the clusters its influence volume
/// intersects.
///
/// For each cluster, the resulting list holds exactly the first
/// `max_per_cluster` light indices whose volume intersects the cluster's
/// sub-frustum, in light iteration order; lights beyond the capacity are
/// dropped from that cluster only. The simulation-side light data is read,
/// never changed.
pub fn assign_lights_to_clusters(lights: &Vec<Light>, grid: &Grid, max_per_cluster: usize) -> (r:
    Vec<Vec<u32>>)
    requires
        grid.wf(),
        forall|i: int| 0 <= i < lights@.len() ==> (#[trigger] lights@[i]).wf(),
        lights@.len() <= u32::MAX,
    ensures
        r@.len() == grid.cluster_count(),
        forall|ix: int, iy: int, iz: int|
            0 <= ix < grid.nx && 0 <= iy < grid.ny && 0 <= iz < grid.nz ==> (#[trigger] r@[
                cluster_index(*grid, ix, iy, iz)])@ == capped(
                affecting(lights@, grid.cluster_aabb(ix, iy, iz)),
                max_per_cluster as int,
            ),
{
    let mut r: Vec<Vec<u32>> = Vec::new();
    let ghost plane = (grid.ny as int) * (grid.nz as int);
    let mut ix: usize = 0;
    while ix < grid.nx as usize
        invariant
            grid.wf(),
            forall|i: int| 0 <= i < lights@.len() ==> (#[trigger] lights@[i]).wf(),
            lights@.len() <= u32::MAX,
            ix <= grid.nx,
            plane == (grid.ny as int) * (grid.nz as int),
            r@.len() == ix * plane,
            forall|ax: int, ay: int, az: int|
                0 <= ax < grid.nx && 0 <= ay < grid.ny && 0 <= az < grid.nz && cluster_index(
                    *grid,
                    ax,
                    ay,
                    az,
                ) < r@.len() ==> (#[trigger] r@[cluster_index(*grid, ax, ay, az)])@ == capped(
                    affecting(lights@, grid.cluster_aabb(ax, ay, az)),
                    max_per_cluster as int,
                ),
        decreases grid.nx - ix,
    {
        let mut iy: usize = 0;
        while iy < grid.ny as usize
            invariant
                grid.wf(),
                forall|i: int| 0 <= i < lights@.len() ==> (#[trigger] lights@[i]).wf(),
                lights@.len() <= u32::MAX,
                ix < grid.nx,
                iy <= grid.ny,
                plane == (grid.ny as int) * (grid.nz as int),
                r@.len() == ix * plane + iy * (grid.nz as int),
                forall|ax: int, ay: int, az: int|
                    0 <= ax < grid.nx && 0 <= ay < grid.ny && 0 <= az < grid.nz && cluster_index(
                        *grid,
                        ax,
                        ay,
                        az,
                    ) < r@.len() ==> (#[trigger] r@[cluster_index(*grid, ax, ay, az)])@ == capped(
                        affecting(lights@, grid.cluster_aabb(ax, ay, az)),
                        max_per_cluster as int,
                    ),
            decreases grid.ny - iy,
        {
            proof {
                assert((ix * (grid.ny as int) + iy) * (grid.nz as int) == ix * ((grid.ny as int) * (
                grid.nz as int)) + iy * (grid.nz as int)) by (nonlinear_arith);
            }
            let mut iz: usize = 0;
            while iz < grid.nz as usize
                invariant
                    grid.wf(),
                    forall|i: int| 0 <= i < lights@.len() ==> (#[trigger] lights@[i]).wf(),
                    lights@.len() <= u32::MAX,
                    ix < grid.nx,
                    iy < grid.ny,
                    iz <= grid.nz,
                    r@.len() == cluster_index(*grid, ix as int, iy as int, iz as int),
                    forall|ax: int, ay: int, az: int|
                        0 <= ax < grid.nx && 0 <= ay < grid.ny && 0 <= az < grid.nz
                            && cluster_index(*grid, ax, ay, az) < r@.len() ==> (#[trigger] r@[
                            cluster_index(*grid, ax, ay, az)])@ == capped(
                            affecting(lights@, grid.cluster_aabb(ax, ay, az)),
                            max_per_cluster as int,
                        ),
                decreases grid.nz - iz,
            {
                let aabb = grid.cluster_aabb_at(ix, iy, iz);
                let list = cluster_light_list(lights, &aabb, max_per_cluster);
                let ghost r0 = r@;
                let ghost me = cluster_index(*grid, ix as int, iy as int, iz as int);
                r.push(list);
                proof {
                    assert forall|ax: int, ay: int, az: int|
                        0 <= ax < grid.nx && 0 <= ay < grid.ny && 0 <= az < grid.nz
                            && cluster_index(*grid, ax, ay, az) < r@.len() implies (#[trigger] r@[
                        cluster_index(*grid, ax, ay, az)])@ == capped(
                        affecting(lights@, grid.cluster_aabb(ax, ay, az)),
                        max_per_cluster as int,
                    ) by {
                        let ci = cluster_index(*grid, ax, ay, az);
                        if ci < r0.len() {
                            assert(r@[ci] == r0[ci]);
                        } else {
                            assert(ci == me);
                            lemma_cluster_index_inj(
                                *grid,
                                ax,
                                ay,
                                az,
                                ix as int,
                                iy as int,
                                iz as int,
                            );
                            assert(r@[ci] == list);
                        }
                    }
                }
                iz = iz + 1;
            }
            proof {
                assert(ix * ((grid.ny as int) * (grid.nz as int)) + (iy + 1) * (grid.nz as int) == (
                ix * (grid.ny as int) + iy) * (grid.nz as int) + grid.nz) by (nonlinear_arith);
                assert(r@.len() == cluster_index(*grid, ix as int, iy as int, grid.nz as int));
            }
            iy = iy + 1;
        }
        proof {
            assert((ix + 1) * ((grid.ny as int) * (grid.nz as int)) == ix * ((grid.ny as int) * (
            grid.nz as int)) + (grid.ny as int) * (grid.nz as int)) by (nonlinear_arith);
        }
        ix = ix + 1;
    }
    proof {
        assert(r@.len() == grid.cluster_count()) by (nonlinear_arith)
            requires
                r@.len() == (grid.nx as int) * ((grid.ny as int) * (grid.nz as int)),
                grid.cluster_count() == grid.nx * grid.ny * grid.nz,
        ;
        assert forall|ax: int, ay: int, az: int|
            0 <= ax < grid.nx && 0 <= ay < grid.ny && 0 <= az < grid.nz implies (#[trigger] r@[
            cluster_index(*grid, ax, ay, az)])@ == capped(
            affecting(lights@, grid.cluster_aabb(ax, ay, az)),
            max_per_cluster as int,
        ) by {
            lemma_cluster_index_range(*grid, ax, ay, az);
        }
    }
    r
}

/// A light index in any assigned list is a real light whose volume
/// intersects that cluster's sub-frustum: assignment never invents an
/// influence.
pub proof fn lemma_assigned_implies_affects(lights: Seq<Light>, a: Aabb, max: int, idx: u32)
    requires
        0 <= max,
        lights.len() <= u32::MAX,
        capped(affecting(lights, a), max).contains(idx),
    ensures
        0 <= idx < lights.len(),
        lights[idx as int].affects(a),
{
    let s = affecting(lights, a);
    let c = capped(s, max);
    let k = choose|k: int| 0 <= k < c.len() && c[k] == idx;
    if s.len() > max {
        assert(c == s.take(max));
        assert(c[k] == s[k]);
    }
    assert(s[k] == idx);
    assert(s.contains(idx));
    lemma_affecting_upto_membership(lights, a, lights.len() as int, idx);
}

/// Within the capacity limit, a light is assigned to a cluster exactly when
/// its influence volume intersects the cluster's sub-frustum.
pub proof fn lemma_assignment_iff(lights: Seq<Light>, a: Aabb, max: int, idx: u32)
    requires
        lights.len() <= u32::MAX,
        affecting(lights, a).len() <= max,
    ensures
        capped(affecting(lights, a), max).contains(idx) <==> (0 <= idx < lights.len()
            && lights[idx as int].affects(a)),
{
    lemma_affecting_upto_membership(lights, a, lights.len() as int, idx);
}

/// Under capacity overflow the first `max` affecting lights, in light order,
/// are kept: the documented priority order.
pub proof fn lemma_assignment_overflow(lights: Seq<Light>, a: Aabb, max: int)
    requires
        0 <= max <= affecting(lights, a).len(),
    ensures
        capped(affecting(lights, a), max).len() == max,
        forall|k: int|
            0 <= k < max ==> #[trigger] capped(affecting(lights, a), max)[k] == affecting(
                lights,
                a,
            )[k],
{
}

} // verus!
