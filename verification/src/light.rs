//! Light sources, their influence volumes, their shadow frusta, and the
//! per-light visibility pass over scene geometry.
//!
//! A directional light reaches the whole scene; a point light reaches exactly
//! the geometry its range sphere touches. Shadow frusta are fitted volumes:
//! cascades for a directional light cover the camera's visible depth range,
//! and up to six cube-face volumes for a point light cover its range sphere,
//! faces turned entirely away from the view volume being skipped.

use vstd::prelude::*;
use crate::geometry::{Aabb, Sphere, Vec3i, sphere_touches_aabb, sphere_intersects_aabb,
    aabb_intersects_aabb, COORD_BOUND};
use crate::grid::{uniform_bound, lemma_uniform_props, uniform_boundaries, lemma_slice_exists,
    adj_increasing};

verus! {

/// A light source in fixed-point view space, owned by the simulation world.
#[derive(Clone, Copy, Debug, PartialEq, Eq, Structural)]
pub enum Light {
    /// Lights the whole scene from one direction.
    Directional { direction: Vec3i, intensity: i64, shadows_enabled: bool },
    /// Radiates from a point, reaching no farther than its range.
    Point { center: Vec3i, range: i64, intensity: i64, shadows_enabled: bool },
}

impl Light {
    pub open spec fn wf(self) -> bool {
        match self {
            Light::Directional { direction, intensity, .. } => direction.in_bounds() && intensity
                >= 0,
            Light::Point { center, range, intensity, .. } => center.in_bounds() && 0 <= range
                <= COORD_BOUND && intensity >= 0,
        }
    }

    pub open spec fn casts_shadows(self) -> bool {
        match self {
            Light::Directional { shadows_enabled, .. } => shadows_enabled,
            Light::Point { shadows_enabled, .. } => shadows_enabled,
        }
    }

    /// The light can influence geometry inside the box: a directional light
    /// reaches everything, and a point light reaches the box exactly when its
    /// range sphere touches it.
    pub open spec fn affects(self, a: Aabb) -> bool {
        match self {
            Light::Directional { .. } => true,
            Light::Point { center, range, .. } => sphere_touches_aabb(
                Sphere { center, radius: range },
                a,
            ),
        }
    }

    /// Exact influence test against a box.
    pub fn affects_aabb(&self, a: &Aabb) -> (r: bool)
        requires
            self.wf(),
            a.wf(),
        ensures
            r == self.affects(*a),
    {
        match self {
            Light::Directional { .. } => true,
            Light::Point { center, range, .. } => {
                let s = Sphere { center: *center, radius: *range };
                sphere_intersects_aabb(&s, a)
            },
        }
    }

    /// Whether the light casts shadows this frame.
    pub fn shadows_on(&self) -> (r: bool)
        ensures
            r == self.casts_shadows(),
    {
        match self {
            Light::Directional { shadows_enabled, .. } => *shadows_enabled,
            Light::Point { shadows_enabled, .. } => *shadows_enabled,
        }
    }
}

/// The cascade `c` of `m` for a directional light: the full cross-section of
/// the view volume, restricted to one depth slice of a uniform split.
pub open spec fn cascade_volume(vol: Aabb, m: int, c: int) -> Aabb {
    Aabb {
        min: Vec3i {
            x: vol.min.x,
            y: vol.min.y,
            z: uniform_bound(vol.min.z as int, vol.max.z as int, m, c) as i64,
        },
        max: Vec3i {
            x: vol.max.x,
            y: vol.max.y,
            z: uniform_bound(vol.min.z as int, vol.max.z as int, m, c + 1) as i64,
        },
    }
}

/// Fit the cascade volumes of a directional light to the camera's view
/// volume: `m` depth slices that together cover the whole visible range.
pub fn directional_cascades(vol: &Aabb, m: u32) -> (r: Vec<Aabb>)
    requires
        vol.wf(),
        1 <= m <= 16,
        vol.max.z - vol.min.z >= m,
    ensures
        r@.len() == m,
        forall|c: int| 0 <= c < m ==> #[trigger] r@[c] == cascade_volume(*vol, m as int, c),
        forall|c: int| 0 <= c < m ==> (#[trigger] r@[c]).wf(),
        // every point of the view volume lies in some cascade
        forall|p: Vec3i|
            #[trigger] vol.contains_point(p) ==> exists|c: int|
                0 <= c < m && (#[trigger] r@[c]).contains_point(p),
{
    proof {
        lemma_uniform_props(vol.min.z as int, vol.max.z as int, m as int);
    }
    let zsb = uniform_boundaries(vol.min.z, vol.max.z, m);
    let mut r: Vec<Aabb> = Vec::new();
    let mut c: usize = 0;
    while c < m as usize
        invariant
            vol.wf(),
            1 <= m <= 16,
            vol.max.z - vol.min.z >= m,
            zsb@.len() == m + 1,
            forall|i: int|
                0 <= i < zsb@.len() ==> #[trigger] zsb@[i] as int == uniform_bound(
                    vol.min.z as int,
                    vol.max.z as int,
                    m as int,
                    i,
                ),
            c <= m,
            r@.len() == c,
            forall|k: int| 0 <= k < c ==> #[trigger] r@[k] == cascade_volume(*vol, m as int, k),
        decreases m - c,
    {
        proof {
            lemma_uniform_props(vol.min.z as int, vol.max.z as int, m as int);
        }
        r.push(
            Aabb {
                min: Vec3i { x: vol.min.x, y: vol.min.y, z: zsb[c] },
                max: Vec3i { x: vol.max.x, y: vol.max.y, z: zsb[c + 1] },
            },
        );
        c = c + 1;
    }
    proof {
        lemma_uniform_props(vol.min.z as int, vol.max.z as int, m as int);
        assert forall|k: int| 0 <= k < m implies (#[trigger] r@[k]).wf() by {
            assert(r@[k] == cascade_volume(*vol, m as int, k));
        }
        assert forall|p: Vec3i| #[trigger] vol.contains_point(p) implies exists|c2: int|
            0 <= c2 < m && (#[trigger] r@[c2]).contains_point(p) by {
            if p.z < vol.max.z {
                assert(adj_increasing(zsb@)) by {
                    assert forall|i: int| 0 <= i < zsb@.len() - 1 implies #[trigger] zsb@[i]
                        < zsb@[i + 1] by {
                        assert(zsb@[i] as int == uniform_bound(
                            vol.min.z as int,
                            vol.max.z as int,
                            m as int,
                            i,
                        ));
                        assert(zsb@[i + 1] as int == uniform_bound(
                            vol.min.z as int,
                            vol.max.z as int,
                            m as int,
                            i + 1,
                        ));
                    }
                }
                lemma_slice_exists(zsb@, p.z);
                let i = choose|i: int|
                    0 <= i < zsb@.len() - 1 && #[trigger] zsb@[i] <= p.z < zsb@[i + 1];
                assert(r@[i].contains_point(p));
            } else {
                assert(r@[m - 1].contains_point(p));
            }
        }
    }
    r
}

/// The cube-face influence volume `f` (of 6) of a point light: the range box
/// halved along one axis at the light's center.
pub open spec fn face_volume(center: Vec3i, range: i64, f: int) -> Aabb {
    let lo = Vec3i {
        x: (center.x - range) as i64,
        y: (center.y - range) as i64,
        z: (center.z - range) as i64,
    };
    let hi = Vec3i {
        x: (center.x + range) as i64,
        y: (center.y + range) as i64,
        z: (center.z + range) as i64,
    };
    if f == 0 {
        Aabb { min: Vec3i { x: center.x, y: lo.y, z: lo.z }, max: hi }
    } else if f == 1 {
        Aabb { min: lo, max: Vec3i { x: center.x, y: hi.y, z: hi.z } }
    } else if f == 2 {
        Aabb { min: Vec3i { x: lo.x, y: center.y, z: lo.z }, max: hi }
    } else if f == 3 {
        Aabb { min: lo, max: Vec3i { x: hi.x, y: center.y, z: hi.z } }
    } else if f == 4 {
        Aabb { min: Vec3i { x: lo.x, y: lo.y, z: center.z }, max: hi }
    } else {
        Aabb { min: lo, max: Vec3i { x: hi.x, y: hi.y, z: center.z } }
    }
}

/// One cube face of a point light, kept only when its influence volume can
/// meet the view volume.
#[derive(Clone, Copy, Debug, PartialEq, Eq, Structural)]
pub struct FaceVolume {
    pub face: u32,
    pub volume: Aabb,
}

/// The ids (of 0..6) of the cube faces among the first `n` whose influence
/// volume intersects the view volume, in face order.
pub open spec fn kept_face_ids(center: Vec3i, range: i64, view: Aabb, n: int) -> Seq<u32>
    decreases n,
{
    if n <= 0 {
        Seq::empty()
    } else if face_volume(center, range, n - 1).overlaps(view) {
        kept_face_ids(center, range, view, n - 1).push((n - 1) as u32)
    } else {
        kept_face_ids(center, range, view, n - 1)
    }
}

/// The kept face ids are in range and strictly increasing: each face appears
/// at most once, in face order.
pub proof fn lemma_kept_face_ids_props(center: Vec3i, range: i64, view: Aabb, n: int)
    requires
        0 <= n <= 6,
    ensures
        kept_face_ids(center, range, view, n).len() <= n,
        forall|k: int|
            0 <= k < kept_face_ids(center, range, view, n).len() ==> 0 <= #[trigger] kept_face_ids(
                center,
                range,
                view,
                n,
            )[k] < n && face_volume(
                center,
                range,
                kept_face_ids(center, range, view, n)[k] as int,
            ).overlaps(view),
        forall|k1: int, k2: int|
            0 <= k1 < k2 < kept_face_ids(center, range, view, n).len() ==> #[trigger]
            kept_face_ids(center, range, view, n)[k1] < #[trigger] kept_face_ids(
                center,
                range,
                view,
                n,
            )[k2],
    decreases n,
{
    if n > 0 {
        lemma_kept_face_ids_props(center, range, view, n - 1);
        let s = kept_face_ids(center, range, view, n);
        let s0 = kept_face_ids(center, range, view, n - 1);
        if face_volume(center, range, n - 1).overlaps(view) {
            assert(s == s0.push((n - 1) as u32));
            assert forall|k: int| 0 <= k < s.len() implies 0 <= #[trigger] s[k] < n && face_volume(
                center,
                range,
                s[k] as int,
            ).overlaps(view) by {
                if k < s0.len() {
                    assert(s[k] == s0[k]);
                } else {
                    assert(s[k] == (n - 1) as u32);
                }
            }
            assert forall|k1: int, k2: int| 0 <= k1 < k2 < s.len() implies #[trigger] s[k1]
                < #[trigger] s[k2] by {
                if k2 < s0.len() {
                    assert(s[k1] == s0[k1] && s[k2] == s0[k2]);
                } else {
                    assert(s[k1] == s0[k1] && s[k2] == (n - 1) as u32);
                    assert(s0[k1] < n - 1);
                }
            }
        } else {
            assert(s == s0);
        }
    }
}

/// A face id is kept exactly when its volume can meet the view volume.
pub proof fn lemma_kept_face_ids_membership(
    center: Vec3i,
    range: i64,
    view: Aabb,
    n: int,
    f: u32,
)
    requires
        0 <= n <= 6,
    ensures
        kept_face_ids(center, range, view, n).contains(f) <==> (0 <= f < n && face_volume(
            center,
            range,
            f as int,
        ).overlaps(view)),
    decreases n,
{
    if n > 0 {
        lemma_kept_face_ids_membership(center, range, view, n - 1, f);
        let s = kept_face_ids(center, range, view, n);
        let s0 = kept_face_ids(center, range, view, n - 1);
        if face_volume(center, range, n - 1).overlaps(view) {
            assert(s == s0.push((n - 1) as u32));
            if 0 <= f < n && face_volume(center, range, f as int).overlaps(view) {
                if f == n - 1 {
                    assert(s[s.len() - 1] == f);
                    assert(s.contains(f));
                } else {
                    let k = choose|k: int| 0 <= k < s0.len() && s0[k] == f;
                    assert(s[k] == f);
                    assert(s.contains(f));
                }
            }
            if s.contains(f) {
                let k = choose|k: int| 0 <= k < s.len() && s[k] == f;
                if k < s.len() - 1 {
                    assert(s0[k] == f);
                    assert(s0.contains(f));
                }
            }
        } else {
            assert(s == s0);
        }
    }
}

/// The up-to-six cube-face volumes of a point light, restricted to faces
/// whose influence volume intersects the camera's view volume: exactly the
/// kept faces, in face order, each with its fitted volume.
pub fn point_light_faces(center: Vec3i, range: i64, view: &Aabb) -> (r: Vec<FaceVolume>)
    requires
        center.in_bounds(),
        0 <= range <= COORD_BOUND,
        view.wf(),
    ensures
        r@.len() == kept_face_ids(center, range, *view, 6).len(),
        r@.len() <= 6,
        forall|k: int|
            0 <= k < r@.len() ==> (#[trigger] r@[k]).face == kept_face_ids(
                center,
                range,
                *view,
                6,
            )[k] && r@[k].volume == face_volume(center, range, r@[k].face as int),
        forall|k: int|
            0 <= k < r@.len() ==> (#[trigger] r@[k]).face < 6 && face_volume(
                center,
                range,
                r@[k].face as int,
            ).overlaps(*view),
        // each face appears at most once, in face order
        forall|k1: int, k2: int|
            0 <= k1 < k2 < r@.len() ==> (#[trigger] r@[k1]).face < (#[trigger] r@[k2]).face,
        // a face is kept exactly when it can meet the view volume
        forall|f: int|
            0 <= f < 6 && face_volume(center, range, f).overlaps(*view) ==> exists|k: int|
                0 <= k < r@.len() && (#[trigger] r@[k]).face == f,
{
    let mut r: Vec<FaceVolume> = Vec::new();
    let mut f: u32 = 0;
    while f < 6
        invariant
            center.in_bounds(),
            0 <= range <= COORD_BOUND,
            view.wf(),
            f <= 6,
            r@.len() == kept_face_ids(center, range, *view, f as int).len(),
            forall|k: int|
                0 <= k < r@.len() ==> (#[trigger] r@[k]).face == kept_face_ids(
                    center,
                    range,
                    *view,
                    f as int,
                )[k] && r@[k].volume == face_volume(center, range, r@[k].face as int),
        decreases 6 - f,
    {
        proof {
            lemma_kept_face_ids_props(center, range, *view, f as int);
        }
        let lo_x = center.x - range;
        let lo_y = center.y - range;
        let lo_z = center.z - range;
        let hi_x = center.x + range;
        let hi_y = center.y + range;
        let hi_z = center.z + range;
        let vol = if f == 0 {
            Aabb {
                min: Vec3i { x: center.x, y: lo_y, z: lo_z },
                max: Vec3i { x: hi_x, y: hi_y, z: hi_z },
            }
        } else if f == 1 {
            Aabb {
                min: Vec3i { x: lo_x, y: lo_y, z: lo_z },
                max: Vec3i { x: center.x, y: hi_y, z: hi_z },
            }
        } else if f == 2 {
            Aabb {
                min: Vec3i { x: lo_x, y: center.y, z: lo_z },
                max: Vec3i { x: hi_x, y: hi_y, z: hi_z },
            }
        } else if f == 3 {
            Aabb {
                min: Vec3i { x: lo_x, y: lo_y, z: lo_z },
                max: Vec3i { x: hi_x, y: center.y, z: hi_z },
            }
        } else if f == 4 {
            Aabb {
                min: Vec3i { x: lo_x, y: lo_y, z: center.z },
                max: Vec3i { x: hi_x, y: hi_y, z: hi_z },
            }
        } else {
            Aabb {
                min: Vec3i { x: lo_x, y: lo_y, z: lo_z },
                max: Vec3i { x: hi_x, y: hi_y, z: center.z },
            }
        };
        assert(vol == face_volume(center, range, f as int));
        let ghost r0 = r@;
        let ghost kept0 = kept_face_ids(center, range, *view, f as int);
        let ghost kept1 = kept_face_ids(center, range, *view, f + 1 as int);
        if aabb_intersects_aabb(&vol, view) {
            r.push(FaceVolume { face: f, volume: vol });
            proof {
                assert(kept1 == kept0.push(f));
                assert forall|k: int|
                    0 <= k < r@.len() implies (#[trigger] r@[k]).face == kept1[k] && r@[k].volume
                    == face_volume(center, range, r@[k].face as int) by {
                    if k < r0.len() {
                        assert(r@[k] == r0[k] && kept1[k] == kept0[k]);
                    } else {
                        assert(r@[k].face == f && kept1[k] == f);
                    }
                }
            }
        } else {
            assert(kept1 == kept0);
        }
        f = f + 1;
    }
    proof {
        lemma_kept_face_ids_props(center, range, *view, 6);
        let kept = kept_face_ids(center, range, *view, 6);
        assert forall|f2: int|
            0 <= f2 < 6 && face_volume(center, range, f2).overlaps(*view) implies exists|k: int|
            0 <= k < r@.len() && (#[trigger] r@[k]).face == f2 by {
            lemma_kept_face_ids_membership(center, range, *view, 6, f2 as u32);
            assert(kept.contains(f2 as u32));
            let k = choose|k: int| 0 <= k < kept.len() && kept[k] == f2 as u32;
            assert(r@[k].face == f2);
        }
    }
    r
}

/// Any point within a point light's range box lies in at least one cube-face
/// volume: together the six faces cover the light's whole influence volume.
pub proof fn lemma_faces_cover(center: Vec3i, range: i64, p: Vec3i)
    requires
        center.in_bounds(),
        0 <= range <= COORD_BOUND,
        center.x - range <= p.x <= center.x + range,
        center.y - range <= p.y <= center.y + range,
        center.z - range <= p.z <= center.z + range,
    ensures
        exists|f: int| 0 <= f < 6 && face_volume(center, range, f).contains_point(p),
{
    if p.x >= center.x {
        assert(face_volume(center, range, 0).contains_point(p));
    } else {
        assert(face_volume(center, range, 1).contains_point(p));
    }
}

/// Does any of the volumes meet the box?
pub fn any_overlap(a: &Aabb, vols: &Vec<Aabb>) -> (r: bool)
    ensures
        r == exists|f: int| 0 <= f < vols@.len() && a.overlaps(#[trigger] vols@[f]),
{
    let mut f: usize = 0;
    while f < vols.len()
        invariant
            f <= vols@.len(),
            forall|k: int| 0 <= k < f ==> !a.overlaps(#[trigger] vols@[k]),
        decreases vols@.len() - f,
    {
        if aabb_intersects_aabb(a, &vols[f]) {
            return true;
        }
        f = f + 1;
    }
    false
}

/// Mark every entity whose bounds meet one of the light frusta as visible to
/// that light. The pass is additive: a flag already set by the camera's own
/// visibility pass is never cleared.
pub fn check_light_mesh_visibility(
    entity_bounds: &Vec<Aabb>,
    light_volumes: &Vec<Aabb>,
    visible: &mut Vec<bool>,
)
    requires
        old(visible)@.len() == entity_bounds@.len(),
    ensures
        final(visible)@.len() == entity_bounds@.len(),
        forall|e: int|
            0 <= e < entity_bounds@.len() ==> #[trigger] final(visible)@[e] == (old(visible)@[e]
                || exists|f: int|
                0 <= f < light_volumes@.len() && entity_bounds@[e].overlaps(
                    #[trigger] light_volumes@[f],
                )),
{
    let mut e: usize = 0;
    while e < entity_bounds.len()
        invariant
            visible@.len() == entity_bounds@.len(),
            e <= entity_bounds@.len(),
            forall|k: int| e <= k < entity_bounds@.len() ==> #[trigger] visible@[k] == old(
                visible,
            )@[k],
            forall|k: int|
                0 <= k < e ==> #[trigger] visible@[k] == (old(visible)@[k] || exists|f: int|
                    0 <= f < light_volumes@.len() && entity_bounds@[k].overlaps(
                        #[trigger] light_volumes@[f],
                    )),
        decreases entity_bounds@.len() - e,
    {
        let hit = any_overlap(&entity_bounds[e], light_volumes);
        let flag = visible[e] || hit;
        visible.set(e, flag);
        e = e + 1;
    }
}

} // verus!
