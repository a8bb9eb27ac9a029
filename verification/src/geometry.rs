//! Frustum/AABB geometry utilities: exact, stateless intersection predicates
//! over fixed-point view-space coordinates.
//!
//! Cluster sub-frustums and light influence volumes are represented as
//! axis-aligned boxes and spheres whose coordinates are bounded integers, so
//! the predicates here are total and never false-negative: each executable
//! test is proved equal to its mathematical definition.

use vstd::prelude::*;

verus! {

/// All coordinates (and sphere radii) are kept within this bound so that
/// squared-distance arithmetic cannot overflow.
pub const COORD_BOUND: i64 = 1_000_000_000;

/// A point or direction in fixed-point view space.
#[derive(Clone, Copy, Debug, PartialEq, Eq, Structural)]
pub struct Vec3i {
    pub x: i64,
    pub y: i64,
    pub z: i64,
}

impl Vec3i {
    /// Every coordinate lies within the global coordinate bound.
    pub open spec fn in_bounds(self) -> bool {
        &&& -COORD_BOUND <= self.x <= COORD_BOUND
        &&& -COORD_BOUND <= self.y <= COORD_BOUND
        &&& -COORD_BOUND <= self.z <= COORD_BOUND
    }
}

/// An axis-aligned box, closed on both ends along each axis.
#[derive(Clone, Copy, Debug, PartialEq, Eq, Structural)]
pub struct Aabb {
    pub min: Vec3i,
    pub max: Vec3i,
}

impl Aabb {
    /// A well-formed box has ordered, in-bounds corners.
    pub open spec fn wf(self) -> bool {
        &&& self.min.in_bounds()
        &&& self.max.in_bounds()
        &&& self.min.x <= self.max.x
        &&& self.min.y <= self.max.y
        &&& self.min.z <= self.max.z
    }

    /// The point lies inside the box (boundary included).
    pub open spec fn contains_point(self, p: Vec3i) -> bool {
        &&& self.min.x <= p.x <= self.max.x
        &&& self.min.y <= p.y <= self.max.y
        &&& self.min.z <= p.z <= self.max.z
    }

    /// The two boxes share at least one point: their coordinate intervals
    /// overlap on every axis.
    pub open spec fn overlaps(self, other: Aabb) -> bool {
        &&& self.min.x <= other.max.x && other.min.x <= self.max.x
        &&& self.min.y <= other.max.y && other.min.y <= self.max.y
        &&& self.min.z <= other.max.z && other.min.z <= self.max.z
    }
}

/// A sphere of influence, such as a point light's range volume.
#[derive(Clone, Copy, Debug, PartialEq, Eq, Structural)]
pub struct Sphere {
    pub center: Vec3i,
    pub radius: i64,
}

impl Sphere {
    pub open spec fn wf(self) -> bool {
        &&& self.center.in_bounds()
        &&& 0 <= self.radius <= COORD_BOUND
    }
}

/// `v` limited to the interval `[lo, hi]`.
pub open spec fn clamp_val(v: int, lo: int, hi: int) -> int {
    if v < lo {
        lo
    } else if v > hi {
        hi
    } else {
        v
    }
}

/// Squared distance from the sphere's center to the nearest point of the box.
pub open spec fn dist_sq_to_aabb(c: Vec3i, a: Aabb) -> int {
    let dx = c.x - clamp_val(c.x as int, a.min.x as int, a.max.x as int);
    let dy = c.y - clamp_val(c.y as int, a.min.y as int, a.max.y as int);
    let dz = c.z - clamp_val(c.z as int, a.min.z as int, a.max.z as int);
    dx * dx + dy * dy + dz * dz
}

/// The sphere and the box share at least one point: the nearest point of the
/// box to the center is within the radius.
pub open spec fn sphere_touches_aabb(s: Sphere, a: Aabb) -> bool {
    dist_sq_to_aabb(s.center, a) <= s.radius * s.radius
}

/// Exact box-versus-box intersection test.
pub fn aabb_intersects_aabb(a: &Aabb, b: &Aabb) -> (r: bool)
    ensures
        r == a.overlaps(*b),
{
    a.min.x <= b.max.x && b.min.x <= a.max.x && a.min.y <= b.max.y && b.min.y <= a.max.y
        && a.min.z <= b.max.z && b.min.z <= a.max.z
}

/// `v` limited to the interval `[lo, hi]`.
pub fn clamp_i64(v: i64, lo: i64, hi: i64) -> (r: i64)
    requires
        lo <= hi,
    ensures
        r as int == clamp_val(v as int, lo as int, hi as int),
{
    if v < lo {
        lo
    } else if v > hi {
        hi
    } else {
        v
    }
}

/// Exact sphere-versus-box intersection test: compares the squared distance
/// from the center to the nearest point of the box with the squared radius.
pub fn sphere_intersects_aabb(s: &Sphere, a: &Aabb) -> (r: bool)
    requires
        s.wf(),
        a.wf(),
    ensures
        r == sphere_touches_aabb(*s, *a),
{
    let cx = clamp_i64(s.center.x, a.min.x, a.max.x);
    let cy = clamp_i64(s.center.y, a.min.y, a.max.y);
    let cz = clamp_i64(s.center.z, a.min.z, a.max.z);
    let dx = s.center.x - cx;
    let dy = s.center.y - cy;
    let dz = s.center.z - cz;
    proof {
        lemma_square_bound(dx as int);
        lemma_square_bound(dy as int);
        lemma_square_bound(dz as int);
        lemma_square_bound(s.radius as int);
    }
    let sx = dx * dx;
    let sy = dy * dy;
    let sz = dz * dz;
    let d2 = (sx as i128) + (sy as i128) + (sz as i128);
    let r2 = (s.radius as i128) * (s.radius as i128);
    d2 <= r2
}

/// The square of a coordinate difference stays within `i64` range.
proof fn lemma_square_bound(v: int)
    requires
        -2 * COORD_BOUND <= v <= 2 * COORD_BOUND,
    ensures
        0 <= v * v <= 4 * COORD_BOUND * COORD_BOUND,
{
    assert(0 <= v * v <= 4 * COORD_BOUND * COORD_BOUND) by (nonlinear_arith)
        requires
            -2 * COORD_BOUND <= v <= 2 * COORD_BOUND,
    ;
}

/// The sphere test never reports a miss when the volumes truly overlap: any
/// point that lies in the box and within the radius of the center witnesses
/// an intersection.
pub proof fn lemma_sphere_test_conservative(s: Sphere, a: Aabb, p: Vec3i)
    requires
        s.wf(),
        a.wf(),
        a.contains_point(p),
        (s.center.x - p.x) * (s.center.x - p.x) + (s.center.y - p.y) * (s.center.y - p.y) + (
        s.center.z - p.z) * (s.center.z - p.z) <= s.radius * s.radius,
    ensures
        sphere_touches_aabb(s, a),
{
    lemma_clamp_nearest(s.center.x as int, a.min.x as int, a.max.x as int, p.x as int);
    lemma_clamp_nearest(s.center.y as int, a.min.y as int, a.max.y as int, p.y as int);
    lemma_clamp_nearest(s.center.z as int, a.min.z as int, a.max.z as int, p.z as int);
}

/// Along one axis, the clamped coordinate is at least as close to `c` as any
/// in-range coordinate `q`.
proof fn lemma_clamp_nearest(c: int, lo: int, hi: int, q: int)
    requires
        lo <= hi,
        lo <= q <= hi,
    ensures
        (c - clamp_val(c, lo, hi)) * (c - clamp_val(c, lo, hi)) <= (c - q) * (c - q),
{
    let k = clamp_val(c, lo, hi);
    assert((c - k) * (c - k) <= (c - q) * (c - q)) by (nonlinear_arith)
        requires
            lo <= q <= hi,
            k == clamp_val(c, lo, hi),
            (c < lo ==> k == lo) && (c > hi ==> k == hi) && (lo <= c <= hi ==> k == c),
    ;
}

} // verus!
