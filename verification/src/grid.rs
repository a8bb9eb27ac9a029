//! Cluster grid builder: derives a 3D grid of view-space sub-frustums from
//! camera projection parameters.
//!
//! The view volume `[-half_width, half_width] x [-half_height, half_height]
//! x [near, far]` is split into `nx * ny * nz` clusters: uniform tile
//! boundaries along the two screen axes and an exponential split along depth,
//! so near slices are thinner than far ones. Boundaries along each axis are
//! strictly increasing and cover the full extent, so the slices partition the
//! axis with no gaps and no overlaps. The build is a pure function of the
//! camera parameters, and a cache rebuilds only when those parameters change.

use vstd::prelude::*;
use vstd::arithmetic::div_mod::{
    lemma_fundamental_div_mod, lemma_div_is_ordered, lemma_div_multiples_vanish,
    lemma_mod_division_less_than_divisor, lemma_div_pos_is_pos,
};
use vstd::arithmetic::mul::{lemma_mul_is_commutative, lemma_mul_inequality, lemma_mul_nonnegative};
use vstd::arithmetic::power2::{pow2, lemma_pow2_strictly_increases, lemma_pow2_unfold, lemma2_to64};
use crate::geometry::{Aabb, Vec3i, COORD_BOUND};

verus! {

/// Most screen tiles allowed along one axis.
pub const MAX_TILES: u32 = 256;

/// Most depth slices allowed.
pub const MAX_DEPTH_SLICES: u32 = 24;

/// Configured grid dimensions. Zero dimensions are malformed configuration,
/// rejected once at setup time by `GridConfig::wf`.
#[derive(Clone, Copy, Debug, PartialEq, Eq, Structural)]
pub struct GridConfig {
    pub nx: u32,
    pub ny: u32,
    pub nz: u32,
}

impl GridConfig {
    pub open spec fn wf(self) -> bool {
        &&& 1 <= self.nx <= MAX_TILES
        &&& 1 <= self.ny <= MAX_TILES
        &&& 1 <= self.nz <= MAX_DEPTH_SLICES
    }

    pub open spec fn cluster_count(self) -> int {
        self.nx * self.ny * self.nz
    }

    /// Setup-time validation of the configured dimensions.
    pub fn check(&self) -> (r: bool)
        ensures
            r == self.wf(),
    {
        1 <= self.nx && self.nx <= MAX_TILES && 1 <= self.ny && self.ny <= MAX_TILES && 1
            <= self.nz && self.nz <= MAX_DEPTH_SLICES
    }
}

/// Camera projection parameters in fixed-point view space: the depth range
/// `[near, far]` and the half extents of the view volume cross-section.
#[derive(Clone, Copy, Debug, PartialEq, Eq, Structural)]
pub struct CameraParams {
    pub near: i64,
    pub far: i64,
    pub half_width: i64,
    pub half_height: i64,
}

impl CameraParams {
    /// A projection the grid builder accepts: non-degenerate depth range and
    /// extents, wide enough for every slice of the configured grid to be
    /// non-empty. A degenerate projection (for example a zero far plane) is
    /// rejected per frame, and the previous grid is reused.
    pub open spec fn valid_for(self, cfg: GridConfig) -> bool {
        &&& 0 <= self.near < self.far <= COORD_BOUND
        &&& 0 < self.half_width <= COORD_BOUND
        &&& 0 < self.half_height <= COORD_BOUND
        &&& 2 * self.half_width >= cfg.nx
        &&& 2 * self.half_height >= cfg.ny
        &&& self.far - self.near >= pow2(cfg.nz as nat) - 1
    }

    /// Per-frame validation of the camera projection.
    pub fn check_for(&self, cfg: &GridConfig) -> (r: bool)
        requires
            cfg.wf(),
        ensures
            r == self.valid_for(*cfg),
    {
        let threshold = pow2_i64(cfg.nz);
        0 <= self.near && self.near < self.far && self.far <= COORD_BOUND && 0 < self.half_width
            && self.half_width <= COORD_BOUND && 0 < self.half_height && self.half_height
            <= COORD_BOUND && 2 * self.half_width >= cfg.nx as i64 && 2 * self.half_height
            >= cfg.ny as i64 && self.far - self.near >= threshold - 1
    }
}

/// The boundary `i` of a uniform split of `[lo, hi]` into `n` slices.
pub open spec fn uniform_bound(lo: int, hi: int, n: int, i: int) -> int {
    lo + ((hi - lo) * i) / n
}

/// The boundary `i` of an exponential split of `[lo, hi]` into `n` slices:
/// slice widths grow geometrically with depth.
pub open spec fn expo_bound(lo: int, hi: int, n: int, i: int) -> int {
    lo + ((hi - lo) * (pow2(i as nat) - 1)) / (pow2(n as nat) - 1)
}

/// Boundary `i` along the screen X axis.
pub open spec fn x_bound(cfg: GridConfig, cam: CameraParams, i: int) -> int {
    uniform_bound(-cam.half_width, cam.half_width as int, cfg.nx as int, i)
}

/// Boundary `i` along the screen Y axis.
pub open spec fn y_bound(cfg: GridConfig, cam: CameraParams, i: int) -> int {
    uniform_bound(-cam.half_height, cam.half_height as int, cfg.ny as int, i)
}

/// Boundary `i` along the view-space depth axis.
pub open spec fn z_bound(cfg: GridConfig, cam: CameraParams, i: int) -> int {
    expo_bound(cam.near as int, cam.far as int, cfg.nz as int, i)
}

/// Each boundary is strictly below its successor.
pub open spec fn adj_increasing(s: Seq<i64>) -> bool {
    forall|i: int| 0 <= i < s.len() - 1 ==> #[trigger] s[i] < s[i + 1]
}

/// The per-frame cluster grid: for each axis, the slice boundaries.
/// Slice `i` along an axis covers `[bounds[i], bounds[i + 1])`.
#[derive(Clone, Debug, PartialEq)]
pub struct Grid {
    pub nx: u32,
    pub ny: u32,
    pub nz: u32,
    pub xs: Vec<i64>,
    pub ys: Vec<i64>,
    pub zs: Vec<i64>,
}

impl Grid {
    /// Well-formedness: dimension counts match the boundary vectors, and
    /// boundaries are strictly increasing and within the coordinate bound.
    pub open spec fn wf(self) -> bool {
        &&& 1 <= self.nx <= MAX_TILES
        &&& 1 <= self.ny <= MAX_TILES
        &&& 1 <= self.nz <= MAX_DEPTH_SLICES
        &&& self.xs@.len() == self.nx + 1
        &&& self.ys@.len() == self.ny + 1
        &&& self.zs@.len() == self.nz + 1
        &&& adj_increasing(self.xs@)
        &&& adj_increasing(self.ys@)
        &&& adj_increasing(self.zs@)
        &&& forall|i: int| 0 <= i < self.xs@.len() ==> -COORD_BOUND <= #[trigger] self.xs@[i] <= COORD_BOUND
        &&& forall|i: int| 0 <= i < self.ys@.len() ==> -COORD_BOUND <= #[trigger] self.ys@[i] <= COORD_BOUND
        &&& forall|i: int| 0 <= i < self.zs@.len() ==> -COORD_BOUND <= #[trigger] self.zs@[i] <= COORD_BOUND
    }

    /// The grid is exactly the one the boundary formulas derive from `cfg`
    /// and `cam`: the build is deterministic.
    pub open spec fn derived_from(self, cfg: GridConfig, cam: CameraParams) -> bool {
        &&& self.nx == cfg.nx
        &&& self.ny == cfg.ny
        &&& self.nz == cfg.nz
        &&& self.xs@.len() == cfg.nx + 1
        &&& self.ys@.len() == cfg.ny + 1
        &&& self.zs@.len() == cfg.nz + 1
        &&& forall|i: int| 0 <= i < self.xs@.len() ==> #[trigger] self.xs@[i] == x_bound(cfg, cam, i)
        &&& forall|i: int| 0 <= i < self.ys@.len() ==> #[trigger] self.ys@[i] == y_bound(cfg, cam, i)
        &&& forall|i: int| 0 <= i < self.zs@.len() ==> #[trigger] self.zs@[i] == z_bound(cfg, cam, i)
    }

    pub open spec fn cluster_count(self) -> int {
        self.nx * self.ny * self.nz
    }

    /// The sub-frustum of cluster `(ix, iy, iz)` as a closed box. Closed ends
    /// make intersection tests conservative at shared boundaries.
    pub open spec fn cluster_aabb(self, ix: int, iy: int, iz: int) -> Aabb {
        Aabb {
            min: Vec3i { x: self.xs@[ix], y: self.ys@[iy], z: self.zs@[iz] },
            max: Vec3i { x: self.xs@[ix + 1], y: self.ys@[iy + 1], z: self.zs@[iz + 1] },
        }
    }

    /// The whole view volume the grid partitions.
    pub open spec fn view_volume(self) -> Aabb {
        Aabb {
            min: Vec3i { x: self.xs@[0], y: self.ys@[0], z: self.zs@[0] },
            max: Vec3i {
                x: self.xs@[self.nx as int],
                y: self.ys@[self.ny as int],
                z: self.zs@[self.nz as int],
            },
        }
    }

    /// Fetch a cluster's sub-frustum box.
    pub fn cluster_aabb_at(&self, ix: usize, iy: usize, iz: usize) -> (a: Aabb)
        requires
            self.wf(),
            ix < self.nx,
            iy < self.ny,
            iz < self.nz,
        ensures
            a == self.cluster_aabb(ix as int, iy as int, iz as int),
            a.wf(),
    {
        Aabb {
            min: Vec3i { x: self.xs[ix], y: self.ys[iy], z: self.zs[iz] },
            max: Vec3i { x: self.xs[ix + 1], y: self.ys[iy + 1], z: self.zs[iz + 1] },
        }
    }

    /// The whole view volume as a box.
    pub fn view_volume_aabb(&self) -> (a: Aabb)
        requires
            self.wf(),
        ensures
            a == self.view_volume(),
            a.wf(),
    {
        proof {
            lemma_adj_le(self.xs@, 0, self.nx as int);
            lemma_adj_le(self.ys@, 0, self.ny as int);
            lemma_adj_le(self.zs@, 0, self.nz as int);
        }
        Aabb {
            min: Vec3i { x: self.xs[0], y: self.ys[0], z: self.zs[0] },
            max: Vec3i {
                x: self.xs[self.nx as usize],
                y: self.ys[self.ny as usize],
                z: self.zs[self.nz as usize],
            },
        }
    }
}

/// `2^e` as a machine integer.
pub fn pow2_i64(e: u32) -> (r: i64)
    requires
        e <= 30,
    ensures
        r as int == pow2(e as nat),
{
    proof {
        lemma2_to64();
    }
    let mut r: i64 = 1;
    let mut k: u32 = 0;
    while k < e
        invariant
            k <= e <= 30,
            r as int == pow2(k as nat),
        decreases e - k,
    {
        proof {
            lemma2_to64();
            if (k as nat) < 30 {
                lemma_pow2_strictly_increases(k as nat, 30);
            }
            lemma_pow2_unfold((k + 1) as nat);
        }
        r = r * 2;
        k = k + 1;
    }
    r
}

/// Division by a positive divisor is strictly monotone across a full step of
/// the divisor.
proof fn lemma_div_step(a: int, b: int, d: int)
    requires
        0 < d,
        b - a >= d,
    ensures
        a / d < b / d,
{
    lemma_fundamental_div_mod(a, d);
    lemma_fundamental_div_mod(b, d);
    lemma_mod_division_less_than_divisor(a, d);
    lemma_mod_division_less_than_divisor(b, d);
    let qa = a / d;
    let qb = b / d;
    assert(qa < qb) by (nonlinear_arith)
        requires
            a == d * qa + (a % d),
            b == d * qb + (b % d),
            0 <= a % d < d,
            0 <= b % d < d,
            b - a >= d,
            0 < d,
    ;
}

/// Properties of the uniform split: endpoints, strict monotonicity, range.
pub proof fn lemma_uniform_props(lo: int, hi: int, n: int)
    requires
        lo < hi,
        1 <= n,
        hi - lo >= n,
    ensures
        uniform_bound(lo, hi, n, 0) == lo,
        uniform_bound(lo, hi, n, n) == hi,
        forall|i: int|
            0 <= i < n ==> #[trigger] uniform_bound(lo, hi, n, i) < uniform_bound(lo, hi, n, i + 1),
        forall|i: int| 0 <= i <= n ==> lo <= #[trigger] uniform_bound(lo, hi, n, i) <= hi,
{
    let w = hi - lo;
    assert(w * 0 == 0) by (nonlinear_arith);
    assert(uniform_bound(lo, hi, n, 0) == lo) by {
        assert(0int / n == 0) by (nonlinear_arith)
            requires
                1 <= n,
        ;
    }
    assert(uniform_bound(lo, hi, n, n) == hi) by {
        lemma_div_multiples_vanish(w, n);
        lemma_mul_is_commutative(w, n);
    }
    assert forall|i: int| 0 <= i < n implies #[trigger] uniform_bound(lo, hi, n, i) < uniform_bound(
        lo,
        hi,
        n,
        i + 1,
    ) by {
        assert(w * (i + 1) - w * i == w) by (nonlinear_arith);
        lemma_div_step(w * i, w * (i + 1), n);
    }
    assert forall|i: int| 0 <= i <= n implies lo <= #[trigger] uniform_bound(lo, hi, n, i) <= hi by {
        lemma_mul_nonnegative(w, i);
        lemma_div_pos_is_pos(w * i, n);
        lemma_mul_inequality(i, n, w);
        lemma_mul_is_commutative(i, w);
        lemma_mul_is_commutative(n, w);
        lemma_div_is_ordered(w * i, w * n, n);
        lemma_div_multiples_vanish(w, n);
        lemma_mul_is_commutative(w, n);
    }
}

/// Properties of the exponential split: endpoints, strict monotonicity, range.
pub proof fn lemma_expo_props(lo: int, hi: int, n: int)
    requires
        lo < hi,
        1 <= n,
        hi - lo >= pow2(n as nat) - 1,
    ensures
        expo_bound(lo, hi, n, 0) == lo,
        expo_bound(lo, hi, n, n) == hi,
        forall|i: int| 0 <= i < n ==> #[trigger] expo_bound(lo, hi, n, i) < expo_bound(lo, hi, n, i + 1),
        forall|i: int| 0 <= i <= n ==> lo <= #[trigger] expo_bound(lo, hi, n, i) <= hi,
{
    let w = hi - lo;
    let d = pow2(n as nat) - 1;
    lemma2_to64();
    lemma_pow2_strictly_increases(0, n as nat);
    assert(d >= 1);
    assert(w * (pow2(0) - 1) == 0) by (nonlinear_arith)
        requires
            pow2(0) == 1,
    ;
    assert(expo_bound(lo, hi, n, 0) == lo) by {
        assert(0int / d == 0) by (nonlinear_arith)
            requires
                1 <= d,
        ;
    }
    assert(expo_bound(lo, hi, n, n) == hi) by {
        lemma_div_multiples_vanish(w, d);
        lemma_mul_is_commutative(w, d);
    }
    assert forall|i: int| 0 <= i < n implies #[trigger] expo_bound(lo, hi, n, i) < expo_bound(
        lo,
        hi,
        n,
        i + 1,
    ) by {
        let p = pow2(i as nat) as int;
        let pn = pow2((i + 1) as nat) as int;
        lemma2_to64();
        lemma_pow2_unfold((i + 1) as nat);
        assert(pn == 2 * p);
        if i > 0 {
            lemma_pow2_strictly_increases(0, i as nat);
        }
        assert(p >= 1);
        assert(w * (pn - 1) - w * (p - 1) >= w) by (nonlinear_arith)
            requires
                pn == 2 * p,
                p >= 1,
                w >= 1,
        ;
        lemma_div_step(w * (p - 1), w * (pn - 1), d);
    }
    assert forall|i: int| 0 <= i <= n implies lo <= #[trigger] expo_bound(lo, hi, n, i) <= hi by {
        let p = pow2(i as nat) as int;
        lemma2_to64();
        if i > 0 {
            lemma_pow2_strictly_increases(0, i as nat);
        }
        assert(p >= 1);
        if i < n {
            lemma_pow2_strictly_increases(i as nat, n as nat);
        }
        assert(p - 1 <= d);
        lemma_mul_nonnegative(w, p - 1);
        lemma_div_pos_is_pos(w * (p - 1), d);
        lemma_mul_inequality(p - 1, d, w);
        lemma_mul_is_commutative(p - 1, w);
        lemma_mul_is_commutative(d, w);
        lemma_div_is_ordered(w * (p - 1), w * d, d);
        lemma_div_multiples_vanish(w, d);
        lemma_mul_is_commutative(w, d);
    }
}

/// Boundaries of a uniform split of `[lo, hi]` into `n` slices.
pub fn uniform_boundaries(lo: i64, hi: i64, n: u32) -> (v: Vec<i64>)
    requires
        -COORD_BOUND <= lo < hi <= COORD_BOUND,
        1 <= n <= MAX_TILES,
        hi - lo >= n,
    ensures
        v@.len() == n + 1,
        forall|i: int|
            0 <= i < v@.len() ==> #[trigger] v@[i] as int == uniform_bound(lo as int, hi as int, n as int, i),
{
    proof {
        lemma_uniform_props(lo as int, hi as int, n as int);
    }
    let w = hi - lo;
    let mut v: Vec<i64> = Vec::new();
    let mut i: u32 = 0;
    while i <= n
        invariant
            -COORD_BOUND <= lo < hi <= COORD_BOUND,
            1 <= n <= MAX_TILES,
            hi - lo >= n,
            w == hi - lo,
            i <= n + 1,
            v@.len() == i,
            forall|j: int|
                0 <= j < v@.len() ==> #[trigger] v@[j] as int == uniform_bound(
                    lo as int,
                    hi as int,
                    n as int,
                    j,
                ),
        decreases n + 1 - i,
    {
        proof {
            lemma_uniform_props(lo as int, hi as int, n as int);
            lemma_mul_nonnegative(w as int, i as int);
            lemma_mul_inequality(i as int, n as int, w as int);
            lemma_mul_is_commutative(i as int, w as int);
            lemma_mul_is_commutative(n as int, w as int);
            lemma_mul_inequality(w as int, 2 * COORD_BOUND, n as int);
        }
        let num = (w as u64) * (i as u64);
        let q = (num / (n as u64)) as i64;
        v.push(lo + q);
        i = i + 1;
    }
    v
}

/// Boundaries of an exponential split of `[lo, hi]` into `n` slices.
fn expo_boundaries(lo: i64, hi: i64, n: u32) -> (v: Vec<i64>)
    requires
        0 <= lo < hi <= COORD_BOUND,
        1 <= n <= MAX_DEPTH_SLICES,
        hi - lo >= pow2(n as nat) - 1,
    ensures
        v@.len() == n + 1,
        forall|i: int|
            0 <= i < v@.len() ==> #[trigger] v@[i] as int == expo_bound(lo as int, hi as int, n as int, i),
{
    proof {
        lemma_expo_props(lo as int, hi as int, n as int);
        lemma2_to64();
    }
    let w = hi - lo;
    let d = pow2_i64(n) - 1;
    let mut v: Vec<i64> = Vec::new();
    let mut p: i64 = 1;
    let mut i: u32 = 0;
    while i <= n
        invariant
            0 <= lo < hi <= COORD_BOUND,
            1 <= n <= MAX_DEPTH_SLICES,
            hi - lo >= pow2(n as nat) - 1,
            w == hi - lo,
            d == pow2(n as nat) - 1,
            i <= n + 1,
            i <= n ==> p as int == pow2(i as nat),
            v@.len() == i,
            forall|j: int|
                0 <= j < v@.len() ==> #[trigger] v@[j] as int == expo_bound(lo as int, hi as int, n as int, j),
        decreases n + 1 - i,
    {
        proof {
            lemma_expo_props(lo as int, hi as int, n as int);
            lemma2_to64();
            if (i as nat) < (n as nat) {
                lemma_pow2_strictly_increases(i as nat, n as nat);
            }
            if (n as nat) < 30 {
                lemma_pow2_strictly_increases(n as nat, 30);
            }
            lemma_mul_nonnegative(w as int, p - 1);
            lemma_mul_inequality(p - 1, d as int, w as int);
            lemma_mul_is_commutative(p - 1, w as int);
            lemma_mul_is_commutative(d as int, w as int);
            lemma_mul_inequality(w as int, COORD_BOUND as int, d as int);
        }
        let num = (w as u64) * ((p - 1) as u64);
        let q = (num / (d as u64)) as i64;
        v.push(lo + q);
        if i < n {
            proof {
                lemma_pow2_unfold((i + 1) as nat);
            }
            p = p * 2;
        }
        i = i + 1;
    }
    v
}

/// Build the cluster grid for the given configuration and camera projection.
/// The result is a pure function of the inputs: rebuilding with identical
/// parameters yields bit-identical cluster bounds.
pub fn build_grid(cfg: &GridConfig, cam: &CameraParams) -> (g: Grid)
    requires
        cfg.wf(),
        cam.valid_for(*cfg),
    ensures
        g.derived_from(*cfg, *cam),
        g.wf(),
{
    proof {
        lemma_uniform_props(-cam.half_width as int, cam.half_width as int, cfg.nx as int);
        lemma_uniform_props(-cam.half_height as int, cam.half_height as int, cfg.ny as int);
        lemma_expo_props(cam.near as int, cam.far as int, cfg.nz as int);
    }
    let xs = uniform_boundaries(-cam.half_width, cam.half_width, cfg.nx);
    let ys = uniform_boundaries(-cam.half_height, cam.half_height, cfg.ny);
    let zs = expo_boundaries(cam.near, cam.far, cfg.nz);
    Grid { nx: cfg.nx, ny: cfg.ny, nz: cfg.nz, xs, ys, zs }
}

/// Two grids derived from the same configuration and camera parameters are
/// identical: the rebuild is idempotent.
pub proof fn lemma_grid_build_deterministic(cfg: GridConfig, cam: CameraParams, g1: Grid, g2: Grid)
    requires
        g1.derived_from(cfg, cam),
        g2.derived_from(cfg, cam),
    ensures
        g1.xs@ == g2.xs@,
        g1.ys@ == g2.ys@,
        g1.zs@ == g2.zs@,
        g1.nx == g2.nx && g1.ny == g2.ny && g1.nz == g2.nz,
{
    assert(g1.xs@ =~= g2.xs@);
    assert(g1.ys@ =~= g2.ys@);
    assert(g1.zs@ =~= g2.zs@);
}

/// Boundaries ordered pairwise: follows from the adjacent ordering.
pub proof fn lemma_adj_le(s: Seq<i64>, i: int, j: int)
    requires
        adj_increasing(s),
        0 <= i <= j < s.len(),
    ensures
        s[i] <= s[j],
    decreases j - i,
{
    if i < j {
        lemma_adj_le(s, i, j - 1);
        assert(s[j - 1] < s[j]);
    }
}

/// A value in the covered range falls in at least one slice.
pub proof fn lemma_slice_exists(s: Seq<i64>, v: i64)
    requires
        adj_increasing(s),
        s.len() >= 2,
        s[0] <= v < s[s.len() - 1],
    ensures
        exists|i: int| 0 <= i < s.len() - 1 && #[trigger] s[i] <= v < s[i + 1],
    decreases s.len(),
{
    if v >= s[s.len() - 2] {
        assert(s[s.len() - 2] <= v < s[s.len() - 1]);
    } else {
        let t = s.take(s.len() - 1);
        assert(adj_increasing(t)) by {
            assert forall|i: int| 0 <= i < t.len() - 1 implies #[trigger] t[i] < t[i + 1] by {
                assert(s[i] < s[i + 1]);
            }
        }
        assert(t[0] == s[0]);
        assert(t[t.len() - 1] == s[s.len() - 2]);
        lemma_slice_exists(t, v);
        let i = choose|i: int| 0 <= i < t.len() - 1 && #[trigger] t[i] <= v < t[i + 1];
        assert(s[i] <= v < s[i + 1]);
    }
}

/// A value falls in at most one slice.
pub proof fn lemma_slice_unique(s: Seq<i64>, v: i64, i: int, j: int)
    requires
        adj_increasing(s),
        0 <= i < s.len() - 1,
        0 <= j < s.len() - 1,
        s[i] <= v < s[i + 1],
        s[j] <= v < s[j + 1],
    ensures
        i == j,
{
    if i < j {
        lemma_adj_le(s, i + 1, j);
    } else if j < i {
        lemma_adj_le(s, j + 1, i);
    }
}

/// Any value within the covered range lies in exactly one slice: the slices
/// partition the range with no gaps and no overlaps.
pub proof fn lemma_axis_partition(s: Seq<i64>, v: i64)
    requires
        adj_increasing(s),
        s.len() >= 2,
        s[0] <= v < s[s.len() - 1],
    ensures
        exists|i: int|
            (0 <= i < s.len() - 1 && #[trigger] s[i] <= v < s[i + 1]) && (forall|j: int|
                0 <= j < s.len() - 1 && #[trigger] s[j] <= v < s[j + 1] ==> j == i),
{
    lemma_slice_exists(s, v);
    let i = choose|i: int| 0 <= i < s.len() - 1 && #[trigger] s[i] <= v < s[i + 1];
    assert forall|j: int| 0 <= j < s.len() - 1 && #[trigger] s[j] <= v < s[j + 1] implies j == i by {
        lemma_slice_unique(s, v, i, j);
    }
}

/// Cluster `(ix, iy, iz)` holds the point, slices taken half-open so that
/// shared boundaries belong to exactly one slice.
pub open spec fn cell_contains(g: Grid, ix: int, iy: int, iz: int, p: Vec3i) -> bool {
    &&& g.xs@[ix] <= p.x < g.xs@[ix + 1]
    &&& g.ys@[iy] <= p.y < g.ys@[iy + 1]
    &&& g.zs@[iz] <= p.z < g.zs@[iz + 1]
}

/// Every point of the view volume lies in exactly one cluster: the grid
/// partitions the volume with no gaps and no overlaps.
pub proof fn lemma_grid_partition(g: Grid, p: Vec3i)
    requires
        g.wf(),
        g.xs@[0] <= p.x < g.xs@[g.nx as int],
        g.ys@[0] <= p.y < g.ys@[g.ny as int],
        g.zs@[0] <= p.z < g.zs@[g.nz as int],
    ensures
        exists|ix: int, iy: int, iz: int|
            #![trigger cell_contains(g, ix, iy, iz, p)]
            (0 <= ix < g.nx && 0 <= iy < g.ny && 0 <= iz < g.nz && cell_contains(g, ix, iy, iz, p))
                && (forall|jx: int, jy: int, jz: int|
                0 <= jx < g.nx && 0 <= jy < g.ny && 0 <= jz < g.nz && #[trigger] cell_contains(
                    g,
                    jx,
                    jy,
                    jz,
                    p,
                ) ==> jx == ix && jy == iy && jz == iz),
{
    lemma_slice_exists(g.xs@, p.x);
    lemma_slice_exists(g.ys@, p.y);
    lemma_slice_exists(g.zs@, p.z);
    let ix = choose|i: int| 0 <= i < g.xs@.len() - 1 && #[trigger] g.xs@[i] <= p.x < g.xs@[i + 1];
    let iy = choose|i: int| 0 <= i < g.ys@.len() - 1 && #[trigger] g.ys@[i] <= p.y < g.ys@[i + 1];
    let iz = choose|i: int| 0 <= i < g.zs@.len() - 1 && #[trigger] g.zs@[i] <= p.z < g.zs@[i + 1];
    assert(cell_contains(g, ix, iy, iz, p));
    assert forall|jx: int, jy: int, jz: int|
        0 <= jx < g.nx && 0 <= jy < g.ny && 0 <= jz < g.nz && #[trigger] cell_contains(
            g,
            jx,
            jy,
            jz,
            p,
        ) implies jx == ix && jy == iy && jz == iz by {
        lemma_slice_unique(g.xs@, p.x, ix, jx);
        lemma_slice_unique(g.ys@, p.y, iy, jy);
        lemma_slice_unique(g.zs@, p.z, iz, jz);
    }
}

/// Find the slice of `bounds` that contains `v`, if any.
pub fn locate(bounds: &Vec<i64>, v: i64) -> (r: Option<usize>)
    requires
        adj_increasing(bounds@),
        bounds@.len() >= 2,
    ensures
        match r {
            Some(i) => i + 1 < bounds@.len() && bounds@[i as int] <= v < bounds@[i as int + 1],
            None => !(bounds@[0] <= v < bounds@[bounds@.len() - 1]),
        },
{
    let n = bounds.len() - 1;
    let mut i: usize = 0;
    while i < n
        invariant
            n == bounds@.len() - 1,
            bounds@.len() >= 2,
            i <= n,
            forall|k: int| 0 <= k < i ==> !(#[trigger] bounds@[k] <= v < bounds@[k + 1]),
        decreases n - i,
    {
        if bounds[i] <= v && v < bounds[i + 1] {
            return Some(i);
        }
        i = i + 1;
    }
    proof {
        if bounds@[0] <= v < bounds@[bounds@.len() - 1] {
            lemma_slice_exists(bounds@, v);
        }
    }
    None
}

/// The cached grid: the parameters it was built from and the grid itself.
#[derive(Clone, Debug)]
pub struct CachedGrid {
    pub params: CameraParams,
    pub grid: Grid,
}

/// Rebuilds the cluster grid only when the camera projection changes.
#[derive(Clone, Debug)]
pub struct GridCache {
    pub entry: Option<CachedGrid>,
}

impl GridCache {
    pub open spec fn wf(self, cfg: GridConfig) -> bool {
        match self.entry {
            Some(c) => c.params.valid_for(cfg) && c.grid.derived_from(cfg, c.params)
                && c.grid.wf(),
            None => true,
        }
    }

    /// An empty cache: no grid has been built yet.
    pub fn new() -> (c: GridCache)
        ensures
            c.entry is None,
            forall|cfg: GridConfig| c.wf(cfg),
    {
        GridCache { entry: None }
    }

    /// Bring the cached grid up to date with this frame's camera projection.
    ///
    /// The grid is rebuilt on the first frame and whenever the projection
    /// parameters change; an unchanged projection reuses the cached grid, and
    /// a degenerate projection leaves the previous grid in place.
    pub fn refresh(&mut self, cfg: &GridConfig, cam: &CameraParams) -> (rebuilt: bool)
        requires
            cfg.wf(),
            old(self).wf(*cfg),
        ensures
            final(self).wf(*cfg),
            cam.valid_for(*cfg) ==> match final(self).entry {
                Some(c) => c.params == *cam && c.grid.derived_from(*cfg, *cam),
                None => false,
            },
            rebuilt == (cam.valid_for(*cfg) && match old(self).entry {
                Some(c) => c.params != *cam,
                None => true,
            }),
            !rebuilt ==> *final(self) == *old(self),
    {
        if !cam.check_for(cfg) {
            return false;
        }
        let rebuild = match &self.entry {
            Some(c) => !(c.params == *cam),
            None => true,
        };
        if rebuild {
            let grid = build_grid(cfg, cam);
            self.entry = Some(CachedGrid { params: *cam, grid });
        }
        rebuild
    }
}

} // verus!
