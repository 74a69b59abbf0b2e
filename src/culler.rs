//! View-frustum culling of chunks, in exact integer arithmetic.
//!
//! A plane is kept as an integer normal `n` of any length, an anchor point
//! `a` and an offset `o` along the unit normal, so that the signed distance of
//! a point `c` is `n·(c − a)/|n| − o`. Comparing such a distance with a
//! radius never needs the square root of `|n|²`: see [`ge_scaled_root`].

use vstd::prelude::*;

use crate::camera::{as_int3, dot, sub3, within, Camera, Vec3i, COORD_LIMIT, DIR_LIMIT};
use crate::world::{chunk_origin, key_in_range, Chunk, ChunkKey, CHUNK_FINE};

verus! {

/// Bound on the numerators and denominators of a lens's slopes.
pub const SLOPE_LIMIT: i64 = 2048;

/// Bound on near and far distances and on sphere radii, in fine units.
pub const DEPTH_LIMIT: i64 = 0x20_0000;

/// `s ≥ t·√q` for `q ≥ 0`, decided on integers.
pub open spec fn ge_scaled_root(s: int, t: int, q: int) -> bool {
    if t <= 0 {
        s >= 0 || s * s <= t * t * q
    } else {
        s >= 0 && s * s >= t * t * q
    }
}

/// Cross product.
pub open spec fn cross(a: (int, int, int), b: (int, int, int)) -> (int, int, int) {
    (a.1 * b.2 - a.2 * b.1, a.2 * b.0 - a.0 * b.2, a.0 * b.1 - a.1 * b.0)
}

/// `a·p + b·q`.
pub open spec fn comb(a: (int, int, int), p: int, b: (int, int, int), q: int) -> (int, int, int) {
    (a.0 * p + b.0 * q, a.1 * p + b.1 * q, a.2 * p + b.2 * q)
}

pub open spec fn neg3(a: (int, int, int)) -> (int, int, int) {
    (-a.0, -a.1, -a.2)
}

/// A plane: the points `c` with `normal·(c − anchor)/|normal| == offset`.
#[derive(Clone, Copy, Debug)]
pub struct Plane {
    pub normal: Vec3i,
    pub anchor: Vec3i,
    pub offset: i64,
}

/// Whether a sphere of radius `r` around `c` reaches the side of `p` that its
/// normal points to: its signed distance is at least `-r`. A plane with a
/// zero normal admits everything.
pub open spec fn plane_admits(p: Plane, c: (int, int, int), r: int) -> bool {
    let n = as_int3(p.normal);
    ge_scaled_root(dot(n, sub3(c, as_int3(p.anchor))), p.offset - r, dot(n, n))
}

/// The optics of a view: the vertical half-angle's tangent `v_num / v_den`,
/// the horizontal one's `h_num / h_den` (the vertical one times the aspect
/// ratio), and the near and far distances in fine units.
#[derive(Clone, Copy, Debug)]
pub struct Lens {
    pub v_num: i64,
    pub v_den: i64,
    pub h_num: i64,
    pub h_den: i64,
    pub z_near: i64,
    pub z_far: i64,
}

impl Lens {
    pub open spec fn wf(&self) -> bool {
        &&& 0 <= self.v_num <= SLOPE_LIMIT
        &&& 0 < self.v_den <= SLOPE_LIMIT
        &&& 0 <= self.h_num <= SLOPE_LIMIT
        &&& 0 < self.h_den <= SLOPE_LIMIT
        &&& 0 <= self.z_near <= self.z_far <= DEPTH_LIMIT
    }

    /// The chunk view: 80° vertical field of view (tan 40° ≈ 0.8391), a
    /// 1200 × 900 window, near plane at 0.1 voxel and far plane at 1000.
    pub fn standard() -> (r: Lens)
        ensures
            r.wf(),
            r == Lens::spec_standard(),
    {
        Lens { v_num: 839, v_den: 1000, h_num: 1119, h_den: 1000, z_near: 100, z_far: 1_000_000 }
    }

    pub open spec fn spec_standard() -> Lens {
        Lens { v_num: 839, v_den: 1000, h_num: 1119, h_den: 1000, z_near: 100, z_far: 1_000_000 }
    }
}

/// The six planes of a view frustum, each with its normal pointing inwards.
#[derive(Clone, Copy, Debug)]
pub struct Frustum {
    pub top_face: Plane,
    pub bottom_face: Plane,
    pub right_face: Plane,
    pub left_face: Plane,
    pub far_face: Plane,
    pub near_face: Plane,
}

pub open spec fn plane_of(normal: (int, int, int), anchor: Vec3i, offset: int) -> Plane {
    Plane { normal: (normal.0 as i64, normal.1 as i64, normal.2 as i64), anchor, offset: offset as i64 }
}

/// The frustum of `cam` through `lens`. The side planes pass through the
/// camera; their normals are those of the far rectangle's edges, scaled by
/// positive factors (which leave the planes unchanged).
pub open spec fn frustum_of(cam: Camera, lens: Lens) -> Frustum {
    let f = as_int3(cam.front);
    let rt = as_int3(cam.right);
    let u = as_int3(cam.up);
    Frustum {
        near_face: plane_of(f, cam.pos, lens.z_near as int),
        far_face: plane_of(neg3(f), cam.pos, -lens.z_far),
        right_face: plane_of(cross(comb(f, lens.h_den as int, rt, lens.h_num as int), u), cam.pos, 0),
        left_face: plane_of(cross(u, comb(f, lens.h_den as int, rt, -lens.h_num)), cam.pos, 0),
        top_face: plane_of(cross(rt, comb(f, lens.v_den as int, u, lens.v_num as int)), cam.pos, 0),
        bottom_face: plane_of(cross(comb(f, lens.v_den as int, u, -lens.v_num), rt), cam.pos, 0),
    }
}

/// Whether a sphere is on the inner side of all six planes (or cuts them).
pub open spec fn sphere_in_frustum(fr: Frustum, c: (int, int, int), r: int) -> bool {
    &&& plane_admits(fr.left_face, c, r)
    &&& plane_admits(fr.right_face, c, r)
    &&& plane_admits(fr.far_face, c, r)
    &&& plane_admits(fr.near_face, c, r)
    &&& plane_admits(fr.top_face, c, r)
    &&& plane_admits(fr.bottom_face, c, r)
}

/// Whether chunk `k` may be seen from `cam`: the sphere of radius one chunk
/// edge around its origin meets the standard frustum.
pub open spec fn chunk_visible(cam: Camera, k: ChunkKey) -> bool {
    sphere_in_frustum(frustum_of(cam, Lens::spec_standard()), chunk_origin(k), CHUNK_FINE as int)
}

/// A sphere centred on the camera is seen, whatever the camera's basis, as
/// long as its radius reaches the near plane.
pub proof fn lemma_sphere_at_camera_visible(cam: Camera, lens: Lens, r: int)
    requires
        cam.wf(),
        lens.wf(),
        lens.z_near <= r,
    ensures
        sphere_in_frustum(frustum_of(cam, lens), as_int3(cam.pos), r),
{
    let fr = frustum_of(cam, lens);
    let c = as_int3(cam.pos);
    assert forall|n: (int, int, int)| #[trigger] dot(n, sub3(c, c)) == 0 by {
        assert(sub3(c, c) == (0int, 0int, 0int));
        assert(n.0 * 0 == 0 && n.1 * 0 == 0 && n.2 * 0 == 0) by (nonlinear_arith);
    }
    assert(plane_admits(fr.near_face, c, r));
    assert(plane_admits(fr.far_face, c, r));
    assert(plane_admits(fr.left_face, c, r));
    assert(plane_admits(fr.right_face, c, r));
    assert(plane_admits(fr.top_face, c, r));
    assert(plane_admits(fr.bottom_face, c, r));
}

/// A sphere centred `k` front-lengths behind the camera, farther than its
/// radius plus the near distance, is not seen: it lies wholly behind the
/// near plane.
pub proof fn lemma_sphere_behind_camera_hidden(cam: Camera, lens: Lens, r: int, k: int)
    requires
        cam.wf(),
        lens.wf(),
        0 <= r,
        0 < k,
        dot(as_int3(cam.front), as_int3(cam.front)) > 0,
        k * k * dot(as_int3(cam.front), as_int3(cam.front)) > (r + lens.z_near) * (r + lens.z_near),
    ensures
        !sphere_in_frustum(
            frustum_of(cam, lens),
            sub3(as_int3(cam.pos), (k * cam.front.0, k * cam.front.1, k * cam.front.2)),
            r,
        ),
{
    let f = as_int3(cam.front);
    let p = as_int3(cam.pos);
    let c = sub3(p, (k * f.0, k * f.1, k * f.2));
    let q = dot(f, f);
    let near = lens.z_near as int;
    let fr = frustum_of(cam, lens);
    assert(as_int3(fr.near_face.normal) == f);
    assert(sub3(c, p) == (-(k * f.0), -(k * f.1), -(k * f.2)));
    let s = dot(f, sub3(c, p));
    assert(s == -(k * q)) by (nonlinear_arith)
        requires s == f.0 * (-(k * f.0)) + f.1 * (-(k * f.1)) + f.2 * (-(k * f.2)), q == f.0 * f.0 + f.1 * f.1 + f.2 * f.2;
    assert(k * q > 0) by (nonlinear_arith)
        requires k > 0, q > 0;
    let t = near - r;
    if t <= 0 {
        assert((r + near) * (r + near) >= t * t) by (nonlinear_arith)
            requires t == near - r, 0 <= r, 0 <= near;
        assert(k * k * q > t * t);
        assert(s * s > t * t * q) by (nonlinear_arith)
            requires s == -(k * q), k * k * q > t * t, q > 0;
    }
    assert(!plane_admits(fr.near_face, c, r));
}

/// `|a·b| ≤ A·B` when `|a| ≤ A` and `|b| ≤ B`.
pub proof fn lemma_mul_bounded(a: int, b: int, ba: int, bb: int)
    requires
        -ba <= a <= ba,
        -bb <= b <= bb,
    ensures
        -(ba * bb) <= a * b <= ba * bb,
{
    if a >= 0 && b >= 0 {
        assert(a * b <= ba * bb) by (nonlinear_arith)
            requires 0 <= a <= ba, 0 <= b <= bb;
        assert(a * b >= 0) by (nonlinear_arith)
            requires 0 <= a, 0 <= b;
    } else if a >= 0 {
        assert(a * (-b) <= ba * bb) by (nonlinear_arith)
            requires 0 <= a <= ba, 0 <= -b <= bb;
        assert(a * (-b) >= 0) by (nonlinear_arith)
            requires 0 <= a, 0 <= -b;
        assert(a * b == -(a * (-b))) by (nonlinear_arith);
    } else if b >= 0 {
        assert((-a) * b <= ba * bb) by (nonlinear_arith)
            requires 0 <= -a <= ba, 0 <= b <= bb;
        assert((-a) * b >= 0) by (nonlinear_arith)
            requires 0 <= -a, 0 <= b;
        assert(a * b == -((-a) * b)) by (nonlinear_arith);
    } else {
        assert((-a) * (-b) <= ba * bb) by (nonlinear_arith)
            requires 0 <= -a <= ba, 0 <= -b <= bb;
        assert((-a) * (-b) >= 0) by (nonlinear_arith)
            requires 0 <= -a, 0 <= -b;
        assert(a * b == (-a) * (-b)) by (nonlinear_arith);
    }
}

/// Bound on the components of a frustum plane's normal.
pub const NORMAL_LIMIT: i64 = 0x2000_0000;

/// The plane's numbers lie in the ranges for which [`Plane::admits`] is
/// exact.
pub open spec fn plane_bounded(p: Plane) -> bool {
    &&& within(p.normal, NORMAL_LIMIT as int)
    &&& within(p.anchor, COORD_LIMIT as int)
    &&& -DEPTH_LIMIT <= p.offset <= DEPTH_LIMIT
}

pub open spec fn frustum_bounded(f: Frustum) -> bool {
    &&& plane_bounded(f.top_face)
    &&& plane_bounded(f.bottom_face)
    &&& plane_bounded(f.right_face)
    &&& plane_bounded(f.left_face)
    &&& plane_bounded(f.far_face)
    &&& plane_bounded(f.near_face)
}

fn comb3(a: Vec3i, p: i64, b: Vec3i, q: i64) -> (r: Vec3i)
    requires
        within(a, DIR_LIMIT as int),
        within(b, DIR_LIMIT as int),
        -SLOPE_LIMIT <= p <= SLOPE_LIMIT,
        -SLOPE_LIMIT <= q <= SLOPE_LIMIT,
    ensures
        as_int3(r) == comb(as_int3(a), p as int, as_int3(b), q as int),
        within(r, 0x10_0000),
{
    proof {
        lemma_mul_bounded(a.0 as int, p as int, 256, 2048);
        lemma_mul_bounded(a.1 as int, p as int, 256, 2048);
        lemma_mul_bounded(a.2 as int, p as int, 256, 2048);
        lemma_mul_bounded(b.0 as int, q as int, 256, 2048);
        lemma_mul_bounded(b.1 as int, q as int, 256, 2048);
        lemma_mul_bounded(b.2 as int, q as int, 256, 2048);
    }
    (a.0 * p + b.0 * q, a.1 * p + b.1 * q, a.2 * p + b.2 * q)
}

fn cross3(a: Vec3i, b: Vec3i) -> (r: Vec3i)
    requires
        (within(a, 0x10_0000) && within(b, DIR_LIMIT as int)) || (within(a, DIR_LIMIT as int) && within(
            b,
            0x10_0000,
        )),
    ensures
        as_int3(r) == cross(as_int3(a), as_int3(b)),
        within(r, NORMAL_LIMIT as int),
{
    proof {
        if within(a, 0x10_0000) && within(b, DIR_LIMIT as int) {
            lemma_mul_bounded(a.1 as int, b.2 as int, 0x10_0000, 256);
            lemma_mul_bounded(a.2 as int, b.1 as int, 0x10_0000, 256);
            lemma_mul_bounded(a.2 as int, b.0 as int, 0x10_0000, 256);
            lemma_mul_bounded(a.0 as int, b.2 as int, 0x10_0000, 256);
            lemma_mul_bounded(a.0 as int, b.1 as int, 0x10_0000, 256);
            lemma_mul_bounded(a.1 as int, b.0 as int, 0x10_0000, 256);
        } else {
            lemma_mul_bounded(a.1 as int, b.2 as int, 256, 0x10_0000);
            lemma_mul_bounded(a.2 as int, b.1 as int, 256, 0x10_0000);
            lemma_mul_bounded(a.2 as int, b.0 as int, 256, 0x10_0000);
            lemma_mul_bounded(a.0 as int, b.2 as int, 256, 0x10_0000);
            lemma_mul_bounded(a.0 as int, b.1 as int, 256, 0x10_0000);
            lemma_mul_bounded(a.1 as int, b.0 as int, 256, 0x10_0000);
        }
    }
    (a.1 * b.2 - a.2 * b.1, a.2 * b.0 - a.0 * b.2, a.0 * b.1 - a.1 * b.0)
}

impl Plane {
    /// The plane through `anchor` shifted by `offset` along the unit normal.
    pub fn new(anchor: Vec3i, normal: Vec3i, offset: i64) -> (r: Plane)
        ensures
            r == (Plane { normal, anchor, offset }),
    {
        Plane { normal, anchor, offset }
    }

    /// Whether the sphere of radius `r` around `c` has signed distance at
    /// least `-r` from the plane.
    pub fn admits(&self, c: Vec3i, r: i64) -> (b: bool)
        requires
            plane_bounded(*self),
            within(c, 0x1_0000_0000),
            0 <= r <= DEPTH_LIMIT,
        ensures
            b == plane_admits(*self, as_int3(c), r as int),
    {
        let n = self.normal;
        let dx = c.0 as i128 - self.anchor.0 as i128;
        let dy = c.1 as i128 - self.anchor.1 as i128;
        let dz = c.2 as i128 - self.anchor.2 as i128;
        let nx = n.0 as i128;
        let ny = n.1 as i128;
        let nz = n.2 as i128;
        let ghost dl: int = 0x1_8000_0000;
        let ghost nl: int = 0x2000_0000;
        proof {
            lemma_mul_bounded(nx as int, dx as int, nl, dl);
            lemma_mul_bounded(ny as int, dy as int, nl, dl);
            lemma_mul_bounded(nz as int, dz as int, nl, dl);
            lemma_mul_bounded(nx as int, nx as int, nl, nl);
            lemma_mul_bounded(ny as int, ny as int, nl, nl);
            lemma_mul_bounded(nz as int, nz as int, nl, nl);
        }
        let s = nx * dx + ny * dy + nz * dz;
        let q = nx * nx + ny * ny + nz * nz;
        let t = self.offset as i128 - r as i128;
        let ghost sl: int = 0x9000_0000_0000_0000;
        let ghost ql: int = 0xc00_0000_0000_0000;
        let ghost tl: int = 0x40_0000;
        proof {
            lemma_mul_bounded(s as int, s as int, sl, sl);
            lemma_mul_bounded(t as int, t as int, tl, tl);
            lemma_mul_bounded((t * t) as int, q as int, tl * tl, ql);
            assert(sl * sl == 0x5100_0000_0000_0000_0000_0000_0000_0000);
            assert(tl * tl == 0x1000_0000_0000);
            assert((tl * tl) * ql == 0xc0_0000_0000_0000_0000_0000_0000);
        }
        if t <= 0 {
            s >= 0 || s * s <= t * t * q
        } else {
            s >= 0 && s * s >= t * t * q
        }
    }
}

impl Frustum {
    /// The frustum of `cam` through `lens`, all six planes computed afresh.
    pub fn sample_from_camera(cam: &Camera, lens: &Lens) -> (r: Frustum)
        requires
            cam.wf(),
            lens.wf(),
        ensures
            r == frustum_of(*cam, *lens),
            frustum_bounded(r),
    {
        let f = cam.front;
        let neg_f = (-f.0, -f.1, -f.2);
        let right_n = cross3(comb3(f, lens.h_den, cam.right, lens.h_num), cam.up);
        let left_n = cross3(cam.up, comb3(f, lens.h_den, cam.right, -lens.h_num));
        let top_n = cross3(cam.right, comb3(f, lens.v_den, cam.up, lens.v_num));
        let bottom_n = cross3(comb3(f, lens.v_den, cam.up, -lens.v_num), cam.right);
        Frustum {
            near_face: Plane::new(cam.pos, f, lens.z_near),
            far_face: Plane::new(cam.pos, neg_f, -lens.z_far),
            right_face: Plane::new(cam.pos, right_n, 0),
            left_face: Plane::new(cam.pos, left_n, 0),
            top_face: Plane::new(cam.pos, top_n, 0),
            bottom_face: Plane::new(cam.pos, bottom_n, 0),
        }
    }
}

/// A bounding sphere.
#[derive(Clone, Copy, Debug)]
pub struct Sphere {
    pub center: Vec3i,
    pub radius: i64,
}

impl Sphere {
    pub fn is_on_or_forward_plane(&self, plane: &Plane) -> (b: bool)
        requires
            plane_bounded(*plane),
            within(self.center, 0x1_0000_0000),
            0 <= self.radius <= DEPTH_LIMIT,
        ensures
            b == plane_admits(*plane, as_int3(self.center), self.radius as int),
    {
        plane.admits(self.center, self.radius)
    }

    /// Whether the sphere meets the frustum: it is on or in front of each of
    /// the six planes.
    pub fn is_on_frustrum(&self, frustum: &Frustum) -> (b: bool)
        requires
            frustum_bounded(*frustum),
            within(self.center, 0x1_0000_0000),
            0 <= self.radius <= DEPTH_LIMIT,
        ensures
            b == sphere_in_frustum(*frustum, as_int3(self.center), self.radius as int),
    {
        self.is_on_or_forward_plane(&frustum.left_face) && self.is_on_or_forward_plane(&frustum.right_face)
            && self.is_on_or_forward_plane(&frustum.far_face) && self.is_on_or_forward_plane(
            &frustum.near_face,
        ) && self.is_on_or_forward_plane(&frustum.top_face) && self.is_on_or_forward_plane(
            &frustum.bottom_face,
        )
    }
}

/// Decides `s ≥ t·√q`; squares are only formed where they fit.
fn ge_root(s: i128, t: i128, q: i128) -> (b: bool)
    requires
        -0x100_0000_0000_0000_0000 <= s <= 0x100_0000_0000_0000_0000,
        -0x40_0000 <= t <= 0x40_0000,
        0 <= q <= 0xc00_0000_0000_0000,
    ensures
        b == ge_scaled_root(s as int, t as int, q as int),
{
    let big: i128 = 0x10_0000_0000_0000;
    proof {
        lemma_mul_bounded(t as int, t as int, 0x40_0000, 0x40_0000);
        lemma_mul_bounded((t * t) as int, q as int, 0x1000_0000_0000, 0xc00_0000_0000_0000);
        assert(0x1000_0000_0000 * 0xc00_0000_0000_0000 < big * big);
        assert(t * t * q < big * big);
        if s >= big {
            assert(s * s >= big * big) by (nonlinear_arith)
                requires s >= big, big > 0;
        }
        if s <= -big {
            assert(s * s >= big * big) by (nonlinear_arith)
                requires s <= -big, big > 0;
        }
    }
    if s >= 0 {
        if t <= 0 {
            return true;
        }
        if s >= big {
            return true;
        }
    } else {
        if t > 0 {
            return false;
        }
        if s <= -big {
            return false;
        }
    }
    proof {
        lemma_mul_bounded(s as int, s as int, big as int, big as int);
    }
    if t <= 0 {
        s * s <= t * t * q
    } else {
        s * s >= t * t * q
    }
}

/// Bound on the entries of a model transform's linear part.
pub const MODEL_LIMIT: i64 = 16;

/// Bound on the coordinates of a box corner and of a translation.
pub const BOX_LIMIT: i64 = 0x1_0000_0000;

/// An affine placement with an integer linear part given by its columns.
#[derive(Clone, Copy, Debug)]
pub struct Transform {
    pub x_axis: Vec3i,
    pub y_axis: Vec3i,
    pub z_axis: Vec3i,
    pub translation: Vec3i,
}

impl Transform {
    pub open spec fn wf(&self) -> bool {
        &&& within(self.x_axis, MODEL_LIMIT as int)
        &&& within(self.y_axis, MODEL_LIMIT as int)
        &&& within(self.z_axis, MODEL_LIMIT as int)
        &&& within(self.translation, BOX_LIMIT as int)
    }
}

pub open spec fn abs(a: int) -> int {
    if a < 0 {
        -a
    } else {
        a
    }
}

pub open spec fn abs3(a: (int, int, int)) -> (int, int, int) {
    (abs(a.0), abs(a.1), abs(a.2))
}

pub open spec fn add3(a: (int, int, int), b: (int, int, int)) -> (int, int, int) {
    (a.0 + b.0, a.1 + b.1, a.2 + b.2)
}

pub open spec fn scale3(a: (int, int, int), k: int) -> (int, int, int) {
    (a.0 * k, a.1 * k, a.2 * k)
}

/// The linear part of `m` applied to `v`.
pub open spec fn apply_linear(m: Transform, v: (int, int, int)) -> (int, int, int) {
    add3(
        add3(scale3(as_int3(m.x_axis), v.0), scale3(as_int3(m.y_axis), v.1)),
        scale3(as_int3(m.z_axis), v.2),
    )
}

/// The linear part of `m` with every entry replaced by its magnitude,
/// applied to `v`: how far extents reach once the box is transformed.
pub open spec fn apply_abs_linear(m: Transform, v: (int, int, int)) -> (int, int, int) {
    add3(
        add3(scale3(abs3(as_int3(m.x_axis)), v.0), scale3(abs3(as_int3(m.y_axis)), v.1)),
        scale3(abs3(as_int3(m.z_axis)), v.2),
    )
}

/// An axis-aligned box between two opposite corners, in fine units.
#[derive(Clone, Copy, Debug)]
pub struct AABB {
    pub min: Vec3i,
    pub max: Vec3i,
}

/// Whether the box with doubled centre `dc` and doubled extents `de`
/// reaches the inner side of `p`: the signed distance of its centre is at
/// least minus its extents projected on the normal.
pub open spec fn box_admits(p: Plane, dc: (int, int, int), de: (int, int, int)) -> bool {
    let n = as_int3(p.normal);
    ge_scaled_root(
        dot(n, sub3(dc, scale3(as_int3(p.anchor), 2))) + dot(abs3(n), de),
        2 * p.offset,
        dot(n, n),
    )
}

/// Whether the box `b` placed by `m` meets the frustum.
pub open spec fn box_in_frustum(fr: Frustum, b: AABB, m: Transform) -> bool {
    let dc = add3(apply_linear(m, add3(as_int3(b.min), as_int3(b.max))), scale3(as_int3(m.translation), 2));
    let de = apply_abs_linear(m, sub3(as_int3(b.max), as_int3(b.min)));
    &&& box_admits(fr.left_face, dc, de)
    &&& box_admits(fr.right_face, dc, de)
    &&& box_admits(fr.top_face, dc, de)
    &&& box_admits(fr.bottom_face, dc, de)
    &&& box_admits(fr.near_face, dc, de)
    &&& box_admits(fr.far_face, dc, de)
}

fn abs_i128(a: i128) -> (r: i128)
    requires
        a > i128::MIN,
    ensures
        r == abs(a as int),
{
    if a < 0 {
        -a
    } else {
        a
    }
}

/// `m`'s linear part (or its magnitude) applied to `v`.
fn linear3(m: &Transform, v: (i128, i128, i128), magnitude: bool) -> (r: (i128, i128, i128))
    requires
        m.wf(),
        -0x2_0000_0000 <= v.0 <= 0x2_0000_0000,
        -0x2_0000_0000 <= v.1 <= 0x2_0000_0000,
        -0x2_0000_0000 <= v.2 <= 0x2_0000_0000,
    ensures
        !magnitude ==> (r.0 as int, r.1 as int, r.2 as int) == apply_linear(*m, (v.0 as int, v.1 as int, v.2 as int)),
        magnitude ==> (r.0 as int, r.1 as int, r.2 as int) == apply_abs_linear(*m, (v.0 as int, v.1 as int, v.2 as int)),
        -0x80_0000_0000 <= r.0 <= 0x80_0000_0000,
        -0x80_0000_0000 <= r.1 <= 0x80_0000_0000,
        -0x80_0000_0000 <= r.2 <= 0x80_0000_0000,
{
    let (mut a, mut b, mut c) = (m.x_axis, m.y_axis, m.z_axis);
    let (mut a0, mut a1, mut a2) = (a.0 as i128, a.1 as i128, a.2 as i128);
    let (mut b0, mut b1, mut b2) = (b.0 as i128, b.1 as i128, b.2 as i128);
    let (mut c0, mut c1, mut c2) = (c.0 as i128, c.1 as i128, c.2 as i128);
    if magnitude {
        a0 = abs_i128(a0);
        a1 = abs_i128(a1);
        a2 = abs_i128(a2);
        b0 = abs_i128(b0);
        b1 = abs_i128(b1);
        b2 = abs_i128(b2);
        c0 = abs_i128(c0);
        c1 = abs_i128(c1);
        c2 = abs_i128(c2);
    }
    let ghost vb: int = 0x2_0000_0000;
    proof {
        lemma_mul_bounded(a0 as int, v.0 as int, 16, vb);
        lemma_mul_bounded(a1 as int, v.0 as int, 16, vb);
        lemma_mul_bounded(a2 as int, v.0 as int, 16, vb);
        lemma_mul_bounded(b0 as int, v.1 as int, 16, vb);
        lemma_mul_bounded(b1 as int, v.1 as int, 16, vb);
        lemma_mul_bounded(b2 as int, v.1 as int, 16, vb);
        lemma_mul_bounded(c0 as int, v.2 as int, 16, vb);
        lemma_mul_bounded(c1 as int, v.2 as int, 16, vb);
        lemma_mul_bounded(c2 as int, v.2 as int, 16, vb);
    }
    (a0 * v.0 + b0 * v.1 + c0 * v.2, a1 * v.0 + b1 * v.1 + c1 * v.2, a2 * v.0 + b2 * v.1 + c2 * v.2)
}

impl AABB {
    /// The box between the corners `min` and `max`.
    pub fn new(min: Vec3i, max: Vec3i) -> (r: AABB)
        ensures
            r == (AABB { min, max }),
    {
        AABB { min, max }
    }

    fn admits_doubled(plane: &Plane, dc: (i128, i128, i128), de: (i128, i128, i128)) -> (b: bool)
        requires
            plane_bounded(*plane),
            -0x100_0000_0000 <= dc.0 <= 0x100_0000_0000,
            -0x100_0000_0000 <= dc.1 <= 0x100_0000_0000,
            -0x100_0000_0000 <= dc.2 <= 0x100_0000_0000,
            -0x80_0000_0000 <= de.0 <= 0x80_0000_0000,
            -0x80_0000_0000 <= de.1 <= 0x80_0000_0000,
            -0x80_0000_0000 <= de.2 <= 0x80_0000_0000,
        ensures
            b == box_admits(*plane, (dc.0 as int, dc.1 as int, dc.2 as int), (de.0 as int, de.1 as int, de.2 as int)),
    {
        let n = plane.normal;
        let (nx, ny, nz) = (n.0 as i128, n.1 as i128, n.2 as i128);
        let dx = dc.0 - 2 * plane.anchor.0 as i128;
        let dy = dc.1 - 2 * plane.anchor.1 as i128;
        let dz = dc.2 - 2 * plane.anchor.2 as i128;
        let (ax, ay, az) = (abs_i128(nx), abs_i128(ny), abs_i128(nz));
        let ghost nl: int = 0x2000_0000;
        let ghost dl: int = 0x200_0000_0000;
        let ghost el: int = 0x80_0000_0000;
        proof {
            lemma_mul_bounded(nx as int, dx as int, nl, dl);
            lemma_mul_bounded(ny as int, dy as int, nl, dl);
            lemma_mul_bounded(nz as int, dz as int, nl, dl);
            lemma_mul_bounded(ax as int, de.0 as int, nl, el);
            lemma_mul_bounded(ay as int, de.1 as int, nl, el);
            lemma_mul_bounded(az as int, de.2 as int, nl, el);
            lemma_mul_bounded(nx as int, nx as int, nl, nl);
            lemma_mul_bounded(ny as int, ny as int, nl, nl);
            lemma_mul_bounded(nz as int, nz as int, nl, nl);
        }
        let s = nx * dx + ny * dy + nz * dz + (ax * de.0 + ay * de.1 + az * de.2);
        assert(nx * nx >= 0 && ny * ny >= 0 && nz * nz >= 0) by (nonlinear_arith);
        let q = nx * nx + ny * ny + nz * nz;
        ge_root(s, 2 * plane.offset as i128, q)
    }

    /// Whether the box, placed by `model`, meets the frustum: it reaches the
    /// inner side of each of the six planes.
    pub fn is_on_frustrum(&self, frustum: &Frustum, model: &Transform) -> (b: bool)
        requires
            frustum_bounded(*frustum),
            model.wf(),
            within(self.min, BOX_LIMIT as int),
            within(self.max, BOX_LIMIT as int),
        ensures
            b == box_in_frustum(*frustum, *self, *model),
    {
        let sum = (
            self.min.0 as i128 + self.max.0 as i128,
            self.min.1 as i128 + self.max.1 as i128,
            self.min.2 as i128 + self.max.2 as i128,
        );
        let span = (
            self.max.0 as i128 - self.min.0 as i128,
            self.max.1 as i128 - self.min.1 as i128,
            self.max.2 as i128 - self.min.2 as i128,
        );
        let lc = linear3(model, sum, false);
        let t = model.translation;
        let dc = (lc.0 + 2 * t.0 as i128, lc.1 + 2 * t.1 as i128, lc.2 + 2 * t.2 as i128);
        let de = linear3(model, span, true);
        AABB::admits_doubled(&frustum.left_face, dc, de) && AABB::admits_doubled(&frustum.right_face, dc, de)
            && AABB::admits_doubled(&frustum.top_face, dc, de) && AABB::admits_doubled(&frustum.bottom_face, dc, de)
            && AABB::admits_doubled(&frustum.near_face, dc, de) && AABB::admits_doubled(&frustum.far_face, dc, de)
    }
}

/// Decides which chunks are in view.
pub struct ChunkCuller {}

impl ChunkCuller {
    /// Whether chunk `k` may be seen from `camera`: the sphere of radius one
    /// chunk edge around the chunk's origin meets the standard frustum.
    pub fn is_visible(k: ChunkKey, camera: &Camera) -> (b: bool)
        requires
            camera.wf(),
            key_in_range(k),
        ensures
            b == chunk_visible(*camera, k),
    {
        let frustum = Frustum::sample_from_camera(camera, &Lens::standard());
        let volume = Sphere { center: Chunk::get_worldpos(&k), radius: CHUNK_FINE };
        volume.is_on_frustrum(&frustum)
    }
}

} // verus!
