//! The camera as the streaming and culling logic reads it.

use vstd::prelude::*;

verus! {

/// Fine units per voxel edge: positions are stored in thousandths of a voxel.
pub const FINE_PER_VOXEL: i64 = 1000;

/// Bound on the magnitude of each camera coordinate, in fine units.
pub const COORD_LIMIT: i64 = 0x8000_0000;

/// Bound on the magnitude of each component of a basis direction.
pub const DIR_LIMIT: i64 = 256;

/// A point or a vector with three integer components.
pub type Vec3i = (i64, i64, i64);

pub open spec fn within(v: Vec3i, b: int) -> bool {
    -b <= v.0 <= b && -b <= v.1 <= b && -b <= v.2 <= b
}

/// Camera pose: `pos` in fine units, and the `front`, `right` and `up` basis
/// directions as integer vectors of any positive length (the host scales
/// its unit vectors into `[-DIR_LIMIT, DIR_LIMIT]`).
#[derive(Clone, Copy, Debug)]
pub struct Camera {
    pub pos: Vec3i,
    pub front: Vec3i,
    pub right: Vec3i,
    pub up: Vec3i,
}

impl Camera {
    /// The pose lies inside the ranges for which every computation on it is
    /// exact.
    pub open spec fn wf(&self) -> bool {
        &&& within(self.pos, COORD_LIMIT as int)
        &&& within(self.front, DIR_LIMIT as int)
        &&& within(self.right, DIR_LIMIT as int)
        &&& within(self.up, DIR_LIMIT as int)
    }

    /// Whether the pose lies inside the exact ranges; see [`Camera::wf`].
    pub fn in_range(&self) -> (r: bool)
        ensures
            r == self.wf(),
    {
        within_exec(self.pos, COORD_LIMIT) && within_exec(self.front, DIR_LIMIT) && within_exec(self.right, DIR_LIMIT)
            && within_exec(self.up, DIR_LIMIT)
    }
}

/// Whether each component of `v` lies in `[-b, b]`.
pub fn within_exec(v: Vec3i, b: i64) -> (r: bool)
    requires
        b >= 0,
    ensures
        r == within(v, b as int),
{
    -b <= v.0 && v.0 <= b && -b <= v.1 && v.1 <= b && -b <= v.2 && v.2 <= b
}

/// Dot product.
pub open spec fn dot(a: (int, int, int), b: (int, int, int)) -> int {
    a.0 * b.0 + a.1 * b.1 + a.2 * b.2
}

/// Difference `a - b`.
pub open spec fn sub3(a: (int, int, int), b: (int, int, int)) -> (int, int, int) {
    (a.0 - b.0, a.1 - b.1, a.2 - b.2)
}

pub open spec fn as_int3(v: Vec3i) -> (int, int, int) {
    (v.0 as int, v.1 as int, v.2 as int)
}

/// Squared Euclidean distance between two points.
pub open spec fn dist_sq(a: (int, int, int), b: (int, int, int)) -> int {
    dot(sub3(a, b), sub3(a, b))
}

/// Squared distance between two points whose coordinates are within
/// `2^33`, computed without overflow.
pub fn distance_sq(a: Vec3i, b: Vec3i) -> (r: i128)
    requires
        within(a, 0x2_0000_0000),
        within(b, 0x2_0000_0000),
    ensures
        r == dist_sq(as_int3(a), as_int3(b)),
        0 <= r <= 0x30_0000_0000_0000_0000,
{
    let dx = a.0 as i128 - b.0 as i128;
    let dy = a.1 as i128 - b.1 as i128;
    let dz = a.2 as i128 - b.2 as i128;
    assert(dx * dx <= 0x10_0000_0000_0000_0000) by (nonlinear_arith)
        requires -0x4_0000_0000 <= dx <= 0x4_0000_0000;
    assert(dy * dy <= 0x10_0000_0000_0000_0000) by (nonlinear_arith)
        requires -0x4_0000_0000 <= dy <= 0x4_0000_0000;
    assert(dz * dz <= 0x10_0000_0000_0000_0000) by (nonlinear_arith)
        requires -0x4_0000_0000 <= dz <= 0x4_0000_0000;
    assert(dx * dx >= 0 && dy * dy >= 0 && dz * dz >= 0) by (nonlinear_arith);
    dx * dx + dy * dy + dz * dz
}

} // verus!
