//! The renderable surface of one chunk.

use vstd::prelude::*;

use crate::camera::Vec3i;
use crate::voxel_gen::Vertex;

verus! {

/// Geometry of one chunk in its local voxel coordinates, the chunk's origin
/// in world voxel coordinates (the per-instance offset), and whether the
/// last culling pass found it in view.
#[derive(Debug)]
pub struct ChunkMesh {
    pub vertices: Vec<Vertex>,
    pub indices: Vec<u32>,
    pub offset: Vec3i,
    pub visible: bool,
}

/// Parameters of one indexed indirect draw.
#[derive(Clone, Copy, Debug, PartialEq, Eq, Structural)]
pub struct IndexedDraw {
    pub index_count: u32,
    pub instance_count: u32,
    pub first_index: u32,
    pub vertex_offset: i32,
    pub first_instance: u32,
}

impl ChunkMesh {
    /// A mesh of the given geometry at `offset`, visible until culled.
    pub fn new(vertices: Vec<Vertex>, indices: Vec<u32>, offset: Vec3i) -> (r: ChunkMesh)
        ensures
            r.vertices@ == vertices@,
            r.indices@ == indices@,
            r.offset == offset,
            r.visible,
    {
        ChunkMesh { vertices, indices, offset, visible: true }
    }

    /// One draw of the whole index list, one instance.
    pub fn get_indirect_command(&self) -> (r: IndexedDraw)
        requires
            self.indices@.len() <= u32::MAX,
        ensures
            r == (IndexedDraw {
                index_count: self.indices@.len() as u32,
                instance_count: 1,
                first_index: 0,
                vertex_offset: 0,
                first_instance: 0,
            }),
    {
        IndexedDraw {
            index_count: self.indices.len() as u32,
            instance_count: 1,
            first_index: 0,
            vertex_offset: 0,
            first_instance: 0,
        }
    }
}

} // verus!
