//! The work of the background chunk builders.

use vstd::prelude::*;

use crate::camera::{as_int3, dist_sq, distance_sq, Camera};
use crate::chunkmesh::ChunkMesh;
use crate::voxel_gen::MAX_LOD;
use crate::world::{chunk_origin, generated_from, key_in_range, meshed, Chunk, ChunkKey, CHUNK_FINE};

verus! {

/// Distance beyond which meshes are dropped, in fine units (400 voxels).
pub const DRAW_DISTANCE: i64 = 400_000;

/// Level of detail for a chunk at squared distance `d2` (fine units): full
/// detail inside a quarter of the draw distance, then strides 2, 4 and 8 by
/// quarters; each boundary belongs to the coarser band.
pub open spec fn lod_for_dist_sq(d2: int) -> usize {
    let d = DRAW_DISTANCE as int;
    if 16 * d2 < d * d {
        0
    } else if 4 * d2 < d * d {
        2
    } else if 16 * d2 < 9 * d * d {
        4
    } else {
        8
    }
}

/// Level of detail of the chunk `k` seen from `camera`.
pub open spec fn lod_of(camera: Camera, k: ChunkKey) -> usize {
    lod_for_dist_sq(dist_sq(as_int3(camera.pos), chunk_origin(k)))
}

/// Level of detail of chunk `k` by the distance from the camera to the
/// chunk's origin.
pub fn get_lod_by_distance(camera: &Camera, k: ChunkKey) -> (r: usize)
    requires
        camera.wf(),
        key_in_range(k),
    ensures
        r == lod_of(*camera, k),
{
    let origin = Chunk::get_worldpos(&k);
    let d2 = distance_sq(camera.pos, origin);
    let d = DRAW_DISTANCE as i128;
    if 16 * d2 < d * d {
        0
    } else if 4 * d2 < d * d {
        2
    } else if 16 * d2 < 9 * d * d {
        4
    } else {
        8
    }
}

/// The level of detail never decreases with distance, is always one of
/// 0, 2, 4 and 8, and each quarter of the draw distance falls into the
/// coarser of the two bands it separates.
pub proof fn lemma_lod_monotonic(d2a: int, d2b: int)
    requires
        0 <= d2a <= d2b,
    ensures
        lod_for_dist_sq(d2a) <= lod_for_dist_sq(d2b),
        lod_for_dist_sq(d2a) == 0 || lod_for_dist_sq(d2a) == 2 || lod_for_dist_sq(d2a) == 4
            || lod_for_dist_sq(d2a) == 8,
        lod_for_dist_sq((DRAW_DISTANCE / 4) * (DRAW_DISTANCE / 4)) == 2,
        lod_for_dist_sq((DRAW_DISTANCE / 2) * (DRAW_DISTANCE / 2)) == 4,
        lod_for_dist_sq((3 * DRAW_DISTANCE / 4) * (3 * DRAW_DISTANCE / 4)) == 8,
{
    assert(DRAW_DISTANCE / 4 == 100_000);
    assert(DRAW_DISTANCE / 2 == 200_000);
    assert(3 * DRAW_DISTANCE / 4 == 300_000);
}

/// Workers are numbered `-WORKER_SPAN .. WORKER_SPAN`; worker `id` scans the
/// slab of chunks `id` steps from the camera's chunk along `x`.
pub const WORKER_SPAN: i64 = 3;

/// Requests to the chunk builders.
#[derive(Debug)]
pub enum ChunkBuilderCommands {
    /// Rebuild one chunk knowing its neighbours. Not supported yet.
    NewChunk(ChunkKey, Vec<ChunkKey>),
    /// The camera and the keys the world already holds.
    Info(Camera, Vec<ChunkKey>),
}

/// A built chunk on its way to the world: its key, its voxels and its mesh.
#[derive(Debug)]
pub struct ChunkBuilderChannelData {
    pub chunk: (ChunkKey, Chunk, Option<ChunkMesh>),
}

/// Why a command cannot be carried out.
#[derive(Clone, Copy, Debug, PartialEq, Eq, Structural)]
pub enum BuilderError {
    /// Targeted rebuilding of a chunk is not implemented.
    Unimplemented,
}

/// Key of the chunk holding the camera.
pub open spec fn camera_key(cam: Camera) -> ChunkKey {
    (
        (cam.pos.0 as int / CHUNK_FINE as int) as i64,
        (cam.pos.1 as int / CHUNK_FINE as int) as i64,
        (cam.pos.2 as int / CHUNK_FINE as int) as i64,
    )
}

/// The `n`-th key of worker `id`'s slab around chunk `c`: `z` offsets
/// -3..3 in the outer order, `y` offsets -2..2 in the inner one.
pub open spec fn slab_key(c: ChunkKey, id: int, n: int) -> ChunkKey {
    ((c.0 + id) as i64, (c.1 + n % 4 - 2) as i64, (c.2 + n / 4 - 3) as i64)
}

/// The 24 keys of worker `id`'s slab around chunk `c`, in scan order.
pub open spec fn slab_keys(c: ChunkKey, id: int) -> Seq<ChunkKey> {
    Seq::new(24, |n: int| slab_key(c, id, n))
}

pub open spec fn absent_from(existing: Seq<ChunkKey>) -> spec_fn(ChunkKey) -> bool {
    |k: ChunkKey| !existing.contains(k)
}

/// The keys worker `id` builds for an `Info` request: its slab around the
/// camera's chunk, in scan order, without the keys the world already holds.
pub open spec fn keys_to_build(cam: Camera, existing: Seq<ChunkKey>, id: int) -> Seq<ChunkKey> {
    slab_keys(camera_key(cam), id).filter(absent_from(existing))
}

fn contains_key(keys: &Vec<ChunkKey>, k: ChunkKey) -> (r: bool)
    ensures
        r == keys@.contains(k),
{
    let mut i: usize = 0;
    while i < keys.len()
        invariant
            i <= keys@.len(),
            forall|j: int| 0 <= j < i ==> keys@[j] != k,
        decreases keys@.len() - i,
    {
        let e = keys[i];
        if e.0 == k.0 && e.1 == k.1 && e.2 == k.2 {
            assert(keys@[i as int] == k);
            return true;
        }
        i += 1;
    }
    false
}

/// The keys worker `id` is to build for an `Info` request with `camera` and
/// the keys `existing` that the world holds.
pub fn info_keys(camera: &Camera, existing: &Vec<ChunkKey>, id: i64) -> (r: Vec<ChunkKey>)
    requires
        camera.wf(),
        -WORKER_SPAN <= id < WORKER_SPAN,
    ensures
        r@ == keys_to_build(*camera, existing@, id as int),
        forall|i: int| 0 <= i < r@.len() ==> key_in_range(#[trigger] r@[i]),
{
    let c = Chunk::get_ijk_chunkspace(camera.pos);
    assert(c == camera_key(*camera));
    let ghost slab = slab_keys(c, id as int);
    let ghost pred = absent_from(existing@);
    let mut r: Vec<ChunkKey> = Vec::new();
    let mut n: usize = 0;
    let mut dz: i64 = -3;
    while dz < 3
        invariant
            -3 <= dz <= 3,
            n == (dz + 3) * 4,
            -0x8400 <= c.0 <= 0x8400,
            -0x8400 <= c.1 <= 0x8400,
            -0x8400 <= c.2 <= 0x8400,
            -3 <= id < 3,
            slab == slab_keys(c, id as int),
            pred == absent_from(existing@),
            r@ == slab.take(n as int).filter(pred),
            forall|i: int| 0 <= i < r@.len() ==> key_in_range(#[trigger] r@[i]),
        decreases 3 - dz,
    {
        let mut dy: i64 = -2;
        while dy < 2
            invariant
                -3 <= dz < 3,
                -2 <= dy <= 2,
                n == (dz + 3) * 4 + dy + 2,
                -0x8400 <= c.0 <= 0x8400,
                -0x8400 <= c.1 <= 0x8400,
                -0x8400 <= c.2 <= 0x8400,
                -3 <= id < 3,
                slab == slab_keys(c, id as int),
                pred == absent_from(existing@),
                r@ == slab.take(n as int).filter(pred),
                forall|i: int| 0 <= i < r@.len() ==> key_in_range(#[trigger] r@[i]),
            decreases 2 - dy,
        {
            let k = (c.0 + id, c.1 + dy, c.2 + dz);
            assert(k == slab[n as int]);
            assert(slab.take(n as int + 1) =~= slab.take(n as int).push(k));
            proof {
                slab.take(n as int).lemma_filter_push(k, pred);
            }
            if !contains_key(existing, k) {
                r.push(k);
            }
            n += 1;
            dy += 1;
        }
        dz += 1;
    }
    assert(slab.take(24) =~= slab);
    r
}

impl ChunkBuilderCommands {
    /// The keys worker `id` is to build for this command; a `NewChunk`
    /// request fails as unimplemented.
    pub fn keys_for_worker(&self, id: i64) -> (r: Result<Vec<ChunkKey>, BuilderError>)
        requires
            -WORKER_SPAN <= id < WORKER_SPAN,
            self matches ChunkBuilderCommands::Info(cam, _) ==> cam.wf(),
        ensures
            self is NewChunk ==> r == Err::<Vec<ChunkKey>, BuilderError>(BuilderError::Unimplemented),
            self matches ChunkBuilderCommands::Info(cam, existing) ==> r matches Ok(keys) && keys@
                == keys_to_build(*cam, existing@, id as int),
    {
        match self {
            ChunkBuilderCommands::NewChunk(_, _) => Err(BuilderError::Unimplemented),
            ChunkBuilderCommands::Info(camera, existing) => Ok(info_keys(camera, existing, id)),
        }
    }
}

/// Builds chunk `key` from the terrain field `solid_at`: generates its
/// voxels, gives it the level of detail of its distance from `camera`, and
/// meshes it at that level.
pub fn build_chunk<F: Fn(i64, i64, i64) -> bool>(key: ChunkKey, camera: &Camera, solid_at: &F) -> (r:
    ChunkBuilderChannelData)
    requires
        key_in_range(key),
        camera.wf(),
        forall|x: i64, y: i64, z: i64| solid_at.requires((x, y, z)),
    ensures
        r.chunk.0 == key,
        generated_from(r.chunk.1, key, *solid_at),
        r.chunk.1.lod == lod_of(*camera, key),
        !r.chunk.1.outdated,
        meshed(r.chunk.1, r.chunk.2),
{
    let mut chunk = Chunk::new(key, solid_at);
    chunk.lod = get_lod_by_distance(camera, key);
    assert(chunk.lod < MAX_LOD);
    let mesh = chunk.get_mesh();
    ChunkBuilderChannelData { chunk: (key, chunk, mesh) }
}

} // verus!
