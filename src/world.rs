//! Chunks and the world that streams them.

use vstd::prelude::*;

use crate::camera::{within, within_exec, Camera, Vec3i, COORD_LIMIT};
use crate::camera::{as_int3, dist_sq, distance_sq};
use crate::chunk_builder::{get_lod_by_distance, lod_of, ChunkBuilderChannelData, DRAW_DISTANCE};
use crate::culler::{chunk_visible, ChunkCuller};
use crate::keyed::{keys_distinct, lemma_map_of_dom, lemma_map_of_entry, lemma_map_of_ext, map_of, KeyedVec};
use crate::chunkmesh::ChunkMesh;
use crate::voxel_gen::{cell_index, lemma_cell_encode, cell_x, cell_y, cell_z, gen_mesh_data_culled, get_pos, grid_len, mesh_vertices, quad_indices, MAX_LOD};

verus! {

/// Edge length of a chunk, in voxels.
pub const CHUNK_SIZE: usize = 64;

/// One cell of a chunk: `id` 0 is air, anything else is solid.
#[derive(Clone, Copy, Debug, PartialEq, Eq, Structural)]
pub struct Voxel {
    pub id: usize,
}

/// Position of a chunk in chunk space: one unit is one chunk edge.
pub type ChunkKey = (i64, i64, i64);

/// Bound on the magnitude of each chunk key component.
pub const KEY_LIMIT: i64 = 0x1_0000;

/// Fine units per chunk edge.
pub const CHUNK_FINE: i64 = 64_000;

pub open spec fn key_in_range(k: ChunkKey) -> bool {
    within(k, KEY_LIMIT as int)
}

/// Whether every component of `k` is within [`KEY_LIMIT`].
pub fn key_within_limit(k: ChunkKey) -> (r: bool)
    ensures
        r == key_in_range(k),
{
    within_exec(k, KEY_LIMIT)
}

/// World position of a chunk's origin corner, in fine units.
pub open spec fn chunk_origin(k: ChunkKey) -> (int, int, int) {
    (k.0 * CHUNK_FINE, k.1 * CHUNK_FINE, k.2 * CHUNK_FINE)
}

/// World voxel coordinates of the cell stored at `i` in chunk `k`.
pub open spec fn voxel_world(k: ChunkKey, i: int) -> (i64, i64, i64) {
    (
        (k.0 * CHUNK_SIZE + cell_x(i)) as i64,
        (k.1 * CHUNK_SIZE + cell_y(i)) as i64,
        (k.2 * CHUNK_SIZE + cell_z(i)) as i64,
    )
}

/// A chunk: its key, its grid of `CHUNK_SIZE³` voxels, the level of detail
/// it was meshed at, and whether that level no longer fits its distance.
#[derive(Debug)]
pub struct Chunk {
    pub key: ChunkKey,
    pub voxels: Vec<Voxel>,
    pub lod: usize,
    pub outdated: bool,
}

/// `c` is the grid of chunk `key` in the terrain field `solid_at`: each
/// voxel is solid (id 1) exactly where the field says so at its world
/// position, and air (id 0) elsewhere.
pub open spec fn generated_from<F: Fn(i64, i64, i64) -> bool>(c: Chunk, key: ChunkKey, solid_at: F) -> bool {
    &&& c.key == key
    &&& c.voxels@.len() == grid_len()
    &&& forall|i: int|
        0 <= i < grid_len() ==> {
            let p = voxel_world(key, i);
            &&& (c.voxels@[i].id == 0 || c.voxels@[i].id == 1)
            &&& solid_at.ensures((p.0, p.1, p.2), #[trigger] c.voxels@[i].id == 1)
        }
}

/// `r` is the mesh of `c` at stride `c.lod + 1`, placed at the chunk's world
/// voxel origin and visible; `None` exactly when no face shows.
pub open spec fn meshed(c: Chunk, r: Option<ChunkMesh>) -> bool {
    &&& (r is None <==> mesh_vertices(c.voxels@, c.lod + 1).len() == 0)
    &&& (r matches Some(m) ==> {
        &&& m.vertices@ == mesh_vertices(c.voxels@, c.lod + 1)
        &&& m.indices@ == quad_indices((m.vertices@.len() / 4) as nat)
        &&& m.offset.0 == c.key.0 * CHUNK_SIZE
        &&& m.offset.1 == c.key.1 * CHUNK_SIZE
        &&& m.offset.2 == c.key.2 * CHUNK_SIZE
        &&& m.visible
    })
}

impl Chunk {
    /// The grid holds one voxel per cell.
    pub open spec fn wf(&self) -> bool {
        self.voxels@.len() == grid_len()
    }

    /// Generates chunk `key` from the terrain field `solid_at`, which tells
    /// whether the voxel at given world voxel coordinates is solid. The field
    /// is sampled at world positions only, so neighbouring chunks agree at
    /// their shared border.
    pub fn new<F: Fn(i64, i64, i64) -> bool>(key: ChunkKey, solid_at: &F) -> (r: Chunk)
        requires
            key_in_range(key),
            forall|x: i64, y: i64, z: i64| solid_at.requires((x, y, z)),
        ensures
            generated_from(r, key, *solid_at),
            r.lod == 0,
            !r.outdated,
    {
        let total = CHUNK_SIZE * CHUNK_SIZE * CHUNK_SIZE;
        let mut voxels: Vec<Voxel> = Vec::new();
        let mut i: usize = 0;
        while i < total
            invariant
                total == grid_len(),
                i <= total,
                key_in_range(key),
                forall|x: i64, y: i64, z: i64| solid_at.requires((x, y, z)),
                voxels@.len() == i,
                forall|j: int|
                    0 <= j < i ==> {
                        let p = voxel_world(key, j);
                        &&& (voxels@[j].id == 0 || voxels@[j].id == 1)
                        &&& solid_at.ensures((p.0, p.1, p.2), #[trigger] voxels@[j].id == 1)
                    },
            decreases total - i,
        {
            let (x, y, z) = get_pos(i);
            let wx = key.0 * (CHUNK_SIZE as i64) + x as i64;
            let wy = key.1 * (CHUNK_SIZE as i64) + y as i64;
            let wz = key.2 * (CHUNK_SIZE as i64) + z as i64;
            let solid = solid_at(wx, wy, wz);
            voxels.push(Voxel { id: if solid { 1 } else { 0 } });
            i += 1;
        }
        Chunk { key, voxels, lod: 0, outdated: false }
    }

    /// World position of the origin corner of chunk `key`, in fine units.
    pub fn get_worldpos(key: &ChunkKey) -> (r: Vec3i)
        requires
            key_in_range(*key),
        ensures
            (r.0 as int, r.1 as int, r.2 as int) == chunk_origin(*key),
            within(r, 0x1_0000_0000),
    {
        (key.0 * CHUNK_FINE, key.1 * CHUNK_FINE, key.2 * CHUNK_FINE)
    }

    /// Key of the chunk that holds the world position `pos` (fine units).
    pub fn get_ijk_chunkspace(pos: Vec3i) -> (r: ChunkKey)
        requires
            within(pos, COORD_LIMIT as int),
        ensures
            r.0 == pos.0 as int / CHUNK_FINE as int,
            r.1 == pos.1 as int / CHUNK_FINE as int,
            r.2 == pos.2 as int / CHUNK_FINE as int,
            within(r, 0x8400),
    {
        (floor_div(pos.0), floor_div(pos.1), floor_div(pos.2))
    }

    /// Marks the chunk outdated when its level of detail no longer matches
    /// its distance from `camera`. A chunk once outdated stays so.
    pub fn update(&mut self, camera: &Camera)
        requires
            camera.wf(),
            key_in_range(old(self).key),
        ensures
            final(self).key == old(self).key,
            final(self).voxels == old(self).voxels,
            final(self).lod == old(self).lod,
            final(self).outdated == (old(self).outdated || old(self).lod != lod_of(*camera, old(self).key)),
    {
        if self.lod != get_lod_by_distance(camera, self.key) {
            self.outdated = true;
        }
    }

    /// Meshes the chunk at stride `lod + 1`, placed at the chunk's world
    /// voxel origin; `None` when no face is visible.
    pub fn get_mesh(&self) -> (r: Option<ChunkMesh>)
        requires
            self.wf(),
            key_in_range(self.key),
            self.lod < MAX_LOD,
        ensures
            meshed(*self, r),
    {
        let (vertices, indices) = gen_mesh_data_culled(&self.voxels, self.lod + 1);
        if indices.len() > 0 {
            let offset = (
                self.key.0 * (CHUNK_SIZE as i64),
                self.key.1 * (CHUNK_SIZE as i64),
                self.key.2 * (CHUNK_SIZE as i64),
            );
            Some(ChunkMesh::new(vertices, indices, offset))
        } else {
            None
        }
    }
}

/// A terrain field that gives one answer per world position makes the
/// generator deterministic: two grids generated for the same key are equal.
pub proof fn lemma_generation_deterministic<F: Fn(i64, i64, i64) -> bool>(
    solid_at: F,
    key: ChunkKey,
    a: Chunk,
    b: Chunk,
)
    requires
        forall|x: i64, y: i64, z: i64, r1: bool, r2: bool|
            solid_at.ensures((x, y, z), r1) && solid_at.ensures((x, y, z), r2) ==> r1 == r2,
        generated_from(a, key, solid_at),
        generated_from(b, key, solid_at),
    ensures
        a.voxels@ == b.voxels@,
{
    assert forall|i: int| 0 <= i < grid_len() implies a.voxels@[i] == b.voxels@[i] by {
        let p = voxel_world(key, i);
        assert(solid_at.ensures((p.0, p.1, p.2), a.voxels@[i].id == 1));
        assert(solid_at.ensures((p.0, p.1, p.2), b.voxels@[i].id == 1));
    }
    assert(a.voxels@ =~= b.voxels@);
}

/// Chunks are cut from one field indexed by world position: the voxels on
/// either side of the border between chunk `k` and its neighbour one step
/// along `x` are the field at two consecutive world columns, so the two
/// generations agree with a single sampling of the field across the seam.
pub proof fn lemma_seam_consistent<F: Fn(i64, i64, i64) -> bool>(
    solid_at: F,
    k: ChunkKey,
    a: Chunk,
    b: Chunk,
    y: int,
    z: int,
)
    requires
        key_in_range(k),
        key_in_range(((k.0 + 1) as i64, k.1, k.2)),
        generated_from(a, k, solid_at),
        generated_from(b, ((k.0 + 1) as i64, k.1, k.2), solid_at),
        0 <= y < CHUNK_SIZE,
        0 <= z < CHUNK_SIZE,
    ensures
        ({
            let last = cell_index(CHUNK_SIZE - 1, y, z);
            let first = cell_index(0, y, z);
            let wx = k.0 * CHUNK_SIZE + CHUNK_SIZE - 1;
            let wy = (k.1 * CHUNK_SIZE + y) as i64;
            let wz = (k.2 * CHUNK_SIZE + z) as i64;
            &&& solid_at.ensures((wx as i64, wy, wz), a.voxels@[last].id == 1)
            &&& solid_at.ensures(((wx + 1) as i64, wy, wz), b.voxels@[first].id == 1)
        }),
{
    let last = cell_index(CHUNK_SIZE - 1, y, z);
    let first = cell_index(0, y, z);
    lemma_cell_encode(CHUNK_SIZE - 1, y, z);
    lemma_cell_encode(0, y, z);
}

/// `p / CHUNK_FINE` rounded towards negative infinity.
fn floor_div(p: i64) -> (r: i64)
    requires
        -COORD_LIMIT <= p <= COORD_LIMIT,
    ensures
        r == p as int / CHUNK_FINE as int,
        -0x8400 <= r <= 0x8400,
{
    let q = p / CHUNK_FINE;
    let m = p % CHUNK_FINE;
    if m < 0 {
        q - 1
    } else {
        q
    }
}

/// `c` with `outdated` set when its level of detail no longer matches its
/// distance from `cam`.
pub open spec fn retag(c: Chunk, cam: Camera) -> Chunk {
    Chunk { key: c.key, voxels: c.voxels, lod: c.lod, outdated: c.outdated || c.lod != lod_of(cam, c.key) }
}

/// `m` with its visibility flag set to `b`.
pub open spec fn with_visibility(m: ChunkMesh, b: bool) -> ChunkMesh {
    ChunkMesh { vertices: m.vertices, indices: m.indices, offset: m.offset, visible: b }
}

/// The chunks after merging the built results `rs` in order; a later
/// result for a key replaces an earlier one.
pub open spec fn merged_chunks(c: Map<ChunkKey, Chunk>, rs: Seq<ChunkBuilderChannelData>) -> Map<ChunkKey, Chunk>
    decreases rs.len(),
{
    if rs.len() == 0 {
        c
    } else {
        merged_chunks(c, rs.drop_last()).insert(rs.last().chunk.0, rs.last().chunk.1)
    }
}

/// The meshes after merging the built results `rs` in order.
pub open spec fn merged_meshes(m: Map<ChunkKey, Option<ChunkMesh>>, rs: Seq<ChunkBuilderChannelData>) -> Map<
    ChunkKey,
    Option<ChunkMesh>,
>
    decreases rs.len(),
{
    if rs.len() == 0 {
        m
    } else {
        merged_meshes(m, rs.drop_last()).insert(rs.last().chunk.0, rs.last().chunk.2)
    }
}

/// Whether the origin of chunk `k` lies beyond the draw distance.
pub open spec fn beyond_draw_distance(cam: Camera, k: ChunkKey) -> bool {
    dist_sq(as_int3(cam.pos), chunk_origin(k)) > DRAW_DISTANCE * DRAW_DISTANCE
}

/// Meshes with their visibility recomputed from `cam`.
pub open spec fn culled(m: Map<ChunkKey, Option<ChunkMesh>>, cam: Camera) -> Map<ChunkKey, Option<ChunkMesh>> {
    m.map_entries(
        |k: ChunkKey, o: Option<ChunkMesh>|
            match o {
                Some(x) => Some(with_visibility(x, chunk_visible(cam, k))),
                None => None,
            },
    )
}

/// The chunks and meshes resident around the camera, and the keys queued for
/// removal on the next tick.
pub struct ChunkWorld {
    chunks: KeyedVec<Chunk>,
    pub meshes: KeyedVec<Option<ChunkMesh>>,
    chunks_to_remove: Vec<ChunkKey>,
    meshes_to_remove: Vec<ChunkKey>,
}

impl ChunkWorld {
    /// Resident chunks by key.
    pub closed spec fn chunk_map(&self) -> Map<ChunkKey, Chunk> {
        self.chunks@
    }

    /// Resident meshes by key; `None` is a chunk that shows no face.
    pub closed spec fn mesh_map(&self) -> Map<ChunkKey, Option<ChunkMesh>> {
        self.meshes@
    }

    /// Chunks queued for removal on the next tick.
    pub closed spec fn pending_chunks(&self) -> Set<ChunkKey> {
        Set::new(|k: ChunkKey| self.chunks_to_remove@.contains(k))
    }

    /// Meshes queued for removal on the next tick.
    pub closed spec fn pending_meshes(&self) -> Set<ChunkKey> {
        Set::new(|k: ChunkKey| self.meshes_to_remove@.contains(k))
    }

    /// Every key, and every chunk's own key, is in range.
    pub closed spec fn wf(&self) -> bool {
        &&& self.chunks.wf()
        &&& self.meshes.wf()
        &&& forall|k: ChunkKey| #[trigger]
            self.chunks@.contains_key(k) ==> key_in_range(k) && key_in_range(self.chunks@[k].key)
        &&& forall|k: ChunkKey| #[trigger] self.meshes@.contains_key(k) ==> key_in_range(k)
    }

    /// An empty world.
    pub fn new() -> (r: ChunkWorld)
        ensures
            r.wf(),
            r.chunk_map() == Map::<ChunkKey, Chunk>::empty(),
            r.mesh_map() == Map::<ChunkKey, Option<ChunkMesh>>::empty(),
            r.pending_chunks() == Set::<ChunkKey>::empty(),
            r.pending_meshes() == Set::<ChunkKey>::empty(),
    {
        let r = ChunkWorld {
            chunks: KeyedVec::new(),
            meshes: KeyedVec::new(),
            chunks_to_remove: Vec::new(),
            meshes_to_remove: Vec::new(),
        };
        assert(r.pending_chunks() =~= Set::<ChunkKey>::empty());
        assert(r.pending_meshes() =~= Set::<ChunkKey>::empty());
        r
    }

    /// The keys of the resident chunks, each once.
    pub fn existing_keys(&self) -> (r: Vec<ChunkKey>)
        requires
            self.wf(),
        ensures
            forall|k: ChunkKey| r@.contains(k) <==> self.chunk_map().contains_key(k),
            r@.no_duplicates(),
    {
        let r = self.chunks.keys();
        proof {
            self.chunks.lemma_entries();
            assert forall|i: int, j: int| 0 <= i < r@.len() && 0 <= j < r@.len() && i != j implies r@[i] != r@[j] by {
                assert(r@[i] == self.chunks.entry_seq()[i].0);
                assert(r@[j] == self.chunks.entry_seq()[j].0);
            }
            assert forall|k: ChunkKey| r@.contains(k) <==> self.chunks@.contains_key(k) by {
                if r@.contains(k) {
                    let i = choose|i: int| 0 <= i < r@.len() && r@[i] == k;
                    assert(self.chunks.entry_seq()[i].0 == k);
                }
                if self.chunks@.contains_key(k) {
                    let i = choose|i: int| 0 <= i < self.chunks.entry_seq().len() && self.chunks.entry_seq()[i].0 == k;
                    assert(r@[i] == k);
                }
            }
        }
        r
    }

    /// Merges one built result: its chunk and its mesh replace whatever the
    /// world held for that key.
    pub fn merge(&mut self, data: ChunkBuilderChannelData)
        requires
            old(self).wf(),
            key_in_range(data.chunk.0),
            key_in_range(data.chunk.1.key),
        ensures
            final(self).wf(),
            final(self).chunk_map() == old(self).chunk_map().insert(data.chunk.0, data.chunk.1),
            final(self).mesh_map() == old(self).mesh_map().insert(data.chunk.0, data.chunk.2),
            final(self).pending_chunks() == old(self).pending_chunks(),
            final(self).pending_meshes() == old(self).pending_meshes(),
    {
        let (k, chunk, mesh) = data.chunk;
        self.chunks.insert(k, chunk);
        self.meshes.insert(k, mesh);
    }
}

impl ChunkWorld {
    /// One tick of streaming, given the results the builders delivered
    /// since the last one: merge them in order, drop what the last tick
    /// queued for removal, mark chunks whose level of detail no longer fits
    /// and queue them, queue meshes beyond the draw distance, and recompute
    /// the visibility of every mesh.
    pub fn update(&mut self, camera: &Camera, results: Vec<ChunkBuilderChannelData>)
        requires
            old(self).wf(),
            camera.wf(),
            forall|i: int|
                0 <= i < results@.len() ==> key_in_range(#[trigger] results@[i].chunk.0) && key_in_range(
                    results@[i].chunk.1.key,
                ),
        ensures
            final(self).wf(),
            final(self).chunk_map() == merged_chunks(old(self).chunk_map(), results@).remove_keys(
                old(self).pending_chunks(),
            ).map_values(|c: Chunk| retag(c, *camera)),
            final(self).pending_chunks() == Set::new(
                |k: ChunkKey| final(self).chunk_map().contains_key(k) && final(self).chunk_map()[k].outdated,
            ),
            final(self).mesh_map() == culled(
                merged_meshes(old(self).mesh_map(), results@).remove_keys(old(self).pending_meshes()),
                *camera,
            ),
            final(self).pending_meshes() == Set::new(
                |k: ChunkKey| final(self).mesh_map().contains_key(k) && beyond_draw_distance(*camera, k),
            ),
    {
        self.merge_all(results);
        self.drop_pending();
        self.retag_chunks(camera);
        self.queue_far_meshes(camera);
        self.cull_meshes(camera);
    }

    fn merge_all(&mut self, results: Vec<ChunkBuilderChannelData>)
        requires
            old(self).wf(),
            forall|i: int|
                0 <= i < results@.len() ==> key_in_range(#[trigger] results@[i].chunk.0) && key_in_range(
                    results@[i].chunk.1.key,
                ),
        ensures
            final(self).wf(),
            final(self).chunks@ == merged_chunks(old(self).chunks@, results@),
            final(self).meshes@ == merged_meshes(old(self).meshes@, results@),
            final(self).chunks_to_remove@ == old(self).chunks_to_remove@,
            final(self).meshes_to_remove@ == old(self).meshes_to_remove@,
    {
        let ghost rs = results@;
        let ghost c0 = self.chunks@;
        let ghost m0 = self.meshes@;
        let mut results = results;
        let total = results.len();
        let mut i: usize = 0;
        while results.len() > 0
            invariant
                self.wf(),
                total == rs.len(),
                i <= rs.len(),
                results@ == rs.skip(i as int),
                forall|j: int| 0 <= j < rs.len() ==> key_in_range(#[trigger] rs[j].chunk.0) && key_in_range(rs[j].chunk.1.key),
                self.chunks@ == merged_chunks(c0, rs.take(i as int)),
                self.meshes@ == merged_meshes(m0, rs.take(i as int)),
                self.chunks_to_remove@ == old(self).chunks_to_remove@,
                self.meshes_to_remove@ == old(self).meshes_to_remove@,
            decreases results@.len(),
        {
            assert(rs.skip(i as int).len() > 0);
            let d = results.remove(0);
            assert(d == rs[i as int]);
            assert(rs.take(i as int + 1).drop_last() =~= rs.take(i as int));
            assert(results@ =~= rs.skip(i as int + 1));
            let (k, chunk, mesh) = d.chunk;
            self.chunks.insert(k, chunk);
            self.meshes.insert(k, mesh);
            i += 1;
        }
        assert(rs.take(i as int) =~= rs);
    }

    fn drop_pending(&mut self)
        requires
            old(self).wf(),
        ensures
            final(self).wf(),
            final(self).chunks@ == old(self).chunks@.remove_keys(old(self).pending_chunks()),
            final(self).meshes@ == old(self).meshes@.remove_keys(old(self).pending_meshes()),
            final(self).chunks_to_remove@.len() == 0,
            final(self).meshes_to_remove@.len() == 0,
    {
        let ghost c1 = self.chunks@;
        let ghost m1 = self.meshes@;
        let ghost pc = self.chunks_to_remove@;
        let ghost pm = self.meshes_to_remove@;
        let mut j: usize = 0;
        while j < self.chunks_to_remove.len()
            invariant
                self.wf(),
                self.chunks_to_remove@ == pc,
                self.meshes_to_remove@ == pm,
                self.meshes@ == m1,
                j <= pc.len(),
                self.chunks@ == c1.remove_keys(Set::new(|k: ChunkKey| pc.take(j as int).contains(k))),
            decreases pc.len() - j,
        {
            let k = self.chunks_to_remove[j];
            self.chunks.remove(k);
            proof {
                assert(pc.take(j as int + 1) =~= pc.take(j as int).push(k));
                let ghost a = pc.take(j as int);
                let ghost b = pc.take(j as int + 1);
                assert forall|x: ChunkKey| b.contains(x) <==> (a.contains(x) || x == k) by {
                    if b.contains(x) {
                        let t = choose|t: int| 0 <= t < b.len() && b[t] == x;
                        if t < j {
                            assert(a[t] == x);
                        }
                    }
                    if a.contains(x) {
                        let t = choose|t: int| 0 <= t < a.len() && a[t] == x;
                        assert(b[t] == x);
                    }
                    if x == k {
                        assert(b[j as int] == x);
                    }
                }
                assert(self.chunks@ =~= c1.remove_keys(Set::new(|x: ChunkKey| pc.take(j as int + 1).contains(x))));
            }
            j += 1;
        }
        assert(pc.take(j as int) =~= pc);
        assert(Set::new(|k: ChunkKey| pc.take(j as int).contains(k)) =~= old(self).pending_chunks());
        let mut j: usize = 0;
        while j < self.meshes_to_remove.len()
            invariant
                self.wf(),
                self.meshes_to_remove@ == pm,
                self.chunks@ == c1.remove_keys(old(self).pending_chunks()),
                j <= pm.len(),
                self.meshes@ == m1.remove_keys(Set::new(|k: ChunkKey| pm.take(j as int).contains(k))),
            decreases pm.len() - j,
        {
            let k = self.meshes_to_remove[j];
            self.meshes.remove(k);
            proof {
                assert(pm.take(j as int + 1) =~= pm.take(j as int).push(k));
                let ghost a = pm.take(j as int);
                let ghost b = pm.take(j as int + 1);
                assert forall|x: ChunkKey| b.contains(x) <==> (a.contains(x) || x == k) by {
                    if b.contains(x) {
                        let t = choose|t: int| 0 <= t < b.len() && b[t] == x;
                        if t < j {
                            assert(a[t] == x);
                        }
                    }
                    if a.contains(x) {
                        let t = choose|t: int| 0 <= t < a.len() && a[t] == x;
                        assert(b[t] == x);
                    }
                    if x == k {
                        assert(b[j as int] == x);
                    }
                }
                assert(self.meshes@ =~= m1.remove_keys(Set::new(|x: ChunkKey| pm.take(j as int + 1).contains(x))));
            }
            j += 1;
        }
        assert(pm.take(j as int) =~= pm);
        assert(Set::new(|k: ChunkKey| pm.take(j as int).contains(k)) =~= old(self).pending_meshes());
        self.chunks_to_remove = Vec::new();
        self.meshes_to_remove = Vec::new();
    }

    fn retag_chunks(&mut self, camera: &Camera)
        requires
            old(self).wf(),
            camera.wf(),
            old(self).chunks_to_remove@.len() == 0,
        ensures
            final(self).wf(),
            final(self).chunks@ == old(self).chunks@.map_values(|c: Chunk| retag(c, *camera)),
            final(self).pending_chunks() == Set::new(
                |k: ChunkKey| final(self).chunks@.contains_key(k) && final(self).chunks@[k].outdated,
            ),
            final(self).meshes@ == old(self).meshes@,
            final(self).meshes_to_remove@ == old(self).meshes_to_remove@,
    {
        let ghost e = self.chunks.entry_seq();
        let ghost c2 = self.chunks@;
        proof {
            self.chunks.lemma_entries();
            assert forall|j: int| 0 <= j < e.len() implies key_in_range((#[trigger] e[j]).1.key) by {
                assert(c2.contains_key(e[j].0));
            }
        }
        let n = self.chunks.len();
        let mut i: usize = 0;
        while i < n
            invariant
                old(self).wf(),
                camera.wf(),
                e == old(self).chunks.entry_seq(),
                c2 == old(self).chunks@,
                c2 == map_of(e),
                keys_distinct(e),
                n == e.len(),
                i <= n,
                forall|j: int| 0 <= j < n ==> key_in_range((#[trigger] e[j]).1.key),
                self.chunks.entry_seq().len() == n,
                forall|j: int|
                    0 <= j < n ==> #[trigger] self.chunks.entry_seq()[j] == if j < i {
                        (e[j].0, retag(e[j].1, *camera))
                    } else {
                        e[j]
                    },
                forall|k: ChunkKey|
                    self.chunks_to_remove@.contains(k) <==> exists|j: int|
                        0 <= j < i && e[j].0 == k && retag(e[j].1, *camera).outdated,
                self.meshes@ == old(self).meshes@,
                self.meshes_to_remove@ == old(self).meshes_to_remove@,
                self.meshes.wf(),
                forall|k: ChunkKey| #[trigger] self.meshes@.contains_key(k) ==> key_in_range(k),
            decreases n - i,
        {
            let k = self.chunks.key_at(i);
            let ghost before = self.chunks.entry_seq();
            let c = self.chunks.value_at_mut(i);
            c.update(camera);
            let outdated = c.outdated;
            let ghost prev = self.chunks_to_remove@;
            if outdated {
                self.chunks_to_remove.push(k);
            }
            proof {
                let ghost now = self.chunks.entry_seq();
                assert forall|j: int| 0 <= j < n implies #[trigger] now[j] == if j < i + 1 {
                    (e[j].0, retag(e[j].1, *camera))
                } else {
                    e[j]
                } by {
                    if j == i {
                        assert(before[j] == e[j]);
                    } else {
                        assert(before[j] == now[j]);
                    }
                }
                assert forall|kk: ChunkKey| self.chunks_to_remove@.contains(kk) <==> exists|j: int|
                    0 <= j < i + 1 && e[j].0 == kk && retag(e[j].1, *camera).outdated by {
                    let cur = self.chunks_to_remove@;
                    if outdated {
                        assert(cur == prev.push(k));
                        if kk == k {
                            assert(cur[cur.len() - 1] == kk);
                        }
                        if prev.contains(kk) {
                            let t = choose|t: int| 0 <= t < prev.len() && prev[t] == kk;
                            assert(cur[t] == kk);
                        }
                        if cur.contains(kk) {
                            let t = choose|t: int| 0 <= t < cur.len() && cur[t] == kk;
                            if t < prev.len() {
                                assert(prev[t] == kk);
                            }
                        }
                    }
                }
            }
            i += 1;
        }
        proof {
            let s = self.chunks.entry_seq();
            let target = c2.map_values(|c: Chunk| retag(c, *camera));
            assert(keys_distinct(s));
            assert forall|j: int| 0 <= j < s.len() implies target[#[trigger] s[j].0] == s[j].1 by {
                lemma_map_of_entry(e, j);
            }
            assert forall|kk: ChunkKey| target.contains_key(kk) <==> exists|j: int| 0 <= j < s.len() && s[j].0 == kk by {
                lemma_map_of_dom(e, kk);
                if exists|j: int| 0 <= j < s.len() && s[j].0 == kk {
                    let j = choose|j: int| 0 <= j < s.len() && s[j].0 == kk;
                    assert(e[j].0 == kk);
                }
                if c2.contains_key(kk) {
                    let j = choose|j: int| 0 <= j < e.len() && e[j].0 == kk;
                    assert(s[j].0 == kk);
                }
            }
            lemma_map_of_ext(s, target);
            assert forall|kk: ChunkKey| #[trigger] self.chunks@.contains_key(kk) implies key_in_range(kk) && key_in_range(self.chunks@[kk].key) by {
                assert(c2.contains_key(kk));
            }
            assert forall|kk: ChunkKey| #[trigger] self.chunks_to_remove@.contains(kk) <==> (self.chunks@.contains_key(kk) && self.chunks@[kk].outdated) by {
                lemma_map_of_dom(e, kk);
                if self.chunks_to_remove@.contains(kk) {
                    let j = choose|j: int| 0 <= j < n && e[j].0 == kk && retag(e[j].1, *camera).outdated;
                    lemma_map_of_entry(e, j);
                }
                if self.chunks@.contains_key(kk) && self.chunks@[kk].outdated {
                    let j = choose|j: int| 0 <= j < e.len() && e[j].0 == kk;
                    lemma_map_of_entry(e, j);
                }
            }
            assert(self.pending_chunks() =~= Set::new(
                |k: ChunkKey| self.chunks@.contains_key(k) && self.chunks@[k].outdated,
            ));
        }
    }

    fn queue_far_meshes(&mut self, camera: &Camera)
        requires
            old(self).wf(),
            camera.wf(),
            old(self).meshes_to_remove@.len() == 0,
        ensures
            final(self).wf(),
            final(self).chunks@ == old(self).chunks@,
            final(self).chunks_to_remove@ == old(self).chunks_to_remove@,
            final(self).meshes@ == old(self).meshes@,
            final(self).pending_meshes() == Set::new(
                |k: ChunkKey| final(self).meshes@.contains_key(k) && beyond_draw_distance(*camera, k),
            ),
    {
        let ghost e = self.meshes.entry_seq();
        proof {
            self.meshes.lemma_entries();
            assert forall|j: int| 0 <= j < e.len() implies key_in_range((#[trigger] e[j]).0) by {
                assert(self.meshes@.contains_key(e[j].0));
            }
        }
        let n = self.meshes.len();
        let limit = DRAW_DISTANCE as i128 * DRAW_DISTANCE as i128;
        let mut i: usize = 0;
        while i < n
            invariant
                self.wf(),
                camera.wf(),
                e == self.meshes.entry_seq(),
                self.chunks@ == old(self).chunks@,
                self.chunks_to_remove@ == old(self).chunks_to_remove@,
                self.meshes@ == old(self).meshes@,
                n == e.len(),
                i <= n,
                limit == DRAW_DISTANCE * DRAW_DISTANCE,
                forall|j: int| 0 <= j < n ==> key_in_range((#[trigger] e[j]).0),
                forall|k: ChunkKey|
                    self.meshes_to_remove@.contains(k) <==> exists|j: int|
                        0 <= j < i && e[j].0 == k && beyond_draw_distance(*camera, k),
            decreases n - i,
        {
            let k = self.meshes.key_at(i);
            let origin = Chunk::get_worldpos(&k);
            let far = distance_sq(camera.pos, origin) > limit;
            let ghost prev = self.meshes_to_remove@;
            if far {
                self.meshes_to_remove.push(k);
            }
            proof {
                assert forall|kk: ChunkKey| self.meshes_to_remove@.contains(kk) <==> exists|j: int|
                    0 <= j < i + 1 && e[j].0 == kk && beyond_draw_distance(*camera, kk) by {
                    let cur = self.meshes_to_remove@;
                    if far {
                        assert(cur == prev.push(k));
                        if kk == k {
                            assert(cur[cur.len() - 1] == kk);
                        }
                        if prev.contains(kk) {
                            let t = choose|t: int| 0 <= t < prev.len() && prev[t] == kk;
                            assert(cur[t] == kk);
                        }
                        if cur.contains(kk) {
                            let t = choose|t: int| 0 <= t < cur.len() && cur[t] == kk;
                            if t < prev.len() {
                                assert(prev[t] == kk);
                            }
                        }
                    }
                }
            }
            i += 1;
        }
        proof {
            assert forall|kk: ChunkKey| #[trigger] self.meshes_to_remove@.contains(kk) <==> (self.meshes@.contains_key(kk) && beyond_draw_distance(*camera, kk)) by {
                lemma_map_of_dom(e, kk);
            }
            assert(self.pending_meshes() =~= Set::new(
                |k: ChunkKey| self.meshes@.contains_key(k) && beyond_draw_distance(*camera, k),
            ));
        }
    }

    fn cull_meshes(&mut self, camera: &Camera)
        requires
            old(self).wf(),
            camera.wf(),
        ensures
            final(self).wf(),
            final(self).chunks@ == old(self).chunks@,
            final(self).chunks_to_remove@ == old(self).chunks_to_remove@,
            final(self).meshes_to_remove@ == old(self).meshes_to_remove@,
            final(self).meshes@ == culled(old(self).meshes@, *camera),
    {
        let ghost e = self.meshes.entry_seq();
        let ghost m2 = self.meshes@;
        proof {
            self.meshes.lemma_entries();
            assert forall|j: int| 0 <= j < e.len() implies key_in_range((#[trigger] e[j]).0) by {
                assert(m2.contains_key(e[j].0));
            }
        }
        let n = self.meshes.len();
        let mut i: usize = 0;
        while i < n
            invariant
                old(self).wf(),
                camera.wf(),
                e == old(self).meshes.entry_seq(),
                m2 == old(self).meshes@,
                m2 == map_of(e),
                keys_distinct(e),
                n == e.len(),
                i <= n,
                forall|j: int| 0 <= j < n ==> key_in_range((#[trigger] e[j]).0),
                self.meshes.entry_seq().len() == n,
                forall|j: int|
                    0 <= j < n ==> #[trigger] self.meshes.entry_seq()[j] == if j < i {
                        (e[j].0, culled(m2, *camera)[e[j].0])
                    } else {
                        e[j]
                    },
                self.chunks@ == old(self).chunks@,
                self.chunks.wf(),
                self.chunks_to_remove@ == old(self).chunks_to_remove@,
                self.meshes_to_remove@ == old(self).meshes_to_remove@,
            decreases n - i,
        {
            let k = self.meshes.key_at(i);
            let visible = ChunkCuller::is_visible(k, camera);
            let ghost before = self.meshes.entry_seq();
            let m = self.meshes.value_at_mut(i);
            match m {
                Some(mesh) => {
                    mesh.visible = visible;
                },
                None => {},
            }
            proof {
                lemma_map_of_entry(e, i as int);
                let now = self.meshes.entry_seq();
                assert forall|j: int| 0 <= j < n implies #[trigger] now[j] == if j < i + 1 {
                    (e[j].0, culled(m2, *camera)[e[j].0])
                } else {
                    e[j]
                } by {
                    if j == i {
                        assert(before[j] == e[j]);
                    } else {
                        assert(before[j] == now[j]);
                    }
                }
            }
            i += 1;
        }
        proof {
            let s = self.meshes.entry_seq();
            let target = culled(m2, *camera);
            assert forall|j: int| 0 <= j < s.len() implies target[#[trigger] s[j].0] == s[j].1 by {
            }
            assert forall|kk: ChunkKey| target.contains_key(kk) <==> exists|j: int| 0 <= j < s.len() && s[j].0 == kk by {
                lemma_map_of_dom(e, kk);
                if exists|j: int| 0 <= j < s.len() && s[j].0 == kk {
                    let j = choose|j: int| 0 <= j < s.len() && s[j].0 == kk;
                    assert(e[j].0 == kk);
                }
                if m2.contains_key(kk) {
                    let j = choose|j: int| 0 <= j < e.len() && e[j].0 == kk;
                    assert(s[j].0 == kk);
                }
            }
            assert(keys_distinct(s));
            lemma_map_of_ext(s, target);
            assert forall|kk: ChunkKey| #[trigger] self.meshes@.contains_key(kk) implies key_in_range(kk) by {
                assert(m2.contains_key(kk));
            }
        }
    }
}

/// Merging the same built result twice leaves the world as merging it once.
pub proof fn lemma_merge_idempotent(
    c: Map<ChunkKey, Chunk>,
    m: Map<ChunkKey, Option<ChunkMesh>>,
    data: ChunkBuilderChannelData,
)
    ensures
        merged_chunks(c, seq![data, data]) == merged_chunks(c, seq![data]),
        merged_meshes(m, seq![data, data]) == merged_meshes(m, seq![data]),
{
    let one = seq![data];
    let two = seq![data, data];
    assert(two.drop_last() =~= one);
    assert(one.drop_last() =~= Seq::<ChunkBuilderChannelData>::empty());
    assert(merged_chunks(c, two) =~= merged_chunks(c, one));
    assert(merged_meshes(m, two) =~= merged_meshes(m, one));
}

} // verus!
