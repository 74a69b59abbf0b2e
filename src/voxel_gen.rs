//! Addressing of the voxels of one chunk: a flat grid of `CHUNK_SIZE³` cells,
//! cell `(x, y, z)` stored at `x·S² + y·S + z`.

use vstd::prelude::*;
use vstd::arithmetic::div_mod::{lemma_div_denominator, lemma_fundamental_div_mod};

use crate::world::{Voxel, CHUNK_SIZE};

verus! {

/// Number of cells in a chunk grid.
pub open spec fn grid_len() -> int {
    CHUNK_SIZE * CHUNK_SIZE * CHUNK_SIZE
}

/// Flat position of the cell `(x, y, z)`.
pub open spec fn cell_index(x: int, y: int, z: int) -> int {
    x * (CHUNK_SIZE * CHUNK_SIZE) + y * CHUNK_SIZE + z
}

/// The `x` coordinate of the cell stored at `idx`.
pub open spec fn cell_x(idx: int) -> int {
    idx / (CHUNK_SIZE * CHUNK_SIZE) as int
}

/// The `y` coordinate of the cell stored at `idx`.
pub open spec fn cell_y(idx: int) -> int {
    (idx % (CHUNK_SIZE * CHUNK_SIZE) as int) / CHUNK_SIZE as int
}

/// The `z` coordinate of the cell stored at `idx`.
pub open spec fn cell_z(idx: int) -> int {
    idx % CHUNK_SIZE as int
}

/// Whether `c` is a coordinate inside the grid.
pub open spec fn in_grid(c: int) -> bool {
    0 <= c < CHUNK_SIZE
}

/// Decoding a flat position gives coordinates inside the grid that encode
/// back to it.
pub proof fn lemma_cell_decode(idx: int)
    requires
        0 <= idx < grid_len(),
    ensures
        in_grid(cell_x(idx)),
        in_grid(cell_y(idx)),
        in_grid(cell_z(idx)),
        cell_index(cell_x(idx), cell_y(idx), cell_z(idx)) == idx,
{
}

/// Encoding coordinates inside the grid gives a flat position that decodes
/// back to them.
pub proof fn lemma_cell_encode(x: int, y: int, z: int)
    requires
        in_grid(x),
        in_grid(y),
        in_grid(z),
    ensures
        0 <= cell_index(x, y, z) < grid_len(),
        cell_x(cell_index(x, y, z)) == x,
        cell_y(cell_index(x, y, z)) == y,
        cell_z(cell_index(x, y, z)) == z,
{
    assert(grid_len() == 262144);
}

/// Coordinates of the cell stored at `idx`.
pub fn get_pos(idx: usize) -> (r: (isize, isize, isize))
    requires
        idx < grid_len(),
    ensures
        r.0 == cell_x(idx as int),
        r.1 == cell_y(idx as int),
        r.2 == cell_z(idx as int),
        in_grid(r.0 as int),
        in_grid(r.1 as int),
        in_grid(r.2 as int),
{
    proof {
        lemma_cell_decode(idx as int);
    }
    let x = (idx / (CHUNK_SIZE * CHUNK_SIZE)) as isize;
    let y = ((idx % (CHUNK_SIZE * CHUNK_SIZE)) / CHUNK_SIZE) as isize;
    let z = (idx % CHUNK_SIZE) as isize;
    (x, y, z)
}

/// Flat position of the cell `(x, y, z)`; the inverse of [`get_pos`].
pub fn get_index(x: usize, y: usize, z: usize) -> (r: usize)
    requires
        in_grid(x as int),
        in_grid(y as int),
        in_grid(z as int),
    ensures
        r == cell_index(x as int, y as int, z as int),
        r < grid_len(),
{
    proof {
        lemma_cell_encode(x as int, y as int, z as int);
    }
    x * (CHUNK_SIZE * CHUNK_SIZE) + y * CHUNK_SIZE + z
}

/// Largest level-of-detail stride the mesher takes; it keeps every corner
/// coordinate inside `u32` and every step inside `isize`.
pub const MAX_LOD: usize = 0x7fff_ffff;

/// A mesh corner in the chunk's local voxel coordinates.
#[derive(Clone, Copy, Debug, PartialEq, Eq, Structural)]
pub struct Vertex {
    pub x: u32,
    pub y: u32,
    pub z: u32,
}

/// Whether the cell reached from `(x, y, z)` by `(dx, dy, dz)` lets a face
/// show: it lies outside the grid, or it is air.
pub open spec fn neighbour_open(v: Seq<Voxel>, x: int, y: int, z: int, dx: int, dy: int, dz: int) -> bool {
    let nx = x + dx;
    let ny = y + dy;
    let nz = z + dz;
    !(in_grid(nx) && in_grid(ny) && in_grid(nz)) || v[cell_index(nx, ny, nz)].id == 0
}

/// Whether the neighbour of cell `idx` in `direction` lets a face show.
/// Cells outside the grid always do: chunk borders are never culled against
/// the next chunk.
pub fn is_visible(voxels: &Vec<Voxel>, idx: usize, direction: (isize, isize, isize)) -> (r: bool)
    requires
        voxels@.len() == grid_len(),
        idx < grid_len(),
    ensures
        r == neighbour_open(
            voxels@,
            cell_x(idx as int),
            cell_y(idx as int),
            cell_z(idx as int),
            direction.0 as int,
            direction.1 as int,
            direction.2 as int,
        ),
{
    let (x, y, z) = get_pos(idx);
    let (dx, dy, dz) = direction;
    let nx = x as i128 + dx as i128;
    let ny = y as i128 + dy as i128;
    let nz = z as i128 + dz as i128;
    let s = CHUNK_SIZE as i128;
    if nx < 0 || nx >= s || ny < 0 || ny >= s || nz < 0 || nz >= s {
        return true;
    }
    let neighbour = get_index(nx as usize, ny as usize, nz as usize);
    voxels[neighbour].id == 0
}

/// Step from a cell to its neighbour across face `face` (left, right,
/// bottom, top, back, front) at stride `l`.
pub open spec fn face_step(face: int, l: int) -> (int, int, int) {
    if face == 0 {
        (-l, 0, 0)
    } else if face == 1 {
        (l, 0, 0)
    } else if face == 2 {
        (0, -l, 0)
    } else if face == 3 {
        (0, l, 0)
    } else if face == 4 {
        (0, 0, -l)
    } else {
        (0, 0, l)
    }
}

/// Whether face `face` of the cell at `(x, y, z)` is visible at stride `l`.
pub open spec fn face_open(v: Seq<Voxel>, x: int, y: int, z: int, l: int, face: int) -> bool {
    let d = face_step(face, l);
    neighbour_open(v, x, y, z, d.0, d.1, d.2)
}

pub open spec fn vtx(x: int, y: int, z: int) -> Vertex {
    Vertex { x: x as u32, y: y as u32, z: z as u32 }
}

/// The four corners of face `face` of the block of edge `l` at `(x, y, z)`,
/// in the winding the renderer expects.
pub open spec fn face_corners(x: int, y: int, z: int, l: int, face: int) -> Seq<Vertex> {
    if face == 0 {
        seq![vtx(x, y, z), vtx(x, y, z + l), vtx(x, y + l, z + l), vtx(x, y + l, z)]
    } else if face == 1 {
        seq![vtx(x + l, y, z), vtx(x + l, y + l, z), vtx(x + l, y + l, z + l), vtx(x + l, y, z + l)]
    } else if face == 2 {
        seq![vtx(x, y, z), vtx(x + l, y, z), vtx(x + l, y, z + l), vtx(x, y, z + l)]
    } else if face == 3 {
        seq![vtx(x, y + l, z), vtx(x, y + l, z + l), vtx(x + l, y + l, z + l), vtx(x + l, y + l, z)]
    } else if face == 4 {
        seq![vtx(x, y, z), vtx(x, y + l, z), vtx(x + l, y + l, z), vtx(x + l, y, z)]
    } else {
        seq![vtx(x, y, z + l), vtx(x + l, y, z + l), vtx(x + l, y + l, z + l), vtx(x, y + l, z + l)]
    }
}

/// Corners of the visible faces among the first `f` faces of a cell.
pub open spec fn cell_quads_upto(v: Seq<Voxel>, x: int, y: int, z: int, l: int, f: nat) -> Seq<Vertex>
    decreases f,
{
    if f == 0 {
        seq![]
    } else {
        cell_quads_upto(v, x, y, z, l, (f - 1) as nat) + if face_open(v, x, y, z, l, f - 1) {
            face_corners(x, y, z, l, f - 1)
        } else {
            seq![]
        }
    }
}

/// Corners of the visible faces of the cell at `(x, y, z)`; none for air.
pub open spec fn cell_quads(v: Seq<Voxel>, x: int, y: int, z: int, l: int) -> Seq<Vertex> {
    if v[cell_index(x, y, z)].id == 0 {
        seq![]
    } else {
        cell_quads_upto(v, x, y, z, l, 6)
    }
}

/// Number of sampled cells along each axis at stride `l`.
pub open spec fn samples_per_axis(l: int) -> int {
    (CHUNK_SIZE + l - 1) / l
}

/// The `n`-th sampled cell at stride `l`, in `x`, then `y`, then `z` order.
pub open spec fn sample_cell(l: int, n: int) -> (int, int, int) {
    let m = samples_per_axis(l);
    ((n / (m * m)) * l, ((n / m) % m) * l, (n % m) * l)
}

/// Corners of all visible faces of the first `n` sampled cells.
pub open spec fn mesh_vertices_upto(v: Seq<Voxel>, l: int, n: nat) -> Seq<Vertex>
    decreases n,
{
    if n == 0 {
        seq![]
    } else {
        let c = sample_cell(l, n - 1);
        mesh_vertices_upto(v, l, (n - 1) as nat) + cell_quads(v, c.0, c.1, c.2, l)
    }
}

/// Corners of all visible faces of the grid meshed at stride `l`.
pub open spec fn mesh_vertices(v: Seq<Voxel>, l: int) -> Seq<Vertex> {
    let m = samples_per_axis(l);
    mesh_vertices_upto(v, l, (m * m * m) as nat)
}

/// Position within its quad of the corner named by the `p`-th of the six
/// indices that split the quad into two triangles.
pub open spec fn quad_corner(p: int) -> int {
    if p == 0 {
        0
    } else if p == 1 {
        1
    } else if p == 2 {
        2
    } else if p == 3 {
        2
    } else if p == 4 {
        3
    } else {
        0
    }
}

/// Index list for `quads` quads of four consecutive vertices each:
/// `[0, 1, 2, 2, 3, 0]` shifted by four per quad.
pub open spec fn quad_indices(quads: nat) -> Seq<u32> {
    Seq::new(6 * quads, |i: int| (4 * (i / 6) + quad_corner(i % 6)) as u32)
}

/// At any stride there are between one and `CHUNK_SIZE` samples per axis,
/// and the last one starts inside the grid.
proof fn lemma_samples_per_axis(l: int)
    requires
        1 <= l,
    ensures
        1 <= samples_per_axis(l) <= CHUNK_SIZE,
        (samples_per_axis(l) - 1) * l < CHUNK_SIZE,
{
    let m = samples_per_axis(l);
    let s = CHUNK_SIZE as int;
    lemma_fundamental_div_mod(s + l - 1, l);
    assert(m * l <= s + l - 1);
    assert(m >= 1) by (nonlinear_arith)
        requires m * l + (s + l - 1) % l == s + l - 1, 0 <= (s + l - 1) % l < l, s == 64, 1 <= l;
    assert(m <= s) by (nonlinear_arith)
        requires m * l <= s + l - 1, 1 <= l, s == 64;
    assert((m - 1) * l == m * l - l) by (nonlinear_arith);
}

/// Sampled cells stay inside the grid.
proof fn lemma_sample_in_grid(l: int, n: int)
    requires
        1 <= l,
        0 <= n < samples_per_axis(l) * samples_per_axis(l) * samples_per_axis(l),
    ensures
        0 <= sample_cell(l, n).0 < CHUNK_SIZE,
        0 <= sample_cell(l, n).1 < CHUNK_SIZE,
        0 <= sample_cell(l, n).2 < CHUNK_SIZE,
        0 <= n / (samples_per_axis(l) * samples_per_axis(l)) < samples_per_axis(l),
{
    let m = samples_per_axis(l);
    let s = CHUNK_SIZE as int;
    lemma_samples_per_axis(l);
    assert(m * m >= 1) by (nonlinear_arith)
        requires m >= 1;
    lemma_fundamental_div_mod(n, m * m);
    let a = n / (m * m);
    assert(0 <= a < m) by (nonlinear_arith)
        requires n == (m * m) * a + n % (m * m), 0 <= n % (m * m), n % (m * m) < m * m, 0 <= n, n < m * m * m, m >= 1;
    let b = (n / m) % m;
    let c = n % m;
    assert(forall|k: int| 0 <= k < m ==> 0 <= #[trigger] (k * l) < s) by {
        assert forall|k: int| 0 <= k < m implies 0 <= #[trigger] (k * l) < s by {
            assert(0 <= k * l <= (m - 1) * l) by (nonlinear_arith)
                requires 0 <= k <= m - 1, 1 <= l;
        }
    }
    assert(0 <= b < m && 0 <= c < m);
    assert(0 <= a * l < s);
    assert(0 <= b * l < s);
    assert(0 <= c * l < s);
}

/// Appends face `face` of the block of edge `l` at `(x, y, z)`, with the two
/// triangles that cover it.
fn push_face(vertices: &mut Vec<Vertex>, indices: &mut Vec<u32>, x: u32, y: u32, z: u32, l: u32, face: usize)
    requires
        x + l <= u32::MAX,
        y + l <= u32::MAX,
        z + l <= u32::MAX,
        face < 6,
        old(vertices)@.len() % 4 == 0,
        old(vertices)@.len() + 4 <= u32::MAX,
        old(indices)@ == quad_indices((old(vertices)@.len() / 4) as nat),
    ensures
        final(vertices)@ == old(vertices)@ + face_corners(x as int, y as int, z as int, l as int, face as int),
        final(indices)@ == quad_indices((final(vertices)@.len() / 4) as nat),
        final(vertices)@.len() % 4 == 0,
{
    let start = vertices.len() as u32;
    let xl = x + l;
    let yl = y + l;
    let zl = z + l;
    if face == 0 {
        vertices.push(Vertex { x, y, z });
        vertices.push(Vertex { x, y, z: zl });
        vertices.push(Vertex { x, y: yl, z: zl });
        vertices.push(Vertex { x, y: yl, z });
    } else if face == 1 {
        vertices.push(Vertex { x: xl, y, z });
        vertices.push(Vertex { x: xl, y: yl, z });
        vertices.push(Vertex { x: xl, y: yl, z: zl });
        vertices.push(Vertex { x: xl, y, z: zl });
    } else if face == 2 {
        vertices.push(Vertex { x, y, z });
        vertices.push(Vertex { x: xl, y, z });
        vertices.push(Vertex { x: xl, y, z: zl });
        vertices.push(Vertex { x, y, z: zl });
    } else if face == 3 {
        vertices.push(Vertex { x, y: yl, z });
        vertices.push(Vertex { x, y: yl, z: zl });
        vertices.push(Vertex { x: xl, y: yl, z: zl });
        vertices.push(Vertex { x: xl, y: yl, z });
    } else if face == 4 {
        vertices.push(Vertex { x, y, z });
        vertices.push(Vertex { x, y: yl, z });
        vertices.push(Vertex { x: xl, y: yl, z });
        vertices.push(Vertex { x: xl, y, z });
    } else {
        vertices.push(Vertex { x, y, z: zl });
        vertices.push(Vertex { x: xl, y, z: zl });
        vertices.push(Vertex { x: xl, y: yl, z: zl });
        vertices.push(Vertex { x, y: yl, z: zl });
    }
    indices.push(start);
    indices.push(start + 1);
    indices.push(start + 2);
    indices.push(start + 2);
    indices.push(start + 3);
    indices.push(start);
    proof {
        let xi = x as int;
        let yi = y as int;
        let zi = z as int;
        let li = l as int;
        assert(vertices@ =~= old(vertices)@ + face_corners(xi, yi, zi, li, face as int));
        let q = (old(vertices)@.len() / 4) as nat;
        assert(vertices@.len() / 4 == q + 1);
        assert forall|i: int| 0 <= i < 6 * (q + 1) implies #[trigger] indices@[i] == quad_indices(q + 1)[i] by {
            if i < 6 * q {
                assert(indices@[i] == old(indices)@[i]);
            } else {
                assert(i / 6 == q);
            }
        }
        assert(indices@ =~= quad_indices(q + 1));
    }
}

/// The step across face `face` at stride `lod`.
fn face_step_exec(face: usize, lod: usize) -> (r: (isize, isize, isize))
    requires
        face < 6,
        lod <= MAX_LOD,
    ensures
        (r.0 as int, r.1 as int, r.2 as int) == face_step(face as int, lod as int),
{
    let l = lod as isize;
    if face == 0 {
        (-l, 0, 0)
    } else if face == 1 {
        (l, 0, 0)
    } else if face == 2 {
        (0, -l, 0)
    } else if face == 3 {
        (0, l, 0)
    } else if face == 4 {
        (0, 0, -l)
    } else {
        (0, 0, l)
    }
}

/// Meshes a chunk grid at stride `lod`: every `lod`-th cell along each axis
/// is taken as a block of edge `lod`, and each face of a solid block whose
/// neighbour one stride away is air or outside the grid becomes a quad of
/// four fresh vertices and six indices.
pub fn gen_mesh_data_culled(voxels: &Vec<Voxel>, lod: usize) -> (r: (Vec<Vertex>, Vec<u32>))
    requires
        voxels@.len() == grid_len(),
        1 <= lod <= MAX_LOD,
    ensures
        r.0@ == mesh_vertices(voxels@, lod as int),
        r.0@.len() % 4 == 0,
        r.1@ == quad_indices((r.0@.len() / 4) as nat),
{
    let ghost v = voxels@;
    let ghost l = lod as int;
    let m = (CHUNK_SIZE + lod - 1) / lod;
    proof {
        lemma_samples_per_axis(l);
        assert(m * m <= 4096) by (nonlinear_arith)
            requires 1 <= m <= 64;
        assert(m * m * m <= 262144) by (nonlinear_arith)
            requires 1 <= m <= 64, m * m <= 4096;
    }
    let mm = m * m;
    let total = mm * m;
    let mut vertices: Vec<Vertex> = Vec::new();
    let mut indices: Vec<u32> = Vec::new();
    let mut n: usize = 0;
    while n < total
        invariant
            v == voxels@,
            v.len() == grid_len(),
            l == lod as int,
            1 <= lod <= MAX_LOD,
            m == samples_per_axis(l),
            1 <= m <= CHUNK_SIZE,
            mm == m * m,
            total == m * m * m,
            total <= 262144,
            n <= total,
            vertices@ == mesh_vertices_upto(v, l, n as nat),
            vertices@.len() % 4 == 0,
            vertices@.len() <= 24 * n,
            indices@ == quad_indices((vertices@.len() / 4) as nat),
        decreases total - n,
    {
        proof {
            lemma_sample_in_grid(l, n as int);
        }
        let x = (n / mm) * lod;
        let y = ((n / m) % m) * lod;
        let z = (n % m) * lod;
        let ghost c = sample_cell(l, n as int);
        assert(x == c.0 && y == c.1 && z == c.2);
        let idx = get_index(x, y, z);
        proof {
            lemma_cell_encode(x as int, y as int, z as int);
        }
        let ghost before = vertices@;
        if voxels[idx].id != 0 {
            let mut face: usize = 0;
            while face < 6
                invariant
                    v == voxels@,
                    v.len() == grid_len(),
                    idx == cell_index(x as int, y as int, z as int),
                    cell_x(idx as int) == x,
                    cell_y(idx as int) == y,
                    cell_z(idx as int) == z,
                    idx < grid_len(),
                    x < CHUNK_SIZE,
                    y < CHUNK_SIZE,
                    z < CHUNK_SIZE,
                    1 <= lod <= MAX_LOD,
                    l == lod as int,
                    n < total,
                    total <= 262144,
                    face <= 6,
                    vertices@ == before + cell_quads_upto(v, x as int, y as int, z as int, l, face as nat),
                    vertices@.len() % 4 == 0,
                    vertices@.len() <= 24 * n + 4 * face,
                    indices@ == quad_indices((vertices@.len() / 4) as nat),
                decreases 6 - face,
            {
                let step = face_step_exec(face, lod);
                if is_visible(voxels, idx, step) {
                    push_face(&mut vertices, &mut indices, x as u32, y as u32, z as u32, lod as u32, face);
                }
                assert(vertices@ =~= before + cell_quads_upto(v, x as int, y as int, z as int, l, (face + 1) as nat));
                face += 1;
            }
        } else {
            assert(vertices@ =~= before + cell_quads(v, x as int, y as int, z as int, l));
        }
        assert(vertices@ =~= mesh_vertices_upto(v, l, (n + 1) as nat));
        n += 1;
    }
    (vertices, indices)
}

/// Euclidean remainder of a world voxel coordinate by the chunk size.
pub open spec fn wrap_coord(c: int) -> int {
    c % CHUNK_SIZE as int
}

/// Flat position, inside its own chunk, of the voxel at world voxel
/// coordinates `pos` (negative coordinates wrap like positive ones).
pub fn get_voxel(pos: (i32, i32, i32)) -> (r: usize)
    ensures
        r == cell_index(wrap_coord(pos.0 as int), wrap_coord(pos.1 as int), wrap_coord(pos.2 as int)),
        r < grid_len(),
{
    get_index(wrap(pos.0), wrap(pos.1), wrap(pos.2))
}

fn wrap(c: i32) -> (r: usize)
    ensures
        r == wrap_coord(c as int),
        r < CHUNK_SIZE,
{
    let s = CHUNK_SIZE as i32;
    let t = c % s;
    assert(-64 < t < 64);
    assert((t + 64) % 64 == (c as int) % 64) by {
        lemma_fundamental_div_mod(c as int, 64);
    }
    ((t + s) % s) as usize
}

/// A grid of air meshes to nothing, at any stride.
pub proof fn lemma_empty_grid_no_mesh(v: Seq<Voxel>, l: int)
    requires
        v.len() == grid_len(),
        1 <= l,
        forall|i: int| 0 <= i < v.len() ==> #[trigger] v[i].id == 0,
    ensures
        mesh_vertices(v, l) =~= Seq::<Vertex>::empty(),
        quad_indices((mesh_vertices(v, l).len() / 4) as nat) =~= Seq::<u32>::empty(),
{
    let m = samples_per_axis(l);
    lemma_samples_per_axis(l);
    assert(m * m * m >= 0) by (nonlinear_arith)
        requires m >= 1;
    lemma_empty_upto(v, l, (m * m * m) as nat);
}

proof fn lemma_empty_upto(v: Seq<Voxel>, l: int, n: nat)
    requires
        v.len() == grid_len(),
        1 <= l,
        n <= samples_per_axis(l) * samples_per_axis(l) * samples_per_axis(l),
        forall|i: int| 0 <= i < v.len() ==> #[trigger] v[i].id == 0,
    ensures
        mesh_vertices_upto(v, l, n) =~= Seq::<Vertex>::empty(),
    decreases n,
{
    if n > 0 {
        lemma_empty_upto(v, l, (n - 1) as nat);
        lemma_sample_in_grid(l, n - 1);
        let c = sample_cell(l, n - 1);
        lemma_cell_encode(c.0, c.1, c.2);
        assert(v[cell_index(c.0, c.1, c.2)].id == 0);
    }
}

/// At stride 1 the `n`-th sample is the cell stored at `n`.
proof fn lemma_unit_stride_sample(n: int)
    requires
        0 <= n < grid_len(),
    ensures
        samples_per_axis(1) == CHUNK_SIZE,
        sample_cell(1, n) == (cell_x(n), cell_y(n), cell_z(n)),
{
    assert(samples_per_axis(1) == 64);
    lemma_div_denominator(n, 64, 64);
    lemma_fundamental_div_mod(n, 64);
    lemma_fundamental_div_mod(n / 64, 64);
    lemma_fundamental_div_mod(n, 4096);
    lemma_cell_decode(n);
    let a = n / 4096;
    assert((n / 64) / 64 == a);
    assert(cell_index(a, (n / 64) % 64, n % 64) == n);
    lemma_cell_encode(a, (n / 64) % 64, n % 64);
}

/// A solid cell whose six neighbours are air shows all six faces.
proof fn lemma_isolated_cell_quads(v: Seq<Voxel>, x: int, y: int, z: int)
    requires
        v.len() == grid_len(),
        1 <= x < CHUNK_SIZE - 1,
        1 <= y < CHUNK_SIZE - 1,
        1 <= z < CHUNK_SIZE - 1,
        v[cell_index(x, y, z)].id != 0,
        forall|i: int| 0 <= i < v.len() && i != cell_index(x, y, z) ==> #[trigger] v[i].id == 0,
    ensures
        cell_quads(v, x, y, z, 1).len() == 24,
{
    lemma_cell_encode(x, y, z);
    assert forall|f: int| 0 <= f < 6 implies #[trigger] face_open(v, x, y, z, 1, f) by {
        let d = face_step(f, 1);
        lemma_cell_encode(x + d.0, y + d.1, z + d.2);
    }
    assert(face_open(v, x, y, z, 1, 0));
    assert(face_open(v, x, y, z, 1, 1));
    assert(face_open(v, x, y, z, 1, 2));
    assert(face_open(v, x, y, z, 1, 3));
    assert(face_open(v, x, y, z, 1, 4));
    assert(face_open(v, x, y, z, 1, 5));
    reveal_with_fuel(cell_quads_upto, 7);
}

proof fn lemma_isolated_upto(v: Seq<Voxel>, x: int, y: int, z: int, n: nat)
    requires
        v.len() == grid_len(),
        1 <= x < CHUNK_SIZE - 1,
        1 <= y < CHUNK_SIZE - 1,
        1 <= z < CHUNK_SIZE - 1,
        n <= grid_len(),
        v[cell_index(x, y, z)].id != 0,
        forall|i: int| 0 <= i < v.len() && i != cell_index(x, y, z) ==> #[trigger] v[i].id == 0,
    ensures
        mesh_vertices_upto(v, 1, n).len() == if n > cell_index(x, y, z) { 24int } else { 0int },
    decreases n,
{
    if n > 0 {
        lemma_isolated_upto(v, x, y, z, (n - 1) as nat);
        lemma_unit_stride_sample(n - 1);
        lemma_cell_decode(n - 1);
        if n - 1 == cell_index(x, y, z) {
            lemma_cell_encode(x, y, z);
            lemma_isolated_cell_quads(v, x, y, z);
        }
    }
}

/// A single solid voxel away from the grid border, surrounded by air,
/// meshes at stride 1 to its six faces: 24 vertices and 36 indices.
pub proof fn lemma_single_voxel_six_faces(v: Seq<Voxel>, x: int, y: int, z: int)
    requires
        v.len() == grid_len(),
        1 <= x < CHUNK_SIZE - 1,
        1 <= y < CHUNK_SIZE - 1,
        1 <= z < CHUNK_SIZE - 1,
        v[cell_index(x, y, z)].id != 0,
        forall|i: int| 0 <= i < v.len() && i != cell_index(x, y, z) ==> #[trigger] v[i].id == 0,
    ensures
        mesh_vertices(v, 1).len() == 24,
        quad_indices((mesh_vertices(v, 1).len() / 4) as nat).len() == 36,
{
    lemma_cell_encode(x, y, z);
    assert(samples_per_axis(1) == 64);
    lemma_isolated_upto(v, x, y, z, grid_len() as nat);
}

/// Faces that point out of the grid are always shown, whatever lies in the
/// next chunk.
pub proof fn lemma_border_faces_shown(v: Seq<Voxel>, x: int, y: int, z: int, l: int)
    requires
        in_grid(x),
        in_grid(y),
        in_grid(z),
        1 <= l,
    ensures
        x == 0 ==> face_open(v, x, y, z, l, 0),
        x + l >= CHUNK_SIZE ==> face_open(v, x, y, z, l, 1),
        y == 0 ==> face_open(v, x, y, z, l, 2),
        y + l >= CHUNK_SIZE ==> face_open(v, x, y, z, l, 3),
        z == 0 ==> face_open(v, x, y, z, l, 4),
        z + l >= CHUNK_SIZE ==> face_open(v, x, y, z, l, 5),
{
}

} // verus!
