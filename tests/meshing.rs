use voxel_world::voxel_gen::{gen_mesh_data_culled, get_index, get_pos, get_voxel, is_visible, Vertex};
use voxel_world::world::{Voxel, CHUNK_SIZE};

fn empty_grid() -> Vec<Voxel> {
    vec![Voxel { id: 0 }; CHUNK_SIZE * CHUNK_SIZE * CHUNK_SIZE]
}

fn v(x: u32, y: u32, z: u32) -> Vertex {
    Vertex { x, y, z }
}

#[test]
fn pos_and_index_are_inverse() {
    assert_eq!(get_pos(0), (0, 0, 0));
    assert_eq!(get_pos(1), (0, 0, 1));
    assert_eq!(get_pos(64), (0, 1, 0));
    assert_eq!(get_pos(4096), (1, 0, 0));
    assert_eq!(get_pos(262143), (63, 63, 63));
    assert_eq!(get_index(1, 2, 3), 4096 + 128 + 3);
    for idx in [0usize, 77, 4095, 100_000, 262_143] {
        let (x, y, z) = get_pos(idx);
        assert_eq!(get_index(x as usize, y as usize, z as usize), idx);
    }
}

#[test]
fn voxel_of_world_position_wraps() {
    assert_eq!(get_voxel((0, 0, 0)), 0);
    assert_eq!(get_voxel((65, 0, 0)), 4096);
    assert_eq!(get_voxel((-1, 0, 0)), 63 * 4096);
    assert_eq!(get_voxel((-64, -65, 130)), 63 * 64 + 2);
}

#[test]
fn neighbour_outside_grid_is_visible() {
    let mut g = empty_grid();
    g[get_index(0, 0, 0)].id = 1;
    g[get_index(1, 0, 0)].id = 1;
    let idx = get_index(0, 0, 0);
    assert!(is_visible(&g, idx, (-1, 0, 0)));
    assert!(!is_visible(&g, idx, (1, 0, 0)));
    assert!(is_visible(&g, idx, (0, 1, 0)));
    assert!(is_visible(&g, get_index(63, 5, 5), (64, 0, 0)));
    assert!(is_visible(&g, idx, (isize::MIN, 0, 0)));
}

#[test]
fn empty_grid_meshes_to_nothing() {
    let g = empty_grid();
    for lod in [1usize, 3, 5, 9] {
        let (vs, is) = gen_mesh_data_culled(&g, lod);
        assert!(vs.is_empty());
        assert!(is.is_empty());
    }
}

#[test]
fn single_interior_voxel_has_six_faces() {
    let mut g = empty_grid();
    g[get_index(10, 20, 30)].id = 1;
    let (vs, is) = gen_mesh_data_culled(&g, 1);
    assert_eq!(vs.len(), 24);
    assert_eq!(is.len(), 36);
    // left face first, in its fixed winding
    assert_eq!(&vs[0..4], &[v(10, 20, 30), v(10, 20, 31), v(10, 21, 31), v(10, 21, 30)]);
    // front face last
    assert_eq!(&vs[20..24], &[v(10, 20, 31), v(11, 20, 31), v(11, 21, 31), v(10, 21, 31)]);
    assert_eq!(&is[0..6], &[0, 1, 2, 2, 3, 0]);
    assert_eq!(&is[30..36], &[20, 21, 22, 22, 23, 20]);
}

#[test]
fn border_voxel_keeps_outward_faces() {
    let mut g = empty_grid();
    g[get_index(0, 0, 0)].id = 1;
    let (vs, is) = gen_mesh_data_culled(&g, 1);
    assert_eq!(vs.len(), 24);
    assert_eq!(is.len(), 36);
    let mut full = vec![Voxel { id: 1 }; CHUNK_SIZE * CHUNK_SIZE * CHUNK_SIZE];
    let (vs, _) = gen_mesh_data_culled(&full, 1);
    // only the six outer walls show: 6 * 64 * 64 quads
    assert_eq!(vs.len(), 4 * 6 * 64 * 64);
    full[get_index(5, 5, 5)].id = 0;
    let (vs2, _) = gen_mesh_data_culled(&full, 1);
    assert_eq!(vs2.len(), vs.len() + 4 * 6);
}

#[test]
fn adjacent_voxels_hide_shared_faces() {
    let mut g = empty_grid();
    g[get_index(4, 4, 4)].id = 1;
    g[get_index(5, 4, 4)].id = 1;
    let (vs, is) = gen_mesh_data_culled(&g, 1);
    assert_eq!(vs.len(), 4 * 10);
    assert_eq!(is.len(), 6 * 10);
}

#[test]
fn coarse_stride_samples_every_lod_cell() {
    let mut g = empty_grid();
    g[get_index(3, 3, 3)].id = 1;
    g[get_index(4, 4, 4)].id = 1;
    let (vs, is) = gen_mesh_data_culled(&g, 3);
    // only (3, 3, 3) is sampled at stride 3; its block has edge 3
    assert_eq!(vs.len(), 24);
    assert_eq!(is.len(), 36);
    assert_eq!(vs[4], v(6, 3, 3));
    assert_eq!(vs[6], v(6, 6, 6));
    // a stride wider than the grid samples the origin only
    let (vs, _) = gen_mesh_data_culled(&g, 100);
    assert!(vs.is_empty());
}
