use voxel_world::camera::Camera;
use voxel_world::chunkmesh::{ChunkMesh, IndexedDraw};
use voxel_world::culler::{Frustum, Lens, Plane, Transform, AABB};
use voxel_world::geometry::sphere_indices;
use voxel_world::voxel_gen::Vertex;

fn camera() -> Camera {
    Camera { pos: (0, 0, 0), front: (0, 0, 256), right: (256, 0, 0), up: (0, 256, 0) }
}

fn identity() -> Transform {
    Transform { x_axis: (1, 0, 0), y_axis: (0, 1, 0), z_axis: (0, 0, 1), translation: (0, 0, 0) }
}

#[test]
fn sphere_index_pattern() {
    let idx = sphere_indices(2);
    assert_eq!(idx.len(), 24);
    assert_eq!(&idx[0..6], &[0, 3, 1, 3, 4, 1]);
    assert_eq!(&idx[6..12], &[1, 4, 2, 4, 5, 2]);
    assert_eq!(&idx[18..24], &[4, 7, 5, 7, 8, 5]);
    assert!(sphere_indices(0).is_empty());
    let idx = sphere_indices(16);
    assert_eq!(idx.len(), 6 * 16 * 16);
    assert_eq!(*idx.iter().max().unwrap(), 17 * 17 - 1);
}

#[test]
fn box_culling() {
    let f = Frustum::sample_from_camera(&camera(), &Lens::standard());
    let ahead = AABB::new((-1_000, -1_000, 10_000), (1_000, 1_000, 12_000));
    assert!(ahead.is_on_frustrum(&f, &identity()));
    let behind = AABB::new((-1_000, -1_000, -12_000), (1_000, 1_000, -10_000));
    assert!(!behind.is_on_frustrum(&f, &identity()));
    // a box straddling the camera reaches inside
    let around = AABB::new((-5_000, -5_000, -5_000), (5_000, 5_000, 5_000));
    assert!(around.is_on_frustrum(&f, &identity()));
    // moved behind the camera by the model's translation
    let moved = Transform { translation: (0, 0, -30_000), ..identity() };
    assert!(!ahead.is_on_frustrum(&f, &moved));
    // mirrored along z by the model's linear part
    let mirrored = Transform { z_axis: (0, 0, -1), ..identity() };
    assert!(!ahead.is_on_frustrum(&f, &mirrored));
    assert!(behind.is_on_frustrum(&f, &mirrored));
    // beyond the far plane, and far off to the side
    let far = AABB::new((0, 0, 1_100_000), (1_000, 1_000, 1_200_000));
    assert!(!far.is_on_frustrum(&f, &identity()));
    let side = AABB::new((900_000, 0, 100_000), (901_000, 1_000, 101_000));
    assert!(!side.is_on_frustrum(&f, &identity()));
    // stretched by the model, the side box reaches into view
    let stretched = Transform { x_axis: (-16, 0, 0), ..identity() };
    let wide = AABB::new((-1_000, 0, 100_000), (30_000, 1_000, 101_000));
    assert!(wide.is_on_frustrum(&f, &stretched));
}

#[test]
fn plane_offset_along_normal() {
    let p = Plane::new((0, 0, 0), (0, 0, 3), 500);
    assert!(p.admits((0, 0, 500), 0));
    assert!(!p.admits((0, 0, 499), 0));
    assert!(p.admits((0, 0, 400), 100));
    assert!(!p.admits((7, -9, 399), 100));
    let flat = Plane::new((0, 0, 0), (0, 0, 0), 500);
    assert!(flat.admits((0, 0, -10_000), 0));
}

#[test]
fn indirect_draw_of_whole_mesh() {
    let m = ChunkMesh::new(vec![Vertex { x: 0, y: 0, z: 0 }; 8], vec![0, 1, 2, 2, 3, 0, 4, 5, 6, 6, 7, 4], (64, 0, -64));
    assert!(m.visible);
    assert_eq!(
        m.get_indirect_command(),
        IndexedDraw { index_count: 12, instance_count: 1, first_index: 0, vertex_offset: 0, first_instance: 0 }
    );
}

#[test]
fn camera_range_check() {
    assert!(camera().in_range());
    let far = Camera { pos: (0, 0x8000_0001, 0), ..camera() };
    assert!(!far.in_range());
    let long = Camera { front: (0, 0, 257), ..camera() };
    assert!(!long.in_range());
}
