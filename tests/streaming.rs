use voxel_world::camera::Camera;
use voxel_world::chunk_builder::{
    build_chunk, get_lod_by_distance, info_keys, BuilderError, ChunkBuilderChannelData, ChunkBuilderCommands,
};
use voxel_world::culler::{ChunkCuller, Frustum, Lens, Sphere};
use voxel_world::mesh_spawner::{SpawnCommand, CLEAR_CODE};
use voxel_world::voxel_gen::get_index;
use voxel_world::world::{Chunk, ChunkKey, ChunkWorld};

const UNIT: i64 = 256;

fn camera_at(x: i64, y: i64, z: i64) -> Camera {
    Camera { pos: (x, y, z), front: (0, 0, UNIT), right: (UNIT, 0, 0), up: (0, UNIT, 0) }
}

fn ground(_x: i64, y: i64, _z: i64) -> bool {
    y < 10
}

fn air(_x: i64, _y: i64, _z: i64) -> bool {
    false
}

fn lumpy(x: i64, y: i64, z: i64) -> bool {
    (x * 7 + y * 13 + z * 3).rem_euclid(11) < 4
}

#[test]
fn generation_follows_world_position() {
    let c = Chunk::new((0, 0, 0), &ground);
    assert_eq!(c.key, (0, 0, 0));
    assert_eq!(c.lod, 0);
    assert!(!c.outdated);
    assert_eq!(c.voxels[get_index(5, 9, 5)].id, 1);
    assert_eq!(c.voxels[get_index(5, 10, 5)].id, 0);
    let below = Chunk::new((2, -1, 3), &ground);
    assert!(below.voxels.iter().all(|v| v.id == 1));
}

#[test]
fn generation_is_deterministic() {
    let a = Chunk::new((3, -2, 7), &lumpy);
    let b = Chunk::new((3, -2, 7), &lumpy);
    assert_eq!(a.voxels, b.voxels);
}

#[test]
fn seams_agree_with_one_field() {
    let a = Chunk::new((0, 0, 0), &lumpy);
    let b = Chunk::new((1, 0, 0), &lumpy);
    for y in 0..64usize {
        for z in 0..64usize {
            let left = a.voxels[get_index(63, y, z)].id == 1;
            let right = b.voxels[get_index(0, y, z)].id == 1;
            assert_eq!(left, lumpy(63, y as i64, z as i64));
            assert_eq!(right, lumpy(64, y as i64, z as i64));
        }
    }
}

#[test]
fn chunk_positions() {
    assert_eq!(Chunk::get_worldpos(&(1, -2, 3)), (64_000, -128_000, 192_000));
    assert_eq!(Chunk::get_ijk_chunkspace((0, 63_999, -1)), (0, 0, -1));
    assert_eq!(Chunk::get_ijk_chunkspace((-64_000, 64_000, -64_001)), (-1, 1, -2));
}

#[test]
fn lod_bands_by_distance() {
    let k: ChunkKey = (0, 0, 0);
    assert_eq!(get_lod_by_distance(&camera_at(0, 0, 0), k), 0);
    assert_eq!(get_lod_by_distance(&camera_at(99_999, 0, 0), k), 0);
    assert_eq!(get_lod_by_distance(&camera_at(100_000, 0, 0), k), 2);
    assert_eq!(get_lod_by_distance(&camera_at(0, 199_999, 0), k), 2);
    assert_eq!(get_lod_by_distance(&camera_at(0, 200_000, 0), k), 4);
    assert_eq!(get_lod_by_distance(&camera_at(0, 0, -299_999), k), 4);
    assert_eq!(get_lod_by_distance(&camera_at(0, 0, -300_000), k), 8);
    assert_eq!(get_lod_by_distance(&camera_at(0, 0, 5_000_000), k), 8);
    let mut last = 0;
    for d in (0..500_000).step_by(997) {
        let lod = get_lod_by_distance(&camera_at(d, 0, 0), k);
        assert!(lod == 0 || lod == 2 || lod == 4 || lod == 8);
        assert!(lod >= last);
        last = lod;
    }
}

#[test]
fn culling_front_and_back() {
    let cam = camera_at(0, 0, 0);
    assert!(ChunkCuller::is_visible((0, 0, 2), &cam));
    assert!(ChunkCuller::is_visible((0, 0, 0), &cam));
    // 64 voxels behind the camera is 64.1 behind the near plane: just out
    assert!(!ChunkCuller::is_visible((0, 0, -1), &cam));
    assert!(!ChunkCuller::is_visible((0, 0, -2), &cam));
    assert!(!ChunkCuller::is_visible((0, 0, 17), &cam));
    assert!(ChunkCuller::is_visible((0, 0, 15), &cam));
    assert!(!ChunkCuller::is_visible((12, 0, 2), &cam));
}

#[test]
fn sphere_on_camera_visible_and_far_behind_hidden() {
    let cam = Camera { pos: (5_000, -7_000, 1_234), front: (181, 0, 181), right: (181, 0, -181), up: (0, 256, 0) };
    let lens = Lens::standard();
    let f = Frustum::sample_from_camera(&cam, &lens);
    assert!(Sphere { center: cam.pos, radius: 100 }.is_on_frustrum(&f));
    assert!(Sphere { center: cam.pos, radius: 64_000 }.is_on_frustrum(&f));
    assert!(!Sphere { center: cam.pos, radius: 99 }.is_on_frustrum(&f));
    let behind = (cam.pos.0 - 181 * 400, cam.pos.1, cam.pos.2 - 181 * 400);
    // 400 front lengths = about 102 400 fine units behind
    assert!(!Sphere { center: behind, radius: 64_000 }.is_on_frustrum(&f));
    assert!(Sphere { center: behind, radius: 110_000 }.is_on_frustrum(&f));
}

#[test]
fn worker_scans_its_slab() {
    let cam = camera_at(10, 10, 10);
    let keys = info_keys(&cam, &vec![], 0);
    assert_eq!(keys.len(), 24);
    assert_eq!(keys[0], (0, -2, -3));
    assert_eq!(keys[1], (0, -1, -3));
    assert_eq!(keys[4], (0, -2, -2));
    assert_eq!(keys[23], (0, 1, 2));
    let keys = info_keys(&cam, &vec![(-3, 0, 0), (-3, -2, -3), (5, 5, 5)], -3);
    assert_eq!(keys.len(), 22);
    assert!(!keys.contains(&(-3, 0, 0)));
    assert!(!keys.contains(&(-3, -2, -3)));
    let moved = camera_at(-1, 64_000, 200_000);
    let keys = info_keys(&moved, &vec![], 2);
    assert_eq!(keys[0], (1, -1, 0));
}

#[test]
fn targeted_rebuild_is_unimplemented() {
    let cmd = ChunkBuilderCommands::NewChunk((0, 0, 0), vec![]);
    assert_eq!(cmd.keys_for_worker(0).err(), Some(BuilderError::Unimplemented));
    let cmd = ChunkBuilderCommands::Info(camera_at(0, 0, 0), vec![(1, 0, 0)]);
    assert_eq!(cmd.keys_for_worker(1).unwrap().len(), 23);
}

#[test]
fn built_chunk_has_lod_and_mesh() {
    let cam = camera_at(0, 0, 0);
    let d = build_chunk((0, 0, 0), &cam, &ground);
    let (k, chunk, mesh) = d.chunk;
    assert_eq!(k, (0, 0, 0));
    assert_eq!(chunk.lod, 0);
    let mesh = mesh.unwrap();
    assert!(mesh.visible);
    assert_eq!(mesh.offset, (0, 0, 0));
    // top of the ground slab plus the four side walls and the bottom
    assert_eq!(mesh.vertices.len(), 4 * (64 * 64 * 2 + 4 * 64 * 10));
    let d = build_chunk((3, 1, 0), &cam, &air);
    assert_eq!(d.chunk.1.lod, 4);
    assert!(d.chunk.2.is_none());
    let d = build_chunk((0, 4, 0), &cam, &ground);
    assert!(d.chunk.2.is_none());
    let d = build_chunk((0, -4, 1), &cam, &ground);
    assert_eq!(d.chunk.1.lod, 4);
    assert_eq!(d.chunk.2.unwrap().offset, (0, -256, 64));
}

fn result(cam: &Camera, key: ChunkKey) -> ChunkBuilderChannelData {
    build_chunk(key, cam, &air)
}

#[test]
fn merging_twice_equals_merging_once() {
    let cam = camera_at(0, 0, 0);
    let mut once = ChunkWorld::new();
    let mut twice = ChunkWorld::new();
    once.merge(result(&cam, (1, 0, 0)));
    twice.merge(result(&cam, (1, 0, 0)));
    twice.merge(result(&cam, (1, 0, 0)));
    assert_eq!(once.existing_keys(), twice.existing_keys());
    assert_eq!(twice.existing_keys(), vec![(1, 0, 0)]);
    assert_eq!(once.meshes.len(), twice.meshes.len());
    once.update(&cam, vec![result(&cam, (0, 1, 0))]);
    twice.update(&cam, vec![result(&cam, (0, 1, 0)), result(&cam, (0, 1, 0))]);
    assert_eq!(once.existing_keys(), twice.existing_keys());
    assert_eq!(once.meshes.len(), 2);
    assert_eq!(twice.meshes.len(), 2);
}

#[test]
fn outdated_chunks_leave_one_tick_later() {
    let near = camera_at(0, 0, 0);
    let mut w = ChunkWorld::new();
    w.update(&near, vec![result(&near, (0, 0, 0))]);
    assert_eq!(w.existing_keys(), vec![(0, 0, 0)]);
    // moving 150 voxels away makes the stored level of detail stale
    let away = camera_at(150_000, 0, 0);
    w.update(&away, vec![]);
    assert_eq!(w.existing_keys(), vec![(0, 0, 0)]);
    w.update(&away, vec![]);
    assert!(w.existing_keys().is_empty());
    // the mesh of the chunk stays while within the draw distance
    assert_eq!(w.meshes.len(), 1);
}

#[test]
fn far_meshes_leave_one_tick_later_and_visibility_follows_camera() {
    let cam = camera_at(0, 0, 0);
    let mut w = ChunkWorld::new();
    w.update(&cam, vec![build_chunk((0, 0, 2), &cam, &ground), build_chunk((0, 0, -3), &cam, &ground)]);
    let front = w.meshes.find((0, 0, 2)).unwrap();
    let back = w.meshes.find((0, 0, -3)).unwrap();
    assert!(w.meshes.value_at(front).as_ref().unwrap().visible);
    assert!(!w.meshes.value_at(back).as_ref().unwrap().visible);
    let far = camera_at(0, 0, 1_000_000);
    w.update(&far, vec![]);
    assert_eq!(w.meshes.len(), 2);
    w.update(&far, vec![]);
    assert_eq!(w.meshes.len(), 0);
}

#[test]
fn one_info_round_trip_fills_the_neighbourhood() {
    let cam = camera_at(0, 0, 0);
    let mut w = ChunkWorld::new();
    let existing = w.existing_keys();
    let mut results = vec![];
    for id in -3..3 {
        let cmd = ChunkBuilderCommands::Info(cam, existing.clone());
        for k in cmd.keys_for_worker(id).unwrap() {
            results.push(build_chunk(k, &cam, &air));
        }
    }
    assert_eq!(results.len(), 144);
    w.update(&cam, results);
    let keys = w.existing_keys();
    assert_eq!(keys.len(), 144);
    for dx in -3..3i64 {
        for dy in -2..2i64 {
            for dz in -3..3i64 {
                assert!(keys.contains(&(dx, dy, dz)));
            }
        }
    }
    // a second request finds nothing left to build
    let cmd = ChunkBuilderCommands::Info(cam, w.existing_keys());
    for id in -3..3 {
        assert!(cmd.keys_for_worker(id).unwrap().is_empty());
    }
    // chunks within a quarter of the draw distance get full detail; the
    // far corners of the scan range do not
    assert_eq!(get_lod_by_distance(&cam, (1, 0, 1)), 0);
    assert_eq!(get_lod_by_distance(&cam, (-3, -2, -3)), 8);
}

#[test]
fn spawn_commands_pack_and_unpack() {
    let s = SpawnCommand::Sphere { x: 1.5f32.to_bits(), y: (-2.0f32).to_bits(), z: 0, r: 0.25f32.to_bits() };
    let p = s.encode();
    assert_eq!(p >> 96, 1.5f32.to_bits() as u128);
    assert_eq!(p as u32, 0.25f32.to_bits());
    assert_eq!(SpawnCommand::decode(p), s);
    assert_eq!(SpawnCommand::Clear.encode(), 69420);
    assert_eq!(SpawnCommand::decode(CLEAR_CODE), SpawnCommand::Clear);
    let clash = SpawnCommand::Sphere { x: 0, y: 0, z: 0, r: 69420 };
    assert_eq!(SpawnCommand::decode(clash.encode()), SpawnCommand::Clear);
    assert_eq!(SpawnCommand::decode(u128::MAX).encode(), u128::MAX);
}
