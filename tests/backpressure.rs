use std::time::Duration;

use tokio::sync::mpsc::channel;
use voxel_world::camera::Camera;
use voxel_world::chunk_builder::{build_chunk, info_keys};
use voxel_world::world::ChunkWorld;

fn air(_x: i64, _y: i64, _z: i64) -> bool {
    false
}

#[test]
fn full_result_channel_blocks_without_loss() {
    let runtime = tokio::runtime::Builder::new_current_thread().enable_all().build().unwrap();
    runtime.block_on(async {
        let cam = Camera { pos: (0, 0, 0), front: (0, 0, 256), right: (256, 0, 0), up: (0, 256, 0) };
        let keys = info_keys(&cam, &vec![], 1);
        assert_eq!(keys.len(), 24);
        let (tx, mut rx) = channel(2);
        let producer = tokio::spawn(async move {
            let mut sent = 0;
            for k in keys {
                tx.send(build_chunk(k, &cam, &air)).await.unwrap();
                sent += 1;
            }
            sent
        });
        // the consumer pauses for a few ticks: the worker fills the channel and waits
        for _ in 0..5 {
            tokio::time::sleep(Duration::from_millis(10)).await;
            assert!(!producer.is_finished());
        }
        let mut world = ChunkWorld::new();
        let mut received = 0;
        while received < 24 {
            let mut results = vec![];
            while let Ok(d) = rx.try_recv() {
                results.push(d);
            }
            received += results.len();
            world.update(&cam, results);
            tokio::time::sleep(Duration::from_millis(1)).await;
        }
        assert_eq!(producer.await.unwrap(), 24);
        assert_eq!(world.existing_keys().len(), 24);
        assert!(rx.try_recv().is_err());
    });
}
