use voxel_rs::block::AIR;
use voxel_rs::chunk::{BlockPos, Chunk, ChunkPos, CHUNK_SIZE, CHUNK_VOLUME};
use voxel_rs::world::{BlockContainer, World};

fn cpos(px: i64, py: i64, pz: i64) -> ChunkPos {
    ChunkPos { px, py, pz }
}

#[test]
fn unknown_chunk_reads_as_air() {
    let w = World::new();
    for p in [(0, 0, 0), (-1, -1, -1), (1000, -5000, 77), (i64::MIN, i64::MAX, 0)] {
        assert_eq!(w.get_block(BlockPos { px: p.0, py: p.1, pz: p.2 }), AIR);
    }
}

#[test]
fn unknown_neighbor_of_known_chunk_reads_as_air() {
    let mut w = World::new();
    w.set_chunk(Chunk::filled(cpos(0, 0, 0), 3));
    assert_eq!(w.get_block(BlockPos { px: 5, py: 5, pz: 5 }), 3);
    assert_eq!(w.get_block(BlockPos { px: 32, py: 5, pz: 5 }), AIR);
    assert_eq!(w.get_block(BlockPos { px: -1, py: 5, pz: 5 }), AIR);
}

#[test]
fn negative_coordinates_round_toward_negative_infinity() {
    let mut w = World::new();
    let mut blocks = vec![0u16; CHUNK_VOLUME];
    // local (31, 0, 31) of chunk (-1, 0, -1)
    blocks[(31 * CHUNK_SIZE + 0) * CHUNK_SIZE + 31] = 9;
    w.set_chunk(Chunk::new(cpos(-1, 0, -1), blocks).unwrap());
    assert_eq!(w.get_block(BlockPos { px: -1, py: 0, pz: -1 }), 9);
    assert_eq!(w.get_block(BlockPos { px: -32, py: 0, pz: -1 }), 0);
    assert_eq!(w.get_block(BlockPos { px: 0, py: 0, pz: 0 }), AIR);
    let bp = BlockPos { px: -33, py: -1, pz: 64 };
    assert_eq!(bp.containing_chunk(), cpos(-2, -1, 2));
    assert_eq!(bp.local(), (31, 31, 0));
    assert!(w.is_block_full(BlockPos { px: -1, py: 0, pz: -1 }));
    assert!(!w.is_block_full(BlockPos { px: -2, py: 0, pz: -1 }));
}

#[test]
fn set_chunk_is_last_write_wins() {
    let mut w = World::new();
    w.set_chunk(Chunk::filled(cpos(1, 2, 3), 1));
    w.set_chunk(Chunk::filled(cpos(1, 2, 3), 2));
    assert_eq!(w.chunks.len(), 1);
    assert_eq!(w.get_chunk(cpos(1, 2, 3)).unwrap().blocks[0], 2);
    assert!(w.get_chunk(cpos(1, 2, 4)).is_none());
    assert_eq!(w.get_block(BlockPos { px: 32, py: 64, pz: 96 }), 2);
}

#[test]
fn chunk_new_rejects_wrong_size() {
    assert!(Chunk::new(cpos(0, 0, 0), vec![0u16; 10]).is_none());
    assert!(Chunk::new(cpos(0, 0, 0), vec![0u16; CHUNK_VOLUME]).is_some());
}

#[test]
fn chunk_offset_detects_overflow() {
    assert_eq!(cpos(0, 0, 0).offset(-1, 1, 0), Some(cpos(-1, 1, 0)));
    assert_eq!(cpos(i64::MAX, 0, 0).offset(1, 0, 0), None);
    assert_eq!(cpos(0, i64::MIN, 0).offset(0, -1, 0), None);
}
