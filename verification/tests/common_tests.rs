use ambermap::common::coordinates::{block_subchunk_index, BlockPos, ChunkPos};

#[test]
fn test_block_position_splits_into_chunk_and_offset() {
    let b = BlockPos::new(-17, -1, 35);
    let c = b.chunk_pos();
    assert_eq!(c, ChunkPos::new(-2, 2));
    assert_eq!(b.subchunk_y(), -1);
    assert_eq!((b.local_x(), b.local_y(), b.local_z()), (15, 15, 3));
    assert_eq!(c.min_block_x() + b.local_x() as i32, -17);
    assert_eq!(c.min_block_z() + b.local_z() as i32, 35);
    assert_eq!(b.subchunk_y() as i32 * 16 + b.local_y() as i32, -1);
}

#[test]
fn test_block_position_edges() {
    let b = BlockPos::new(i32::MIN, i16::MAX, i32::MAX);
    assert_eq!(b.chunk_pos(), ChunkPos::new(i32::MIN / 16, i32::MAX / 16));
    assert_eq!(b.local_x(), 0);
    assert_eq!(b.local_z(), 15);
    assert_eq!(b.local_y(), 15);
    assert_eq!(b.subchunk_y(), ((i16::MAX >> 4) as i8));
    assert_eq!(ChunkPos::new(3, -4).min_block_x(), 48);
    assert_eq!(ChunkPos::new(3, -4).min_block_z(), -64);
}

#[test]
fn test_subchunk_index_layout() {
    assert_eq!(block_subchunk_index(0, 0, 0), 0);
    assert_eq!(block_subchunk_index(0, 1, 0), 1);
    assert_eq!(block_subchunk_index(0, 0, 1), 16);
    assert_eq!(block_subchunk_index(1, 0, 0), 256);
    assert_eq!(block_subchunk_index(15, 15, 15), 4095);
    let mut seen = vec![false; 4096];
    for x in 0..16 {
        for y in 0..16 {
            for z in 0..16 {
                let i = block_subchunk_index(x, y, z);
                assert!(!seen[i]);
                seen[i] = true;
            }
        }
    }
    assert!(seen.iter().all(|&s| s));
}
