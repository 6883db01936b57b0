use ambermap::common::coordinates::ChunkPos;
use ambermap::leveldb::keys::Dimension;
use ambermap::tiler::compositor::{TileBuffer, TILE_BYTES, TILE_SIZE};
use ambermap::tiler::coordinates::TileCoord;
use ambermap::tiler::encoder::TileFormat;
use ambermap::tiler::pipeline::{
    dimension_name, group_by_parent, group_chunks_by_tile, map_metadata, max_zoom_for,
    metadata_json, tile_bounds,
};
use ambermap::tiler::pyramid::downsample_quadrants;

#[test]
fn test_chunk_to_tile_coordinates() {
    let c0 = ChunkPos::new(0, 0);
    let t0 = TileCoord::from_chunk_pos(c0, 5);
    assert_eq!(t0.x, 0);
    assert_eq!(t0.y, 0);
    assert_eq!(TileCoord::chunk_offset_in_tile(c0), (0, 0));

    let c1 = ChunkPos::new(17, 33);
    let t1 = TileCoord::from_chunk_pos(c1, 5);
    assert_eq!(t1.x, 1);
    assert_eq!(t1.y, 2);
    assert_eq!(TileCoord::chunk_offset_in_tile(c1), (16, 16));

    let c_neg1 = ChunkPos::new(-1, -1);
    let t_neg1 = TileCoord::from_chunk_pos(c_neg1, 5);
    assert_eq!(t_neg1.x, -1);
    assert_eq!(t_neg1.y, -1);
    assert_eq!(TileCoord::chunk_offset_in_tile(c_neg1), (240, 240));

    let c_neg16 = ChunkPos::new(-16, -16);
    let t_neg16 = TileCoord::from_chunk_pos(c_neg16, 5);
    assert_eq!(t_neg16.x, -1);
    assert_eq!(t_neg16.y, -1);
    assert_eq!(TileCoord::chunk_offset_in_tile(c_neg16), (0, 0));

    let c_neg17 = ChunkPos::new(-17, -33);
    let t_neg17 = TileCoord::from_chunk_pos(c_neg17, 5);
    assert_eq!(t_neg17.x, -2);
    assert_eq!(t_neg17.y, -3);
    assert_eq!(TileCoord::chunk_offset_in_tile(c_neg17), (240, 240));
}

#[test]
fn test_tile_compositor_stitching() {
    let mut tile = TileBuffer::new();
    assert!(tile.is_empty());

    let mut chunk_pixels = [0u8; 16 * 16 * 4];
    for i in 0..16 * 16 {
        chunk_pixels[i * 4] = 255;
        chunk_pixels[i * 4 + 1] = 128;
        chunk_pixels[i * 4 + 2] = 64;
        chunk_pixels[i * 4 + 3] = 255;
    }

    tile.blit_chunk(16, 32, &chunk_pixels);
    assert!(!tile.is_empty());

    let top_left_idx = (0 * TILE_SIZE + 0) * 4;
    assert_eq!(&tile.pixels[top_left_idx..top_left_idx + 4], &[0, 0, 0, 0]);

    let blit_start_idx = (32 * TILE_SIZE + 16) * 4;
    assert_eq!(
        &tile.pixels[blit_start_idx..blit_start_idx + 4],
        &[255, 128, 64, 255]
    );

    let blit_end_idx = ((32 + 15) * TILE_SIZE + (16 + 15)) * 4;
    assert_eq!(
        &tile.pixels[blit_end_idx..blit_end_idx + 4],
        &[255, 128, 64, 255]
    );
}

#[test]
fn test_pyramid_downsampling_alpha_weighted() {
    let mut child_tl = TileBuffer::new();
    let mut child_tr = TileBuffer::new();
    let mut child_bl = TileBuffer::new();

    for i in 0..TILE_SIZE * TILE_SIZE {
        let idx = i * 4;
        child_tl.pixels[idx..idx + 4].copy_from_slice(&[200, 100, 50, 255]);
        child_tr.pixels[idx..idx + 4].copy_from_slice(&[0, 200, 100, 255]);
        child_bl.pixels[idx..idx + 4].copy_from_slice(&[100, 50, 200, 255]);
    }

    let children = [Some(&child_tl), Some(&child_tr), Some(&child_bl), None];

    let parent = downsample_quadrants(&children);

    let p_tl = (0 * TILE_SIZE + 0) * 4;
    assert_eq!(&parent.pixels[p_tl..p_tl + 4], &[200, 100, 50, 255]);

    let p_tr = (0 * TILE_SIZE + 128) * 4;
    assert_eq!(&parent.pixels[p_tr..p_tr + 4], &[0, 200, 100, 255]);

    let p_bl = (128 * TILE_SIZE + 0) * 4;
    assert_eq!(&parent.pixels[p_bl..p_bl + 4], &[100, 50, 200, 255]);

    let p_br = (128 * TILE_SIZE + 128) * 4;
    assert_eq!(&parent.pixels[p_br..p_br + 4], &[0, 0, 0, 0]);
}

#[test]
fn test_downsample_mixed_block() {
    let mut child = TileBuffer::new();
    // 2x2 block under parent pixel (0, 0): one opaque red, one half-alpha blue, two empty
    child.pixels[0..4].copy_from_slice(&[255, 0, 0, 255]);
    child.pixels[4..8].copy_from_slice(&[0, 0, 255, 128]);
    let parent = downsample_quadrants(&[Some(&child), None, None, None]);
    // alpha mean: (255 + 128 + 2) / 4 = 96; red: (2*255*255 + 383) / (2*383) = 170
    assert_eq!(&parent.pixels[0..4], &[170, 0, 85, 96]);
    assert!(parent.pixels[4..].iter().all(|&b| b == 0));
}

#[test]
fn test_downsample_of_nothing_is_empty() {
    let parent = downsample_quadrants(&[None, None, None, None]);
    assert!(parent.is_empty());
}

#[test]
fn test_tile_buffer_from_raw_and_default() {
    let mut raw = Box::new([0u8; TILE_BYTES]);
    raw[7] = 9;
    let t = TileBuffer::from_raw(raw);
    assert_eq!(t.pixels[7], 9);
    assert!(!t.is_empty());
    assert!(TileBuffer::default().is_empty());
}

#[test]
fn test_parent_children_and_quadrants() {
    let t = TileCoord::new(3, -3, 5);
    let p = t.parent().unwrap();
    assert_eq!(p, TileCoord::new(2, -2, 2));
    assert_eq!(t.quadrant_in_parent(), (1, 1));
    let kids = p.children();
    assert_eq!(kids[0], TileCoord::new(3, -4, 4));
    assert_eq!(kids[3], t);
    for (i, k) in kids.iter().enumerate() {
        assert_eq!(k.parent(), Some(p));
        assert_eq!(k.quadrant_in_parent(), (i % 2, i / 2));
    }
    assert_eq!(TileCoord::new(0, 4, 4).parent(), None);
}

#[test]
fn test_group_chunks_by_tile() {
    let chunks = vec![
        ChunkPos::new(0, 0),
        ChunkPos::new(17, 0),
        ChunkPos::new(3, 15),
        ChunkPos::new(-1, 0),
        ChunkPos::new(16, 1),
    ];
    let groups = group_chunks_by_tile(&chunks);
    assert_eq!(groups.len(), 3);
    assert_eq!((groups[0].x, groups[0].y), (0, 0));
    assert_eq!(groups[0].chunks, vec![ChunkPos::new(0, 0), ChunkPos::new(3, 15)]);
    assert_eq!((groups[1].x, groups[1].y), (1, 0));
    assert_eq!(groups[1].chunks, vec![ChunkPos::new(17, 0), ChunkPos::new(16, 1)]);
    assert_eq!((groups[2].x, groups[2].y), (-1, 0));
    assert_eq!(groups[2].chunks, vec![ChunkPos::new(-1, 0)]);
    assert!(group_chunks_by_tile(&Vec::new()).is_empty());
}

#[test]
fn test_group_by_parent() {
    let tiles = vec![
        TileCoord::new(2, 0, 0),
        TileCoord::new(2, 1, 1),
        TileCoord::new(2, -1, 0),
        TileCoord::new(2, 1, 0),
    ];
    let groups = group_by_parent(&tiles);
    assert_eq!(groups.len(), 2);
    assert_eq!((groups[0].x, groups[0].y), (0, 0));
    assert_eq!(groups[0].children, [Some(0), Some(3), None, Some(1)]);
    assert_eq!((groups[1].x, groups[1].y), (-1, 0));
    assert_eq!(groups[1].children, [None, Some(2), None, None]);
    assert!(group_by_parent(&vec![TileCoord::new(0, 0, 0)]).is_empty());
}

#[test]
fn test_bounds_and_metadata() {
    let tiles = vec![TileCoord::new(4, 2, -1), TileCoord::new(4, -3, 5), TileCoord::new(4, 0, 0)];
    let b = tile_bounds(&tiles);
    assert_eq!(b, (-3, 2, -1, 5));
    assert_eq!(tile_bounds(&Vec::new()), (0, 0, 0, 0));
    let m = map_metadata(b, 4);
    assert_eq!(m.center_x, (-3 + 2) * 128 + 128);
    assert_eq!(m.center_z, (-1 + 5) * 128 + 128);
    assert_eq!(m.min_block_x, -768);
    assert_eq!(m.max_block_x, 768);
    assert_eq!(m.min_block_z, -256);
    assert_eq!(m.max_block_z, 1536);
    assert_eq!(
        metadata_json(&m, TileFormat::Webp),
        "{\"center_x\":0,\"center_z\":640,\"min_block_x\":-768,\"min_block_z\":-256,\"max_block_x\":768,\"max_block_z\":1536,\"max_zoom\":4,\"format\":\"webp\"}"
    );
}

#[test]
fn test_tile_format_names() {
    assert_eq!(TileFormat::Png.extension(), "png");
    assert_eq!(TileFormat::Webp.extension(), "webp");
    assert_eq!(TileFormat::from_str("webp"), TileFormat::Webp);
    assert_eq!(TileFormat::from_str("WebP"), TileFormat::Webp);
    assert_eq!(TileFormat::from_str("png"), TileFormat::Png);
    assert_eq!(TileFormat::from_str("jpeg"), TileFormat::Png);
    assert_eq!(TileFormat::from_lowercase_name("WEBP"), TileFormat::Png);
}

#[test]
fn test_dimension_dirs_and_zoom() {
    assert_eq!(dimension_name(Dimension::Overworld), "overworld");
    assert_eq!(dimension_name(Dimension::Nether), "nether");
    assert_eq!(dimension_name(Dimension::TheEnd), "the_end");
    assert_eq!(max_zoom_for(5), 4);
    assert_eq!(max_zoom_for(1), 0);
    assert_eq!(max_zoom_for(0), 0);
}
