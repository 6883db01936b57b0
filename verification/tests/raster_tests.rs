use ambermap::common::coordinates::{block_subchunk_index, ChunkPos};
use ambermap::leveldb::keys::Dimension;
use ambermap::leveldb::reader::ChunkData;
use ambermap::raster::colormap::{BlockColor, ColorMap};
use ambermap::raster::hillshade::shading_heights;
use ambermap::raster::traverser::column_samples;
use ambermap::subchunk::palette::{BlockState, Palette};
use ambermap::subchunk::storage::{SubChunk, SubChunkStorage};

fn layer_with(blocks_at_y: &[(usize, &str)]) -> SubChunkStorage {
    let mut names: Vec<&str> = vec!["minecraft:air"];
    for &(_, n) in blocks_at_y {
        if !names.contains(&n) {
            names.push(n);
        }
    }
    let mut blocks = Box::new([0u16; 4096]);
    for x in 0..16 {
        for z in 0..16 {
            for &(y, n) in blocks_at_y {
                blocks[block_subchunk_index(x, y, z)] = names.iter().position(|m| *m == n).unwrap() as u16;
            }
        }
    }
    let palette = Palette::new(names.iter().map(|n| BlockState::new(n)).collect());
    SubChunkStorage::new(blocks, palette)
}

fn chunk_of(subchunks: Vec<(i8, SubChunk)>) -> ChunkData {
    ChunkData {
        chunk_pos: ChunkPos::new(0, 0),
        dimension: Dimension::Overworld,
        version: Some(42),
        subchunks,
    }
}

#[test]
fn test_water_over_stone_samples() {
    let colormap = ColorMap::new();
    let sc = SubChunk::new(8, vec![layer_with(&[(0, "minecraft:stone"), (1, "minecraft:water")])], Some(0));
    let chunk = chunk_of(vec![(0, sc)]);
    let s = column_samples(&chunk, &colormap, 0, 0);
    assert_eq!(s.len(), 2);
    assert_eq!(s[0].world_y, 1);
    assert_eq!(s[0].color, BlockColor::translucent(44, 98, 204, 180));
    assert_eq!(s[1].world_y, 0);
    assert_eq!(s[1].color, BlockColor::opaque(125, 125, 125));
}

#[test]
fn test_samples_stop_at_first_opaque() {
    let colormap = ColorMap::new();
    let sc = SubChunk::new(
        8,
        vec![layer_with(&[(0, "minecraft:bedrock"), (9, "minecraft:dirt"), (10, "minecraft:grass_block")])],
        Some(0),
    );
    let chunk = chunk_of(vec![(0, sc)]);
    let s = column_samples(&chunk, &colormap, 15, 15);
    assert_eq!(s.len(), 1);
    assert_eq!(s[0].world_y, 10);
    assert_eq!(s[0].color.rgba, [92, 157, 59, 255]);
}

#[test]
fn test_samples_walk_subchunks_top_down_and_layers_in_reverse() {
    let colormap = ColorMap::new();
    let low = SubChunk::new(8, vec![layer_with(&[(3, "minecraft:sand")])], Some(-1));
    let high = SubChunk::new(
        9,
        vec![layer_with(&[(2, "minecraft:oak_leaves")]), layer_with(&[(2, "minecraft:water")])],
        Some(1),
    );
    let chunk = chunk_of(vec![(-1, low), (1, high)]);
    let s = column_samples(&chunk, &colormap, 4, 7);
    let ys: Vec<i32> = s.iter().map(|c| c.world_y).collect();
    assert_eq!(ys, vec![18, 18, -13]);
    assert_eq!(s[0].color, BlockColor::translucent(44, 98, 204, 180));
    assert_eq!(s[1].color, BlockColor::translucent(45, 115, 30, 240));
    assert_eq!(s[2].color, BlockColor::opaque(219, 206, 153));
}

#[test]
fn test_empty_column_has_no_samples() {
    let colormap = ColorMap::new();
    let sc = SubChunk::new(8, vec![layer_with(&[(5, "minecraft:barrier")])], Some(0));
    let chunk = chunk_of(vec![(0, sc)]);
    assert!(column_samples(&chunk, &colormap, 0, 0).is_empty());
    assert!(column_samples(&chunk_of(Vec::new()), &colormap, 3, 3).is_empty());
}

#[test]
fn test_colormap_lookups() {
    let cm = ColorMap::new();
    assert_eq!(cm.get("minecraft:grass_block"), BlockColor::opaque(92, 157, 59));
    assert_eq!(cm.get("minecraft:water"), BlockColor::translucent(44, 98, 204, 180));
    assert_eq!(cm.get("minecraft:air"), BlockColor::invisible());
    assert_eq!(cm.get("mod:mystery_glass_pane"), BlockColor::translucent(215, 230, 240, 80));
    assert_eq!(cm.get("mod:red_sandy_thing"), BlockColor::opaque(215, 200, 150));
    assert_eq!(cm.get("mod:birch_wood_table"), BlockColor::opaque(110, 85, 50));
    assert_eq!(cm.get("mod:strange_thing"), BlockColor::opaque(128, 128, 128));
    assert_eq!(cm.get("mod:hairy"), BlockColor::invisible());
    assert!(cm.is_air("minecraft:cave_air"));
    assert!(cm.is_air("minecraft:light_block"));
    assert!(!cm.is_air("minecraft:stone"));
    assert!(!cm.is_air("mod:air_duct"));
    assert_eq!(ColorMap::default().get("minecraft:sand"), cm.get("minecraft:sand"));
}

#[test]
fn test_block_color_kinds() {
    let t = BlockColor::translucent(1, 2, 3, 100);
    assert!(t.is_translucent && !t.is_opaque);
    let o = BlockColor::translucent(1, 2, 3, 255);
    assert!(!o.is_translucent && o.is_opaque);
    assert_eq!(o, BlockColor::opaque(1, 2, 3));
    let z = BlockColor::translucent(1, 2, 3, 0);
    assert!(!z.is_translucent && !z.is_opaque);
    assert_eq!(BlockColor::invisible().rgba, [0, 0, 0, 0]);
}

#[test]
fn test_shading_heights() {
    let mut hm = [0i16; 256];
    for z in 0..16 {
        for x in 0..16 {
            hm[z * 16 + x] = (x * 10 + z) as i16;
        }
    }
    assert_eq!(shading_heights(&hm, 0, 0), (0, 0, 0));
    assert_eq!(shading_heights(&hm, 3, 0), (30, 20, 30));
    assert_eq!(shading_heights(&hm, 0, 4), (4, 4, 3));
    assert_eq!(shading_heights(&hm, 5, 6), (56, 46, 55));
}

#[test]
fn test_air_names_are_invisible() {
    let cm = ColorMap::new();
    for name in [
        "minecraft:air",
        "minecraft:cave_air",
        "minecraft:void_air",
        "minecraft:structure_void",
        "minecraft:light_block",
        "minecraft:barrier",
    ] {
        assert!(cm.is_air(name));
        assert_eq!(cm.get(name), BlockColor::invisible());
    }
}
