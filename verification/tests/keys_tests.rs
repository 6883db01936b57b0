use ambermap::common::coordinates::ChunkPos;
use ambermap::common::error::AmberError;
use ambermap::leveldb::keys::{DbKey, Dimension, KeyTag};

#[test]
fn test_overworld_subchunk_key() {
    let key = DbKey {
        dimension: Dimension::Overworld,
        chunk_pos: ChunkPos::new(12, -5),
        tag: KeyTag::SubChunkPrefix,
        subchunk_y: Some(-2),
    };

    let bytes = key.to_bytes();
    assert_eq!(bytes.len(), 10);

    let parsed = DbKey::parse(&bytes).expect("failed to parse overworld subchunk key");
    assert_eq!(parsed.dimension, Dimension::Overworld);
    assert_eq!(parsed.chunk_pos.x, 12);
    assert_eq!(parsed.chunk_pos.z, -5);
    assert_eq!(parsed.tag, KeyTag::SubChunkPrefix);
    assert_eq!(parsed.subchunk_y, Some(-2));
}

#[test]
fn test_overworld_data2d_key() {
    let key = DbKey {
        dimension: Dimension::Overworld,
        chunk_pos: ChunkPos::new(100, 200),
        tag: KeyTag::Data2D,
        subchunk_y: None,
    };

    let bytes = key.to_bytes();
    assert_eq!(bytes.len(), 9);

    let parsed = DbKey::parse(&bytes).expect("failed to parse data2d key");
    assert_eq!(parsed.dimension, Dimension::Overworld);
    assert_eq!(parsed.chunk_pos.x, 100);
    assert_eq!(parsed.chunk_pos.z, 200);
    assert_eq!(parsed.tag, KeyTag::Data2D);
    assert_eq!(parsed.subchunk_y, None);
}

#[test]
fn test_nether_subchunk_key() {
    let key = DbKey {
        dimension: Dimension::Nether,
        chunk_pos: ChunkPos::new(-30, 45),
        tag: KeyTag::SubChunkPrefix,
        subchunk_y: Some(4),
    };

    let bytes = key.to_bytes();
    assert_eq!(bytes.len(), 14);

    let parsed = DbKey::parse(&bytes).expect("failed to parse nether subchunk key");
    assert_eq!(parsed.dimension, Dimension::Nether);
    assert_eq!(parsed.chunk_pos.x, -30);
    assert_eq!(parsed.chunk_pos.z, 45);
    assert_eq!(parsed.tag, KeyTag::SubChunkPrefix);
    assert_eq!(parsed.subchunk_y, Some(4));
}

#[test]
fn test_the_end_chunk_version_key() {
    let key = DbKey {
        dimension: Dimension::TheEnd,
        chunk_pos: ChunkPos::new(0, 0),
        tag: KeyTag::Version,
        subchunk_y: None,
    };

    let bytes = key.to_bytes();
    assert_eq!(bytes.len(), 13);

    let parsed = DbKey::parse(&bytes).expect("failed to parse the end version key");
    assert_eq!(parsed.dimension, Dimension::TheEnd);
    assert_eq!(parsed.tag, KeyTag::Version);
    assert_eq!(parsed.subchunk_y, None);
}

#[test]
fn test_key_bytes_layout() {
    let key = DbKey {
        dimension: Dimension::Nether,
        chunk_pos: ChunkPos::new(1, -1),
        tag: KeyTag::SubChunkPrefix,
        subchunk_y: Some(-4),
    };
    assert_eq!(
        key.to_bytes(),
        vec![1, 0, 0, 0, 0xff, 0xff, 0xff, 0xff, 1, 0, 0, 0, 0x2f, 0xfc]
    );
}

#[test]
fn test_key_roundtrip_examples() {
    for &(dim, x, z, tag, y) in &[
        (Dimension::Overworld, 0, 0, KeyTag::Data3D, None),
        (Dimension::Overworld, i32::MIN, i32::MAX, KeyTag::SubChunkPrefix, Some(i8::MIN)),
        (Dimension::TheEnd, -7, 9, KeyTag::BlockEntity, None),
        (Dimension::Nether, 5, 5, KeyTag::Other(0x99), None),
    ] {
        let key = DbKey { dimension: dim, chunk_pos: ChunkPos::new(x, z), tag, subchunk_y: y };
        let parsed = DbKey::parse(&key.to_bytes()).unwrap();
        assert_eq!(parsed, key);
    }
}

#[test]
fn test_key_too_short() {
    assert_eq!(
        DbKey::parse(&[1, 2, 3]),
        Err(AmberError::InvalidKeyLength { expected: 9, actual: 3 })
    );
}

#[test]
fn test_key_of_unusual_length() {
    match DbKey::parse(&[0u8; 11]) {
        Err(AmberError::InvalidKeyLength { actual: 11, .. }) => {}
        other => panic!("unexpected {:?}", other),
    }
}

#[test]
fn test_unknown_dimension_id_reads_as_overworld() {
    let mut bytes = vec![0u8, 0, 0, 0, 0, 0, 0, 0];
    bytes.extend_from_slice(&[7, 0, 0, 0]);
    bytes.push(0x76);
    let parsed = DbKey::parse(&bytes).unwrap();
    assert_eq!(parsed.dimension, Dimension::Overworld);
    assert_eq!(parsed.tag, KeyTag::Version);
}

#[test]
fn test_key_tag_bytes() {
    assert_eq!(KeyTag::from_u8(0x2f), KeyTag::SubChunkPrefix);
    assert_eq!(KeyTag::from_u8(0x76), KeyTag::Version);
    assert_eq!(KeyTag::from(0x2b), KeyTag::Data2D);
    assert_eq!(KeyTag::from_u8(0x01), KeyTag::Other(0x01));
    for b in 0..=255u8 {
        assert_eq!(KeyTag::from_u8(b).as_u8(), b);
    }
}

#[test]
fn test_dimension_ids() {
    assert_eq!(Dimension::from_id(0), Some(Dimension::Overworld));
    assert_eq!(Dimension::from_id(1), Some(Dimension::Nether));
    assert_eq!(Dimension::from_id(2), Some(Dimension::TheEnd));
    assert_eq!(Dimension::from_id(3), None);
    assert_eq!(Dimension::TheEnd.id(), 2);
}
