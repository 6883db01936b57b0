use ambermap::common::error::AmberError;
use ambermap::nbt::reader::NbtReader;
use ambermap::nbt::tag::NbtTag;
use ambermap::subchunk::palette::BlockState;
use byteorder::{ByteOrder, LittleEndian};

pub fn create_test_block_nbt(name: &str, version: i32) -> Vec<u8> {
    let mut buf = Vec::new();

    buf.push(0x0a);
    let mut len_buf = [0u8; 2];
    LittleEndian::write_u16(&mut len_buf, 0);
    buf.extend_from_slice(&len_buf);

    buf.push(0x08);
    LittleEndian::write_u16(&mut len_buf, 4);
    buf.extend_from_slice(&len_buf);
    buf.extend_from_slice(b"name");
    LittleEndian::write_u16(&mut len_buf, name.len() as u16);
    buf.extend_from_slice(&len_buf);
    buf.extend_from_slice(name.as_bytes());

    buf.push(0x03);
    LittleEndian::write_u16(&mut len_buf, 7);
    buf.extend_from_slice(&len_buf);
    buf.extend_from_slice(b"version");
    let mut int_buf = [0u8; 4];
    LittleEndian::write_i32(&mut int_buf, version);
    buf.extend_from_slice(&int_buf);

    buf.push(0x0a);
    LittleEndian::write_u16(&mut len_buf, 6);
    buf.extend_from_slice(&len_buf);
    buf.extend_from_slice(b"states");
    buf.push(0x00);

    buf.push(0x00);

    buf
}

#[test]
fn test_nbt_reader_blockstate() {
    let raw = create_test_block_nbt("minecraft:stone", 17959425);
    let mut reader = NbtReader::new(&raw);
    let (root_name, tag) = reader.read_root_compound().expect("failed to read nbt compound");

    assert_eq!(root_name, "");
    assert_eq!(tag.get_string("name"), Some("minecraft:stone"));
    assert_eq!(tag.get_i32("version"), Some(17959425));

    let block_state = BlockState::from_nbt(&tag).expect("failed to convert from nbt");
    assert_eq!(block_state.name, "minecraft:stone");
    assert_eq!(block_state.version, 17959425);
}

fn named(buf: &mut Vec<u8>, tag: u8, name: &str) {
    buf.push(tag);
    buf.extend_from_slice(&(name.len() as u16).to_le_bytes());
    buf.extend_from_slice(name.as_bytes());
}

#[test]
fn test_reader_offset_after_root() {
    let raw = create_test_block_nbt("minecraft:dirt", 1);
    let mut reader = NbtReader::new(&raw);
    assert_eq!(reader.offset(), 0);
    reader.read_root_compound().unwrap();
    assert_eq!(reader.offset(), raw.len());
}

#[test]
fn test_later_duplicate_key_wins() {
    let mut buf = Vec::new();
    named(&mut buf, 0x0a, "root");
    named(&mut buf, 0x03, "k");
    buf.extend_from_slice(&1i32.to_le_bytes());
    named(&mut buf, 0x03, "k");
    buf.extend_from_slice(&2i32.to_le_bytes());
    buf.push(0);
    let (name, tag) = NbtReader::new(&buf).read_root_compound().unwrap();
    assert_eq!(name, "root");
    assert_eq!(tag.get_i32("k"), Some(2));
    match &tag {
        NbtTag::Compound(entries) => {
            assert_eq!(entries.len(), 1);
            assert_eq!(entries[0], ("k".to_string(), NbtTag::Int(2)));
        }
        _ => panic!("root is not a compound"),
    }
}

#[test]
fn test_block_state_properties_hold_each_name_once() {
    let mut buf = Vec::new();
    named(&mut buf, 0x0a, "");
    named(&mut buf, 0x08, "name");
    buf.extend_from_slice(&3u16.to_le_bytes());
    buf.extend_from_slice(b"x:y");
    named(&mut buf, 0x0a, "states");
    named(&mut buf, 0x01, "open");
    buf.push(0);
    named(&mut buf, 0x01, "lit");
    buf.push(1);
    named(&mut buf, 0x01, "open");
    buf.push(1);
    buf.push(0);
    buf.push(0);
    let (_, tag) = NbtReader::new(&buf).read_root_compound().unwrap();
    let b = BlockState::from_nbt(&tag).unwrap();
    assert_eq!(
        b.states,
        vec![("open".to_string(), NbtTag::Byte(1)), ("lit".to_string(), NbtTag::Byte(1))]
    );
}

#[test]
fn test_all_payload_kinds() {
    let mut buf = Vec::new();
    named(&mut buf, 0x0a, "");
    named(&mut buf, 0x01, "b");
    buf.push(0xff);
    named(&mut buf, 0x02, "s");
    buf.extend_from_slice(&(-300i16).to_le_bytes());
    named(&mut buf, 0x04, "l");
    buf.extend_from_slice(&(1i64 << 40).to_le_bytes());
    named(&mut buf, 0x05, "f");
    buf.extend_from_slice(&1.5f32.to_le_bytes());
    named(&mut buf, 0x06, "d");
    buf.extend_from_slice(&2.25f64.to_le_bytes());
    named(&mut buf, 0x07, "ba");
    buf.extend_from_slice(&3i32.to_le_bytes());
    buf.extend_from_slice(&[9, 8, 7]);
    named(&mut buf, 0x09, "list");
    buf.push(0x03);
    buf.extend_from_slice(&2i32.to_le_bytes());
    buf.extend_from_slice(&10i32.to_le_bytes());
    buf.extend_from_slice(&20i32.to_le_bytes());
    named(&mut buf, 0x0b, "ia");
    buf.extend_from_slice(&1i32.to_le_bytes());
    buf.extend_from_slice(&(-1i32).to_le_bytes());
    named(&mut buf, 0x0c, "la");
    buf.extend_from_slice(&1i32.to_le_bytes());
    buf.extend_from_slice(&7i64.to_le_bytes());
    named(&mut buf, 0x0a, "inner");
    named(&mut buf, 0x08, "name");
    buf.extend_from_slice(&2u16.to_le_bytes());
    buf.extend_from_slice(b"hi");
    buf.push(0);
    buf.push(0);

    let (_, tag) = NbtReader::new(&buf).read_root_compound().unwrap();
    assert_eq!(tag.get_i32("b"), Some(-1));
    assert_eq!(tag.get_i32("s"), Some(-300));
    assert_eq!(tag.get_i32("l"), None);
    let entries = match &tag {
        NbtTag::Compound(e) => e,
        _ => panic!("root is not a compound"),
    };
    let find = |k: &str| entries.iter().rev().find(|(n, _)| n == k).map(|(_, v)| v).unwrap();
    assert_eq!(find("l"), &NbtTag::Long(1 << 40));
    assert_eq!(find("f"), &NbtTag::Float(1.5f32.to_bits()));
    assert_eq!(find("d"), &NbtTag::Double(2.25f64.to_bits()));
    assert_eq!(find("ba"), &NbtTag::ByteArray(vec![9, 8, 7]));
    assert_eq!(find("list"), &NbtTag::List(vec![NbtTag::Int(10), NbtTag::Int(20)]));
    assert_eq!(find("ia"), &NbtTag::IntArray(vec![-1]));
    assert_eq!(find("la"), &NbtTag::LongArray(vec![7]));
    let inner = tag.get_compound("inner").unwrap();
    assert_eq!(inner.len(), 1);
    assert_eq!(inner[0].0, "name");
    assert_eq!(inner[0].1, NbtTag::String("hi".to_string()));
}

#[test]
fn test_empty_input_underflows() {
    assert_eq!(
        NbtReader::new(&[]).read_root_compound(),
        Err(AmberError::BufferUnderflow { needed: 1, remaining: 0 })
    );
}

#[test]
fn test_root_must_be_compound() {
    assert_eq!(
        NbtReader::new(&[0x08, 0, 0]).read_root_compound(),
        Err(AmberError::NbtError("expected compound tag 0x0a at root, found 0x08".to_string()))
    );
}

#[test]
fn test_unknown_tag_type() {
    let mut buf = Vec::new();
    named(&mut buf, 0x0a, "");
    named(&mut buf, 0x0d, "x");
    assert_eq!(
        NbtReader::new(&buf).read_root_compound(),
        Err(AmberError::NbtError("unrecognized nbt tag type 0x0d".to_string()))
    );
}

#[test]
fn test_truncated_string() {
    let buf = [0x0a, 5, 0, b'a', b'b'];
    assert_eq!(
        NbtReader::new(&buf).read_root_compound(),
        Err(AmberError::BufferUnderflow { needed: 5, remaining: 2 })
    );
}

#[test]
fn test_invalid_utf8_name() {
    let buf = [0x0a, 2, 0, 0xff, 0xfe, 0];
    match NbtReader::new(&buf).read_root_compound() {
        Err(AmberError::NbtError(m)) => assert!(m.starts_with("invalid utf8 string: ")),
        other => panic!("unexpected {:?}", other),
    }
}

#[test]
fn test_block_state_without_name() {
    let mut buf = Vec::new();
    named(&mut buf, 0x0a, "");
    named(&mut buf, 0x03, "version");
    buf.extend_from_slice(&5i32.to_le_bytes());
    buf.push(0);
    let (_, tag) = NbtReader::new(&buf).read_root_compound().unwrap();
    assert!(BlockState::from_nbt(&tag).is_none());
}

#[test]
fn test_block_state_defaults_and_air() {
    let mut buf = Vec::new();
    named(&mut buf, 0x0a, "");
    named(&mut buf, 0x08, "name");
    buf.extend_from_slice(&13u16.to_le_bytes());
    buf.extend_from_slice(b"minecraft:air");
    buf.push(0);
    let (_, tag) = NbtReader::new(&buf).read_root_compound().unwrap();
    let b = BlockState::from_nbt(&tag).unwrap();
    assert_eq!(b.version, 0);
    assert!(b.states.is_empty());
    assert!(b.is_air());
    assert!(!BlockState::new("minecraft:stone").is_air());
    assert!(BlockState::new("minecraft:structure_void").is_air());
}
