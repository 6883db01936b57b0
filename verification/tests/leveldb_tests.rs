use ambermap::common::coordinates::ChunkPos;
use ambermap::common::error::AmberError;
use ambermap::leveldb::keys::{DbKey, Dimension, KeyTag};
use ambermap::leveldb::reader::WorldDb;
use ambermap::leveldb::sstable::{parse_block_kvs, read_raw_block, read_sstable, read_varint_u64, BlockHandle};
use ambermap::leveldb::store::{compare_bytes, EntryStore};
use std::path::PathBuf;

fn varint(mut v: u64, out: &mut Vec<u8>) {
    loop {
        let b = (v & 0x7f) as u8;
        v >>= 7;
        if v == 0 {
            out.push(b);
            return;
        }
        out.push(b | 0x80);
    }
}

fn block(entries: &[(&[u8], &[u8])]) -> Vec<u8> {
    let mut b = Vec::new();
    let mut prev: Vec<u8> = Vec::new();
    for (k, v) in entries {
        let shared = prev.iter().zip(k.iter()).take_while(|(a, c)| a == c).count();
        varint(shared as u64, &mut b);
        varint((k.len() - shared) as u64, &mut b);
        varint(v.len() as u64, &mut b);
        b.extend_from_slice(&k[shared..]);
        b.extend_from_slice(v);
        prev = k.to_vec();
    }
    b.extend_from_slice(&0u32.to_le_bytes());
    b.extend_from_slice(&1u32.to_le_bytes());
    b
}

fn internal(user: &[u8]) -> Vec<u8> {
    let mut k = user.to_vec();
    k.extend_from_slice(&[1, 0, 0, 0, 0, 0, 0, 0]);
    k
}

fn table(entries: &[(&[u8], &[u8])]) -> Vec<u8> {
    let keys: Vec<Vec<u8>> = entries.iter().map(|(k, _)| internal(k)).collect();
    let data_entries: Vec<(&[u8], &[u8])> =
        keys.iter().zip(entries.iter()).map(|(k, (_, v))| (k.as_slice(), *v)).collect();
    let data_block = block(&data_entries);
    let mut file = data_block.clone();
    file.push(0);
    file.extend_from_slice(&[0, 0, 0, 0]);
    let mut handle = Vec::new();
    varint(0, &mut handle);
    varint(data_block.len() as u64, &mut handle);
    let index_block = block(&[(b"zzzzzzzzz", &handle)]);
    let index_off = file.len();
    file.extend_from_slice(&index_block);
    file.push(0);
    file.extend_from_slice(&[0, 0, 0, 0]);
    let mut footer = Vec::new();
    varint(0, &mut footer);
    varint(0, &mut footer);
    varint(index_off as u64, &mut footer);
    varint(index_block.len() as u64, &mut footer);
    footer.resize(40, 0);
    footer.extend_from_slice(&[0x57, 0xfb, 0x80, 0x8b, 0x24, 0x75, 0x47, 0xdb]);
    file.extend_from_slice(&footer);
    file
}

#[test]
fn test_varints() {
    let mut off = 0usize;
    assert_eq!(read_varint_u64(&[0x96, 0x01, 0x05], &mut off), Ok(150));
    assert_eq!(off, 2);
    assert_eq!(read_varint_u64(&[0x96, 0x01, 0x05], &mut off), Ok(5));
    assert_eq!(off, 3);
    assert!(read_varint_u64(&[0x96, 0x01, 0x05], &mut off).is_err());
    let mut off = 0usize;
    assert!(read_varint_u64(&[0xff; 11], &mut off).is_err());
}

#[test]
fn test_block_handle_and_raw_block() {
    let mut buf = Vec::new();
    varint(3, &mut buf);
    varint(4, &mut buf);
    let mut off = 0;
    let h = BlockHandle::read(&buf, &mut off).unwrap();
    assert_eq!((h.offset, h.size), (3, 4));
    assert_eq!(off, 2);
    let data = [9u8, 9, 9, 1, 2, 3, 4, 0, 0, 0, 0, 0];
    assert_eq!(read_raw_block(&data, &h).unwrap(), vec![1, 2, 3, 4]);
    let short = [0u8; 8];
    assert_eq!(
        read_raw_block(&short, &h),
        Err(AmberError::BufferUnderflow { needed: 12, remaining: 5 })
    );
}

#[test]
fn test_block_entries_share_prefixes() {
    let b = block(&[(b"apple", b"1"), (b"apricot", b"22"), (b"banana", b"")]);
    let kvs = parse_block_kvs(&b).unwrap();
    assert_eq!(
        kvs,
        vec![
            (b"apple".to_vec(), b"1".to_vec()),
            (b"apricot".to_vec(), b"22".to_vec()),
            (b"banana".to_vec(), Vec::new()),
        ]
    );
    assert!(parse_block_kvs(&[1, 2]).unwrap().is_empty());
}

#[test]
fn test_read_sstable_into_store() {
    let file = table(&[(b"abc", b"v1"), (b"abd", b"v2")]);
    let mut store = EntryStore::new();
    read_sstable(&file, &mut store).unwrap();
    assert_eq!(store.len(), 2);
    assert_eq!(store.get(b"abc"), Some(&b"v1".to_vec()));
    assert_eq!(store.get(b"abd"), Some(&b"v2".to_vec()));
    assert_eq!(store.get(b"abe"), None);
}

#[test]
fn test_file_without_magic_stores_nothing() {
    let mut store = EntryStore::new();
    read_sstable(&[0u8; 60], &mut store).unwrap();
    assert_eq!(store.len(), 0);
    read_sstable(&[1, 2, 3], &mut store).unwrap();
    assert_eq!(store.len(), 0);
}

#[test]
fn test_store_keeps_keys_sorted_and_replaces() {
    let mut s = EntryStore::new();
    s.insert(b"m".to_vec(), b"1".to_vec());
    s.insert(b"a".to_vec(), b"2".to_vec());
    s.insert(b"z".to_vec(), b"3".to_vec());
    s.insert(b"m".to_vec(), b"4".to_vec());
    assert_eq!(s.len(), 3);
    assert_eq!(s.entry_at(0).0, &b"a".to_vec());
    assert_eq!(s.entry_at(1), (&b"m".to_vec(), &b"4".to_vec()));
    assert_eq!(s.entry_at(2).0, &b"z".to_vec());
    assert_eq!(compare_bytes(b"ab", b"abc"), -1);
    assert_eq!(compare_bytes(b"b", b"abc"), 1);
    assert_eq!(compare_bytes(b"abc", b"abc"), 0);
}

fn key(dim: Dimension, x: i32, z: i32, tag: KeyTag, y: Option<i8>) -> Vec<u8> {
    DbKey { dimension: dim, chunk_pos: ChunkPos::new(x, z), tag, subchunk_y: y }.to_bytes()
}

#[test]
fn test_world_chunks_and_records() {
    let mut s = EntryStore::new();
    s.insert(key(Dimension::Overworld, 2, 3, KeyTag::Version, None), vec![40]);
    s.insert(key(Dimension::Overworld, 2, 3, KeyTag::Data3D, None), vec![41, 0]);
    s.insert(key(Dimension::Overworld, -1, 0, KeyTag::Version, None), vec![9]);
    s.insert(key(Dimension::Nether, 7, 7, KeyTag::Version, None), vec![1]);
    let mut sub = vec![9u8, 1, 0xfe, 0];
    sub.extend_from_slice(&1i32.to_le_bytes());
    sub.extend_from_slice(&[0x0a, 0, 0, 0x08, 4, 0, b'n', b'a', b'm', b'e', 5, 0]);
    sub.extend_from_slice(b"x:one");
    sub.push(0);
    sub[2] = 0;
    s.insert(key(Dimension::Overworld, 2, 3, KeyTag::SubChunkPrefix, Some(0)), sub.clone());
    s.insert(key(Dimension::Overworld, 2, 3, KeyTag::SubChunkPrefix, Some(-1)), vec![200]);
    s.insert(b"portals".to_vec(), vec![1]);
    s.insert(b"~local_player_data".to_vec(), vec![1]);

    let db = WorldDb::new(s, PathBuf::from("world/db"));
    assert_eq!(db.path, PathBuf::from("world/db"));
    assert_eq!(db.scan_chunks(Dimension::Overworld), vec![ChunkPos::new(-1, 0), ChunkPos::new(2, 3)]);
    assert_eq!(db.scan_chunks(Dimension::Nether), vec![ChunkPos::new(7, 7)]);
    assert!(db.scan_chunks(Dimension::TheEnd).is_empty());

    let c = db.get_chunk(ChunkPos::new(2, 3), Dimension::Overworld).unwrap();
    assert_eq!(c.version, Some(41));
    assert_eq!(c.subchunks.len(), 1);
    assert_eq!(c.subchunks[0].0, 0);
    assert_eq!(c.subchunks[0].1.get_block(0, 1, 1, 1).unwrap().name, "x:one");

    let other = db.get_chunk(ChunkPos::new(-1, 0), Dimension::Overworld).unwrap();
    assert_eq!(other.version, Some(9));
    assert!(other.subchunks.is_empty());

    let none = db.get_chunk(ChunkPos::new(50, 50), Dimension::TheEnd).unwrap();
    assert_eq!(none.version, None);
    assert!(none.subchunks.is_empty());
}

fn kv(k: &str, v: &str) -> (Vec<u8>, Vec<u8>) {
    (k.as_bytes().to_vec(), v.as_bytes().to_vec())
}

#[test]
fn test_insert_batch_in_key_order() {
    let mut s = EntryStore::new();
    s.insert(b"a".to_vec(), b"1".to_vec());
    s.insert(b"m".to_vec(), b"2".to_vec());
    s.insert(b"z".to_vec(), b"9".to_vec());
    s.insert_batch(vec![kv("b", "x"), kv("m", "y"), kv("m", "z"), kv("q", "w")]);
    assert_eq!(s.len(), 5);
    let keys: Vec<Vec<u8>> = (0..s.len()).map(|i| s.entry_at(i).0.clone()).collect();
    assert_eq!(keys, vec![b"a".to_vec(), b"b".to_vec(), b"m".to_vec(), b"q".to_vec(), b"z".to_vec()]);
    assert_eq!(s.get(b"m"), Some(&b"z".to_vec()));
    assert_eq!(s.get(b"a"), Some(&b"1".to_vec()));
    assert_eq!(s.get(b"q"), Some(&b"w".to_vec()));
}

#[test]
fn test_insert_batch_out_of_order() {
    let mut s = EntryStore::new();
    s.insert_batch(vec![kv("z", "1"), kv("a", "2"), kv("z", "3")]);
    assert_eq!(s.len(), 2);
    assert_eq!(s.entry_at(0), (&b"a".to_vec(), &b"2".to_vec()));
    assert_eq!(s.get(b"z"), Some(&b"3".to_vec()));
    s.insert_batch(Vec::new());
    assert_eq!(s.len(), 2);
}

#[test]
fn test_later_table_replaces_earlier_values() {
    let mut store = EntryStore::new();
    read_sstable(&table(&[(b"k1", b"old"), (b"k3", b"c")]), &mut store).unwrap();
    read_sstable(&table(&[(b"k1", b"new"), (b"k2", b"b")]), &mut store).unwrap();
    assert_eq!(store.len(), 3);
    assert_eq!(store.get(b"k1"), Some(&b"new".to_vec()));
    assert_eq!(store.entry_at(1).0, &b"k2".to_vec());
}
