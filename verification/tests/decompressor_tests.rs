use ambermap::common::error::AmberError;
use ambermap::leveldb::codecs::StreamFailure;
use ambermap::leveldb::decompressor::{decompress_payload, payload_from_zstd, plain_or_snappy_bytes};
use ambermap::leveldb::sstable::{block_failure, decompress_block, nonempty_output};
use std::io::Write;

#[test]
fn test_zstd_decompression() {
    let original = b"Bedrock World SubChunk Block Data Payload 1234567890";
    let compressed = zstd::encode_all(&original[..], 3).expect("zstd compression failed");

    let result = decompress_payload(&compressed).expect("decompression failed");
    assert_eq!(result, original);
}

#[test]
fn test_snappy_decompression() {
    let original = b"Legacy Bedrock Snappy Chunk Data String For Testing";
    let mut encoder = snap::raw::Encoder::new();
    let compressed = encoder
        .compress_vec(original)
        .expect("snappy compression failed");

    let result = decompress_payload(&compressed).expect("decompression failed");
    assert_eq!(result, original);
}

#[test]
fn test_raw_payload_fallback() {
    let original = b"Raw Uncompressed Metadata Payload";
    let result = decompress_payload(original).expect("raw fallback failed");
    assert_eq!(result, original);
}

#[test]
fn test_empty_payload_is_returned_as_is() {
    let result = decompress_payload(&[]).expect("empty payload");
    assert!(result.is_empty());
}

#[test]
fn test_broken_zstd_frame_is_an_error() {
    let raw = [0x28u8, 0xb5, 0x2f, 0xfd, 0xff, 0xff, 0xff];
    match decompress_payload(&raw) {
        Err(AmberError::DecompressionFailed(_)) => {}
        other => panic!("expected a decompression failure, got {:?}", other),
    }
}

#[test]
fn test_block_stored_uncompressed() {
    let raw = b"plain block bytes";
    assert_eq!(decompress_block(raw, 0).unwrap(), raw.to_vec());
}

#[test]
fn test_block_snappy() {
    let plain = b"snappy block contents snappy block contents";
    let compressed = snap::raw::Encoder::new().compress_vec(plain).unwrap();
    assert_eq!(decompress_block(&compressed, 1).unwrap(), plain.to_vec());
}

#[test]
fn test_block_zlib() {
    let plain = b"zlib block contents zlib block contents";
    let mut enc = flate2::write::ZlibEncoder::new(Vec::new(), flate2::Compression::default());
    enc.write_all(plain).unwrap();
    let compressed = enc.finish().unwrap();
    assert_eq!(decompress_block(&compressed, 2).unwrap(), plain.to_vec());
}

#[test]
fn test_block_raw_deflate() {
    let plain = b"raw deflate block contents, raw deflate block contents";
    let mut enc = flate2::write::DeflateEncoder::new(Vec::new(), flate2::Compression::default());
    enc.write_all(plain).unwrap();
    let compressed = enc.finish().unwrap();
    assert_eq!(decompress_block(&compressed, 4).unwrap(), plain.to_vec());
}

#[test]
fn test_block_zstd_under_type_four() {
    let plain = b"zstd block contents zstd block contents";
    let compressed = zstd::encode_all(&plain[..], 3).unwrap();
    assert_eq!(decompress_block(&compressed, 4).unwrap(), plain.to_vec());
}

#[test]
fn test_block_unknown_compression() {
    match decompress_block(b"abc", 7) {
        Err(AmberError::DecompressionFailed(_)) => {}
        other => panic!("expected a decompression failure, got {:?}", other),
    }
}

#[test]
fn test_payload_outcomes() {
    assert_eq!(payload_from_zstd(Ok(vec![1, 2])), Ok(vec![1, 2]));
    assert_eq!(
        payload_from_zstd(Err(StreamFailure::Setup("no memory".to_string()))),
        Err(AmberError::DecompressionFailed("zstd init: no memory".to_string()))
    );
    assert_eq!(
        payload_from_zstd(Err(StreamFailure::Read("bad frame".to_string()))),
        Err(AmberError::DecompressionFailed("zstd read: bad frame".to_string()))
    );
    assert_eq!(plain_or_snappy_bytes(b"raw", Ok(b"decoded".to_vec())), b"decoded".to_vec());
    assert_eq!(plain_or_snappy_bytes(b"raw", Ok(Vec::new())), b"raw".to_vec());
    assert_eq!(plain_or_snappy_bytes(b"raw", Err("corrupt".to_string())), b"raw".to_vec());
}

#[test]
fn test_block_outcomes() {
    assert_eq!(nonempty_output::<String>(Ok(vec![3])), Some(vec![3]));
    assert_eq!(nonempty_output::<String>(Ok(Vec::new())), None);
    assert_eq!(nonempty_output(Err("x".to_string())), None);
    assert_eq!(
        block_failure("snappy block: ", "corrupt input".to_string()),
        AmberError::DecompressionFailed("snappy block: corrupt input".to_string())
    );
}

#[test]
fn test_block_errors_carry_decoder_text() {
    let raw = [0x05u8, 0x10];
    let snappy_text = snap::raw::Decoder::new().decompress_vec(&raw).unwrap_err().to_string();
    assert_eq!(
        decompress_block(&raw, 1),
        Err(AmberError::DecompressionFailed(format!("snappy block: {}", snappy_text)))
    );
}
