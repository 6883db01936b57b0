use super::codecs::{snappy_decode, snappy_output, zstd_decode, zstd_output, zstd_read_failure, StreamFailure};
use crate::common::binary::bytes_to_vec;
use crate::common::error::{AmberError, Result};
use vstd::prelude::*;

verus! {

/// `raw` opens with the zstd frame magic number.
pub open spec fn has_zstd_magic(raw: Seq<u8>) -> bool {
    raw.len() >= 4 && raw[0] == 0x28 && raw[1] == 0xb5 && raw[2] == 0x2f && raw[3] == 0xfd
}

/// What a stored payload decodes to, given what Snappy made of it: the
/// Snappy output when that worked and is not empty, else the bytes as they
/// are.
pub open spec fn plain_or_snappy(raw: Seq<u8>, snappy: Option<Seq<u8>>) -> Seq<u8> {
    match snappy {
        Some(v) => if v.len() > 0 {
            v
        } else {
            raw
        },
        None => raw,
    }
}

/// What a stored payload decodes to; `None` when it carries the zstd magic
/// but is not a valid zstd stream.
pub open spec fn payload_bytes(raw: Seq<u8>) -> Option<Seq<u8>> {
    if raw.len() == 0 {
        Some(Seq::empty())
    } else if has_zstd_magic(raw) {
        zstd_output(raw)
    } else {
        Some(plain_or_snappy(raw, snappy_output(raw)))
    }
}

/// The error text of a zstd payload `raw` that does not decode: the stage
/// that failed, then the decoder's own text (left open when the decoder
/// could not be set up).
pub open spec fn zstd_payload_message(raw: Seq<u8>, m: Seq<char>) -> bool {
    (exists|d: Seq<char>| m == "zstd init: "@ + d) || m == "zstd read: "@ + zstd_read_failure(raw)
}

/// The Snappy output when it worked and is not empty, otherwise a copy of
/// the bytes as they are.
pub fn plain_or_snappy_bytes(raw: &[u8], snappy: std::result::Result<Vec<u8>, String>) -> (res: Vec<u8>)
    ensures
        res@ == plain_or_snappy(
            raw@,
            match snappy {
                Ok(v) => Some(v@),
                Err(_) => None,
            },
        ),
{
    match snappy {
        Ok(v) => if v.len() > 0 {
            v
        } else {
            bytes_to_vec(raw)
        },
        Err(_) => bytes_to_vec(raw),
    }
}

/// The payload a zstd decode gives: its bytes, or a decompression error
/// that names the stage that failed followed by the decoder's description.
pub fn payload_from_zstd(decoded: std::result::Result<Vec<u8>, StreamFailure>) -> (res: Result<Vec<u8>>)
    ensures
        match decoded {
            Ok(v) => res == Ok::<Vec<u8>, AmberError>(v),
            Err(StreamFailure::Setup(d)) => res matches Err(AmberError::DecompressionFailed(m)) && m@
                == "zstd init: "@ + d@,
            Err(StreamFailure::Read(d)) => res matches Err(AmberError::DecompressionFailed(m)) && m@
                == "zstd read: "@ + d@,
        },
{
    match decoded {
        Ok(v) => Ok(v),
        Err(StreamFailure::Setup(msg)) => {
            let mut m = String::from_str("zstd init: ");
            m.append(msg.as_str());
            Err(AmberError::DecompressionFailed(m))
        },
        Err(StreamFailure::Read(msg)) => {
            let mut m = String::from_str("zstd read: ");
            m.append(msg.as_str());
            Err(AmberError::DecompressionFailed(m))
        },
    }
}

/// Decodes a stored payload: empty stays empty, a zstd stream (by its
/// magic number) is decompressed, anything else is tried as raw Snappy and
/// kept as it is when that fails or yields nothing.
pub fn decompress_payload(raw: &[u8]) -> (res: Result<Vec<u8>>)
    ensures
        match payload_bytes(raw@) {
            Some(v) => res is Ok && res->Ok_0@ == v,
            None => res matches Err(AmberError::DecompressionFailed(m)) && zstd_payload_message(raw@, m@),
        },
{
    if raw.len() == 0 {
        return Ok(Vec::new());
    }
    if raw.len() >= 4 && raw[0] == 0x28 && raw[1] == 0xb5 && raw[2] == 0x2f && raw[3] == 0xfd {
        return payload_from_zstd(zstd_decode(raw));
    }
    Ok(plain_or_snappy_bytes(raw, snappy_decode(raw)))
}

} // verus!
