use std::io::Read;
use vstd::prelude::*;

verus! {

/// The bytes a complete zstd stream decodes to; `None` when the stream is
/// malformed or truncated.
pub uninterp spec fn zstd_output(raw: Seq<u8>) -> Option<Seq<u8>>;

/// The bytes a raw (unframed) Snappy block decodes to; `None` when the
/// block is malformed.
pub uninterp spec fn snappy_output(raw: Seq<u8>) -> Option<Seq<u8>>;

/// The bytes a zlib stream decodes to; `None` when the stream is malformed.
pub uninterp spec fn zlib_output(raw: Seq<u8>) -> Option<Seq<u8>>;

/// The bytes a raw deflate stream decodes to; `None` when the stream is
/// malformed.
pub uninterp spec fn deflate_output(raw: Seq<u8>) -> Option<Seq<u8>>;

/// The text of the error a zstd decoder reports while reading a stream it
/// cannot decode; it depends on the stream alone.
pub uninterp spec fn zstd_read_failure(raw: Seq<u8>) -> Seq<char>;

/// The text of the error the Snappy decoder reports for a malformed block;
/// it depends on the block alone.
pub uninterp spec fn snappy_failure(raw: Seq<u8>) -> Seq<char>;

/// The text of the error a raw deflate decoder reports for a malformed
/// stream; it depends on the stream alone.
pub uninterp spec fn deflate_failure(raw: Seq<u8>) -> Seq<char>;

/// A failed zstd decode: setting up the decoder or reading from it, with
/// the decoder's description of the failure.
pub enum StreamFailure {
    Setup(String),
    Read(String),
}

/// `zstd::Decoder::new` over `raw`, then `read_to_end` into a fresh vector.
/// The claim: the decoded bytes, or the failure to decode, depend on `raw`
/// alone (which of the two failure kinds comes is not stated), and the text
/// of a read failure is named by
/// [`zstd_read_failure`]. The text of a failure to set the decoder up (it
/// fails only when it cannot obtain memory for its context) is not stated,
/// and such a failure is not accounted for.
#[verifier::external_body]
pub(crate) fn zstd_decode(raw: &[u8]) -> (res: Result<Vec<u8>, StreamFailure>)
    ensures
        match res {
            Ok(v) => zstd_output(raw@) == Some(v@),
            Err(StreamFailure::Setup(_)) => zstd_output(raw@) is None,
            Err(StreamFailure::Read(m)) => zstd_output(raw@) is None && m@ == zstd_read_failure(raw@),
        },
{
    let mut decoder = match zstd::Decoder::new(raw) {
        Ok(d) => d,
        Err(e) => return Err(StreamFailure::Setup(e.to_string())),
    };
    let mut out = Vec::new();
    match decoder.read_to_end(&mut out) {
        Ok(_) => Ok(out),
        Err(e) => Err(StreamFailure::Read(e.to_string())),
    }
}

/// `snap::raw::Decoder::decompress_vec` on a fresh decoder. The claim: the
/// decoded bytes, or the failure and its text, depend on `raw` alone. The
/// decoder allocates the output length the block's header declares (up to
/// 4 GiB) before decoding; when the machine cannot provide it the process
/// aborts, which depends on the machine and is not excluded here.
#[verifier::external_body]
pub(crate) fn snappy_decode(raw: &[u8]) -> (res: Result<Vec<u8>, String>)
    ensures
        match res {
            Ok(v) => snappy_output(raw@) == Some(v@),
            Err(m) => snappy_output(raw@) is None && m@ == snappy_failure(raw@),
        },
{
    match snap::raw::Decoder::new().decompress_vec(raw) {
        Ok(v) => Ok(v),
        Err(e) => Err(e.to_string()),
    }
}

/// `flate2::read::ZlibDecoder::new` over `raw`, then `read_to_end` into a
/// fresh vector. The claim: the decoded bytes, or the failure, depend on
/// `raw` alone; the failure's text is not stated.
#[verifier::external_body]
pub(crate) fn zlib_decode(raw: &[u8]) -> (res: Result<Vec<u8>, String>)
    ensures
        match res {
            Ok(v) => zlib_output(raw@) == Some(v@),
            Err(_) => zlib_output(raw@) is None,
        },
{
    let mut decoder = flate2::read::ZlibDecoder::new(raw);
    let mut out = Vec::new();
    match decoder.read_to_end(&mut out) {
        Ok(_) => Ok(out),
        Err(e) => Err(e.to_string()),
    }
}

/// `flate2::read::DeflateDecoder::new` over `raw`, then `read_to_end` into
/// a fresh vector. The claim: the decoded bytes, or the failure and its
/// text, depend on `raw` alone.
#[verifier::external_body]
pub(crate) fn deflate_decode(raw: &[u8]) -> (res: Result<Vec<u8>, String>)
    ensures
        match res {
            Ok(v) => deflate_output(raw@) == Some(v@),
            Err(m) => deflate_output(raw@) is None && m@ == deflate_failure(raw@),
        },
{
    let mut decoder = flate2::read::DeflateDecoder::new(raw);
    let mut out = Vec::new();
    match decoder.read_to_end(&mut out) {
        Ok(_) => Ok(out),
        Err(e) => Err(e.to_string()),
    }
}

} // verus!
