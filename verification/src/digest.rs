//! SHA-1 digests and zlib streams, computed by the crates that implement them.
use vstd::prelude::*;
use flate2::read::ZlibDecoder;
use flate2::write::ZlibEncoder;
use flate2::Compression;
use sha1::{Digest, Sha1};
use std::io::{Read, Write};

verus! {

/// The SHA-1 digest of a byte string.
pub uninterp spec fn sha1_digest(data: Seq<u8>) -> Seq<u8>;

/// The zlib stream that the default compression level makes of a byte string.
pub uninterp spec fn zlib_deflated(data: Seq<u8>) -> Seq<u8>;

/// The bytes that a zlib stream holds, if it is a well-formed stream.
pub uninterp spec fn zlib_inflated(stream: Seq<u8>) -> Option<Seq<u8>>;

/// Hashes with `sha1::Sha1`: the result is the digest of the bytes, which
/// for SHA-1 is twenty bytes long.
#[verifier::external_body]
pub(crate) fn sha1_of(data: &[u8]) -> (out: Vec<u8>)
    ensures
        out@ == sha1_digest(data@),
        out@.len() == 20,
{
    let mut hasher = Sha1::new();
    hasher.update(data);
    hasher.finalize().to_vec()
}

/// Compresses with `flate2::write::ZlibEncoder` at the default level: the
/// result is the zlib stream of the bytes, and inflating that stream gives
/// the bytes back.
#[verifier::external_body]
pub(crate) fn deflate(data: &[u8]) -> (out: Vec<u8>)
    ensures
        out@ == zlib_deflated(data@),
        zlib_inflated(out@) == Some(data@),
{
    let mut encoder = ZlibEncoder::new(Vec::new(), Compression::default());
    let _ = encoder.write_all(data);
    encoder.finish().unwrap_or_default()
}

/// Decompresses with `flate2::read::ZlibDecoder`, reading to the end: the
/// result is what the stream holds, and there is none when the decoder
/// reports an error.
#[verifier::external_body]
pub(crate) fn inflate(stream: &[u8]) -> (out: Option<Vec<u8>>)
    ensures
        match out {
            Some(data) => zlib_inflated(stream@) == Some(data@),
            None => zlib_inflated(stream@) is None,
        },
{
    let mut decoder = ZlibDecoder::new(stream);
    let mut data = Vec::new();
    match decoder.read_to_end(&mut data) {
        Ok(_) => Some(data),
        Err(_) => None,
    }
}

} // verus!
