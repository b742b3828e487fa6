//! The compression codec around stored objects, bound to an outside crate
//! as a black-box byte-stream transform.

use vstd::prelude::*;

use std::io::{Read, Write};

verus! {

/// The zlib-compressed form of a byte string, at the codec's default
/// compression level.  The result depends on the input bytes alone.
pub uninterp spec fn deflate_of(b: Seq<u8>) -> Seq<u8>;

/// What zlib decompression yields on a byte string: `Some` with the full
/// output when it succeeds, `None` when the bytes are not a valid stream.
/// The result depends on the input bytes alone.
pub uninterp spec fn inflate_of(b: Seq<u8>) -> Option<Seq<u8>>;

/// The error type of the standard I/O traits the compression codec speaks.
#[verifier::external_type_specification]
#[verifier::external_body]
pub struct ExIoError(std::io::Error);

/// Relies on flate2::write::ZlibEncoder writing into an in-memory buffer:
/// compression is a pure stream transform, and zlib is lossless, so
/// decompressing the result yields the input again.
#[verifier::external_body]
pub(crate) fn zlib_compress(b: &[u8]) -> (r: Vec<u8>)
    ensures
        r@ == deflate_of(b@),
        inflate_of(r@) == Some(b@),
{
    let mut enc = flate2::write::ZlibEncoder::new(Vec::new(), flate2::Compression::default());
    enc.write_all(b).expect("writing into an in-memory buffer cannot fail");
    enc.finish().expect("finishing an in-memory buffer cannot fail")
}

/// Relies on flate2::bufread::ZlibDecoder: decompression of a given byte
/// string is deterministic, so it succeeds with the full output exactly
/// when the bytes decompress at all.
#[verifier::external_body]
pub(crate) fn zlib_decompress(b: &[u8]) -> (r: Result<Vec<u8>, std::io::Error>)
    ensures
        r matches Ok(v) ==> inflate_of(b@) == Some(v@),
        r matches Err(_) ==> inflate_of(b@) is None,
{
    let mut dec = flate2::bufread::ZlibDecoder::new(b);
    let mut out: Vec<u8> = Vec::new();
    match dec.read_to_end(&mut out) {
        Ok(_) => Ok(out),
        Err(e) => Err(e),
    }
}

} // verus!
