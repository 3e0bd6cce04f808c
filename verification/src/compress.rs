//! Chunk compression: the algorithm that encodes chunk payloads before they
//! are appended to a data blob.  When the encoded form is not smaller than
//! the plain bytes, the chunk is stored uncompressed and its `compressed`
//! flag is cleared.

use vstd::prelude::*;

use crate::{RafsError, RafsResult};

verus! {

/// The compression algorithm of an image.  `Plain` is the `none` algorithm:
/// chunks are stored as they are.
#[derive(PartialEq, Eq, Structural, Clone, Copy, Debug)]
pub enum Compressor {
    Plain,
    Lz4Block,
    Gzip,
}

/// The LZ4 block encoding of a byte string.
pub uninterp spec fn lz4_of(data: Seq<u8>) -> Seq<u8>;

/// The gzip encoding of a byte string.
pub uninterp spec fn gzip_of(data: Seq<u8>) -> Seq<u8>;

/// The outcome of LZ4 block decoding for an encoded string and an expected
/// plain length: the decoded bytes, or nothing when decoding fails.
pub uninterp spec fn lz4_decoded(data: Seq<u8>, size: int) -> Option<Seq<u8>>;

/// The outcome of gzip decoding for an encoded string: the decoded bytes, or
/// nothing when decoding fails.
pub uninterp spec fn gzip_decoded(data: Seq<u8>) -> Option<Seq<u8>>;

/// Relies on lz4_flex::block::compress: the LZ4 block encoding, a function
/// of the input bytes alone, and documented to decompress back to its input
/// when the original length is supplied.
#[verifier::external_body]
fn lz4_compress(data: &[u8]) -> (r: Vec<u8>)
    ensures
        r@ == lz4_of(data@),
        lz4_decoded(r@, data@.len() as int) == Some(data@),
{
    lz4_flex::block::compress(data)
}

/// Relies on flate2's GzEncoder over an in-memory buffer: the gzip encoding
/// at the default level, a function of the input bytes alone (the header's
/// timestamp field defaults to zero), and documented to decode back to its
/// input.
#[verifier::external_body]
fn gzip_compress(data: &[u8]) -> (r: Vec<u8>)
    ensures
        r@ == gzip_of(data@),
        gzip_decoded(r@) == Some(data@),
{
    let mut enc = flate2::write::GzEncoder::new(Vec::new(), flate2::Compression::default());
    if std::io::Write::write_all(&mut enc, data).is_err() {
        return Vec::new();
    }
    enc.finish().unwrap_or_default()
}

/// Relies on lz4_flex::block::decompress: the outcome is a function of the
/// arguments alone, succeeding exactly when the bytes decode.
#[verifier::external_body]
pub fn lz4_decompress(data: &[u8], size: usize) -> (r: RafsResult<Vec<u8>>)
    ensures
        match lz4_decoded(data@, size as int) {
            Some(v) => r matches Ok(w) && w@ == v,
            None => r is Err,
        },
{
    match lz4_flex::block::decompress(data, size) {
        Ok(v) => Ok(v),
        Err(_) => Err(RafsError::Corruption("lz4 decode failed".to_string())),
    }
}

/// Relies on flate2's GzDecoder over an in-memory buffer: the outcome is a
/// function of the input alone, succeeding exactly when the bytes decode.
#[verifier::external_body]
pub fn gzip_decompress(data: &[u8]) -> (r: RafsResult<Vec<u8>>)
    ensures
        match gzip_decoded(data@) {
            Some(v) => r matches Ok(w) && w@ == v,
            None => r is Err,
        },
{
    let mut dec = flate2::read::GzDecoder::new(data);
    let mut out = Vec::new();
    match std::io::Read::read_to_end(&mut dec, &mut out) {
        Ok(_) => Ok(out),
        Err(_) => Err(RafsError::Corruption("gzip decode failed".to_string())),
    }
}

/// The bytes a chunk stores under compressor `c`: the encoded form where it
/// is strictly smaller than the plain bytes, the plain bytes otherwise.
pub open spec fn stored_of(c: Compressor, data: Seq<u8>) -> (Seq<u8>, bool) {
    match c {
        Compressor::Plain => (data, false),
        Compressor::Lz4Block => {
            let enc = lz4_of(data);
            if enc.len() >= data.len() {
                (data, false)
            } else {
                (enc, true)
            }
        },
        Compressor::Gzip => {
            let enc = gzip_of(data);
            if enc.len() >= data.len() {
                (data, false)
            } else {
                (enc, true)
            }
        },
    }
}

/// The bytes a stored chunk decodes to: the named decoder outcome when the
/// chunk was stored compressed, the stored bytes themselves otherwise.  A
/// compressed chunk in an image whose compressor stores plain is undecodable.
pub open spec fn spec_decode_stored(
    c: Compressor,
    stored: Seq<u8>,
    size: int,
    compressed: bool,
) -> Option<Seq<u8>> {
    if compressed {
        match c {
            Compressor::Lz4Block => lz4_decoded(stored, size),
            Compressor::Gzip => gzip_decoded(stored),
            Compressor::Plain => None,
        }
    } else {
        Some(stored)
    }
}

/// Encode `data` under `c` for storing in a blob.  Returns the bytes to
/// store and whether they are compressed: an encoding at least as long as
/// the plain bytes is discarded and the chunk stored plain.  Whatever was
/// stored decodes back to `data`.
pub fn compress(c: Compressor, data: &[u8]) -> (r: (Vec<u8>, bool))
    ensures
        (r.0@, r.1) == stored_of(c, data@),
        spec_decode_stored(c, r.0@, data@.len() as int, r.1) == Some(data@),
{
    match c {
        Compressor::Plain => (crate::node::clone_slice(data), false),
        Compressor::Lz4Block => {
            let enc = lz4_compress(data);
            if enc.len() >= data.len() {
                (crate::node::clone_slice(data), false)
            } else {
                (enc, true)
            }
        },
        Compressor::Gzip => {
            let enc = gzip_compress(data);
            if enc.len() >= data.len() {
                (crate::node::clone_slice(data), false)
            } else {
                (enc, true)
            }
        },
    }
}

} // verus!
