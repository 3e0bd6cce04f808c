//! Chunk digests: the cryptographic hash that identifies a chunk's
//! uncompressed bytes.  The digester algorithm is an image-wide constant
//! recorded in the superblock.

use vstd::prelude::*;

verus! {

/// Width in bytes of every chunk digest.
pub const DIGEST_LEN: usize = 32;

/// The digest algorithm of an image.
#[derive(PartialEq, Eq, Structural, Clone, Copy, Debug)]
pub enum Digester {
    Blake3,
    Sha256,
}

/// The BLAKE3 digest of a byte string.
pub uninterp spec fn blake3_of(data: Seq<u8>) -> Seq<u8>;

/// The SHA-256 digest of a byte string.
pub uninterp spec fn sha256_of(data: Seq<u8>) -> Seq<u8>;

/// The digest of a byte string under the image's digest algorithm.
pub open spec fn digest_of(alg: Digester, data: Seq<u8>) -> Seq<u8> {
    match alg {
        Digester::Blake3 => blake3_of(data),
        Digester::Sha256 => sha256_of(data),
    }
}

/// Relies on blake3::hash: a 32-byte digest, a function of the input bytes
/// alone.
#[verifier::external_body]
fn blake3_digest(data: &[u8]) -> (r: Vec<u8>)
    ensures
        r@ == blake3_of(data@),
        r@.len() == DIGEST_LEN,
{
    blake3::hash(data).as_bytes().to_vec()
}

/// Relies on sha2::Sha256::digest: a 32-byte digest, a function of the input
/// bytes alone.
#[verifier::external_body]
fn sha256_digest(data: &[u8]) -> (r: Vec<u8>)
    ensures
        r@ == sha256_of(data@),
        r@.len() == DIGEST_LEN,
{
    <sha2::Sha256 as sha2::Digest>::digest(data).to_vec()
}

/// The digest of `data` under `alg`.
pub fn digest(alg: Digester, data: &[u8]) -> (r: Vec<u8>)
    ensures
        r@ == digest_of(alg, data@),
        r@.len() == DIGEST_LEN,
{
    match alg {
        Digester::Blake3 => blake3_digest(data),
        Digester::Sha256 => sha256_digest(data),
    }
}

/// Validate a chunk's bytes against the digest its descriptor recorded: the
/// digest is recomputed over the uncompressed bytes and a mismatch reports
/// corruption.
pub fn validate_chunk_data(data: &[u8], expected: &Vec<u8>, alg: Digester) -> (r: crate::RafsResult<
    (),
>)
    ensures
        r is Ok <==> digest_of(alg, data@) == expected@,
{
    let d = digest(alg, data);
    if crate::node::bytes_eq(d.as_slice(), expected.as_slice()) {
        Ok(())
    } else {
        Err(crate::RafsError::Corruption("chunk digest mismatch".to_string()))
    }
}

} // verus!
