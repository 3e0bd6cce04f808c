//! Data blobs on the build side: a blob accumulates compressed,
//! content-addressed chunks and an ordered chunk table; sealing it fixes the
//! chunk count and emits the blob-table entry whose identifier is the hex
//! digest of the blob's contents.

use vstd::prelude::*;

use crate::chunk::{dict_lookup, ChunkDict};
use crate::compress::{spec_decode_stored, stored_of, Compressor};
use crate::digest::{digest, digest_of, Digester};
use crate::node::{clone_bytes, ChunkV, ChunkWrapper, CHUNK_FLAG_COMPRESSED};
use crate::{RafsError, RafsResult};

verus! {

/// A hexadecimal digit as a lower-case ASCII byte.
pub open spec fn hex_digit(n: int) -> u8 {
    if n < 10 {
        (48 + n) as u8
    } else {
        (87 + n) as u8
    }
}

/// The lower-case hexadecimal spelling of a byte string, two digits a byte.
pub open spec fn hex_of(data: Seq<u8>) -> Seq<u8> {
    Seq::new(2 * data.len(), |i: int| hex_digit(if i % 2 == 0 {
        data[i / 2] / 16
    } else {
        data[i / 2] % 16
    } as int))
}

/// Spell `data` in lower-case hexadecimal, two digits a byte.
pub fn hex_encode(data: &[u8]) -> (r: Vec<u8>)
    requires
        data@.len() * 2 <= usize::MAX,
    ensures
        r@ == hex_of(data@),
{
    let mut r: Vec<u8> = Vec::new();
    let n = data.len();
    let mut i: usize = 0;
    while i < n
        invariant
            i <= n,
            n == data@.len(),
            2 * n <= usize::MAX,
            r@.len() == 2 * i,
            r@ == hex_of(data@.take(i as int)),
        decreases n - i,
    {
        let b = data[i];
        let hi = b / 16;
        let lo = b % 16;
        r.push(if hi < 10 {
            48 + hi
        } else {
            87 + hi
        });
        r.push(if lo < 10 {
            48 + lo
        } else {
            87 + lo
        });
        proof {
            assert(r@ =~= hex_of(data@.take(i + 1)));
        }
        i = i + 1;
    }
    proof {
        assert(data@.take(n as int) =~= data@);
    }
    r
}

/// The chunk descriptor `c` points into `blob` at bytes that decode back to
/// `data`: the stored range lies inside the blob and its bytes, decoded as
/// the descriptor's compressed flag says, are exactly `data`.
pub open spec fn chunk_decodes(comp: Compressor, blob: Seq<u8>, c: ChunkV, data: Seq<u8>) -> bool {
    &&& c.compressed_offset + c.compressed_size <= blob.len()
    &&& spec_decode_stored(
        comp,
        blob.subrange(c.compressed_offset as int, c.compressed_offset + c.compressed_size),
        c.uncompressed_size as int,
        c.flags & CHUNK_FLAG_COMPRESSED != 0,
    ) == Some(data)
}

/// One output data blob while it is being written: the byte stream, the
/// uncompressed cursor and the ordered chunk table.
pub struct BlobContext {
    /// Index of this blob in the image's blob table.
    pub blob_index: u32,
    /// The blob's byte stream written so far.
    pub data: Vec<u8>,
    /// Cursor in the uncompressed view of the blob.
    pub uncompressed_offset: u64,
    /// The chunk table: one descriptor per stored chunk, in store order.
    pub chunks: Vec<ChunkWrapper>,
}

/// Mathematical model of a blob-table entry.
#[verifier::ext_equal]
pub ghost struct BlobEntryV {
    pub blob_id: Seq<u8>,
    pub blob_index: u32,
    pub chunk_count: u32,
    pub compressed_total: u64,
    pub uncompressed_total: u64,
}

/// The blob-table entry a sealed blob leaves behind.
pub struct BlobEntry {
    /// Printable identifier of the blob, at most 255 bytes.
    pub blob_id: Vec<u8>,
    /// Index of the blob in the image's blob table.
    pub blob_index: u32,
    /// Number of chunks the sealed blob holds.
    pub chunk_count: u32,
    /// Total stored (possibly compressed) bytes.
    pub compressed_total: u64,
    /// Total uncompressed bytes.
    pub uncompressed_total: u64,
}

impl View for BlobEntry {
    type V = BlobEntryV;

    open spec fn view(&self) -> BlobEntryV {
        BlobEntryV {
            blob_id: self.blob_id@,
            blob_index: self.blob_index,
            chunk_count: self.chunk_count,
            compressed_total: self.compressed_total,
            uncompressed_total: self.uncompressed_total,
        }
    }
}

impl DeepView for BlobEntry {
    type V = BlobEntryV;

    open spec fn deep_view(&self) -> BlobEntryV {
        self@
    }
}

impl BlobEntry {
    /// Copy the entry.
    pub fn duplicate(&self) -> (r: BlobEntry)
        ensures
            r@ == self@,
    {
        BlobEntry {
            blob_id: clone_bytes(&self.blob_id),
            blob_index: self.blob_index,
            chunk_count: self.chunk_count,
            compressed_total: self.compressed_total,
            uncompressed_total: self.uncompressed_total,
        }
    }
}

impl BlobContext {
    /// A fresh, empty blob with the given table index.
    pub fn new(blob_index: u32) -> (b: BlobContext)
        ensures
            b.blob_index == blob_index,
            b.data@ == Seq::<u8>::empty(),
            b.uncompressed_offset == 0,
            b.chunks@ =~= Seq::<ChunkWrapper>::empty(),
    {
        BlobContext { blob_index, data: Vec::new(), uncompressed_offset: 0, chunks: Vec::new() }
    }

    /// Compress a chunk's bytes and append them to the blob: the stored form
    /// is recorded at the current write cursor, the descriptor gets the next
    /// free chunk index, and the `compressed` flag says whether the encoded
    /// or the plain form was stored.  Fails, leaving the blob unchanged,
    /// only when a size no longer fits its descriptor field.
    pub fn store_chunk(
        &mut self,
        data: &[u8],
        dig: &Vec<u8>,
        file_offset: u64,
        compressor: Compressor,
    ) -> (r: RafsResult<ChunkWrapper>)
        requires
            data@.len() <= u32::MAX,
        ensures
            ({
                let (stored, is_comp) = stored_of(compressor, data@);
                let fits = stored.len() <= u32::MAX && old(self).chunks@.len() < u32::MAX && old(
                    self,
                ).uncompressed_offset + data@.len() <= u64::MAX && old(self).data@.len()
                    + stored.len() <= u64::MAX;
                if fits {
                    {
                        &&& r matches Ok(c)
                        &&& c@ == (ChunkV {
                            digest: dig@,
                            blob_index: old(self).blob_index,
                            chunk_index: old(self).chunks@.len() as u32,
                            compressed_offset: old(self).data@.len() as u64,
                            compressed_size: stored.len() as u32,
                            uncompressed_offset: old(self).uncompressed_offset,
                            uncompressed_size: data@.len() as u32,
                            file_offset: file_offset,
                            flags: if is_comp {
                                CHUNK_FLAG_COMPRESSED
                            } else {
                                0
                            },
                        })
                        &&& final(self).data@ == old(self).data@ + stored
                        &&& final(self).chunks.deep_view() == old(self).chunks.deep_view().push(
                            c@,
                        )
                        &&& final(self).uncompressed_offset == old(self).uncompressed_offset
                            + data@.len()
                        &&& final(self).blob_index == old(self).blob_index
                        &&& chunk_decodes(compressor, final(self).data@, c@, data@)
                    }
                } else {
                    r is Err && *final(self) == *old(self)
                }
            }),
    {
        let (stored, is_comp) = crate::compress::compress(compressor, data);
        if stored.len() > u32::MAX as usize {
            return Err(RafsError::Unsupported);
        }
        if self.chunks.len() >= u32::MAX as usize {
            return Err(RafsError::Unsupported);
        }
        if self.uncompressed_offset > u64::MAX - data.len() as u64 {
            return Err(RafsError::Unsupported);
        }
        if self.data.len() as u64 > u64::MAX - stored.len() as u64 {
            return Err(RafsError::Unsupported);
        }
        let c = ChunkWrapper {
            digest: clone_bytes(dig),
            blob_index: self.blob_index,
            chunk_index: self.chunks.len() as u32,
            compressed_offset: self.data.len() as u64,
            compressed_size: stored.len() as u32,
            uncompressed_offset: self.uncompressed_offset,
            uncompressed_size: data.len() as u32,
            file_offset,
            flags: if is_comp {
                CHUNK_FLAG_COMPRESSED
            } else {
                0
            },
        };
        let ghost pre = self.data@;
        let mut k: usize = 0;
        let m = stored.len();
        while k < m
            invariant
                k <= m,
                m == stored@.len(),
                self.data@ == pre + stored@.take(k as int),
                self.blob_index == old(self).blob_index,
                self.uncompressed_offset == old(self).uncompressed_offset,
                self.chunks == old(self).chunks,
                pre == old(self).data@,
            decreases m - k,
        {
            self.data.push(stored[k]);
            assert(self.data@ =~= pre + stored@.take(k + 1));
            k = k + 1;
        }
        proof {
            assert(stored@.take(m as int) =~= stored@);
        }
        self.uncompressed_offset = self.uncompressed_offset + data.len() as u64;
        let r = c.duplicate();
        self.chunks.push(c);
        proof {
            assert(self.chunks.deep_view() =~= old(self).chunks.deep_view().push(r@));
            assert(self.data@.subrange(
                old(self).data@.len() as int,
                old(self).data@.len() as int + stored@.len() as int,
            ) =~= stored@);
            assert(1u32 & 1u32 == 1u32) by (bit_vector);
            assert(0u32 & 1u32 == 0u32) by (bit_vector);
            assert((r@.flags & CHUNK_FLAG_COMPRESSED != 0) == is_comp);
            assert(chunk_decodes(compressor, self.data@, r@, data@));
        }
        Ok(r)
    }

    /// Number of chunks stored so far.
    pub fn chunk_count(&self) -> (n: usize)
        ensures
            n == self.chunks@.len(),
    {
        self.chunks.len()
    }

    /// Seal the blob: its chunk table becomes immutable and the blob-table
    /// entry is emitted.  The blob's identifier is the lower-case hex digest
    /// of its contents, for content addressability.
    pub fn seal(&self, digester: Digester) -> (e: BlobEntry)
        ensures
            e.blob_id@ == hex_of(digest_of(digester, self.data@)),
            e.blob_index == self.blob_index,
            e.chunk_count == self.chunks@.len() as u32,
            e.compressed_total == self.data@.len(),
            e.uncompressed_total == self.uncompressed_offset,
    {
        let dig = digest(digester, self.data.as_slice());
        let blob_id = hex_encode(dig.as_slice());
        BlobEntry {
            blob_id,
            blob_index: self.blob_index,
            chunk_count: self.chunks.len() as u32,
            compressed_total: self.data.len() as u64,
            uncompressed_total: self.uncompressed_offset,
        }
    }
}


/// What reading a chunk from its blob's bytes yields: the decoded bytes
/// when the stored range lies inside the blob, the stored form decodes, and
/// the decoded bytes carry the recorded digest; nothing otherwise.
pub open spec fn spec_read_chunk(
    blob: Seq<u8>,
    c: ChunkV,
    comp: Compressor,
    alg: Digester,
) -> Option<Seq<u8>> {
    if c.compressed_offset + c.compressed_size > blob.len() {
        None
    } else {
        let stored = blob.subrange(
            c.compressed_offset as int,
            c.compressed_offset + c.compressed_size,
        );
        match spec_decode_stored(
            comp,
            stored,
            c.uncompressed_size as int,
            c.flags & CHUNK_FLAG_COMPRESSED != 0,
        ) {
            Some(v) => if digest_of(alg, v) == c.digest {
                Some(v)
            } else {
                None
            },
            None => None,
        }
    }
}

/// Whatever the write path stored for a chunk reads back as the chunk's
/// original bytes: a descriptor whose stored range decodes to `data` and
/// whose recorded digest is the digest of `data` is read back as exactly
/// `data`.
pub proof fn lemma_stored_chunk_reads_back(
    comp: Compressor,
    blob: Seq<u8>,
    c: ChunkV,
    data: Seq<u8>,
    alg: Digester,
)
    requires
        chunk_decodes(comp, blob, c, data),
        digest_of(alg, data) == c.digest,
    ensures
        spec_read_chunk(blob, c, comp, alg) == Some(data),
{
}

/// Read one chunk back from its blob's byte stream: slice the stored range,
/// decode it if the chunk is compressed, and validate the digest.  Succeeds
/// with exactly the decoded bytes when the stored range lies inside the
/// blob, decoding succeeds and the digest matches; anything else — a range
/// outside the blob, an undecodable stored form, a compressed chunk in a
/// plain image, or a digest mismatch — is reported as corruption.
pub fn read_chunk(
    blob_data: &[u8],
    c: &ChunkWrapper,
    compressor: Compressor,
    digester: Digester,
) -> (r: RafsResult<Vec<u8>>)
    ensures
        match spec_read_chunk(blob_data@, c@, compressor, digester) {
            Some(v) => r matches Ok(w) && w@ == v,
            None => r is Err,
        },
{
    let n = blob_data.len();
    if c.compressed_offset > u64::MAX - c.compressed_size as u64 || c.compressed_offset
        + c.compressed_size as u64 > n as u64 {
        proof {
            assert(c@.compressed_offset + c@.compressed_size > blob_data@.len());
        }
        return Err(RafsError::Corruption("chunk outside its blob".to_string()));
    }
    let stored = crate::builder::slice_part(
        blob_data,
        c.compressed_offset as usize,
        c.compressed_size as usize,
    );
    let bytes = if c.flags & CHUNK_FLAG_COMPRESSED != 0 {
        match compressor {
            Compressor::Lz4Block => {
                match crate::compress::lz4_decompress(
                    stored.as_slice(),
                    c.uncompressed_size as usize,
                ) {
                    Ok(v) => v,
                    Err(e) => {
                        return Err(e);
                    },
                }
            },
            Compressor::Gzip => {
                match crate::compress::gzip_decompress(stored.as_slice()) {
                    Ok(v) => v,
                    Err(e) => {
                        return Err(e);
                    },
                }
            },
            Compressor::Plain => {
                return Err(
                    RafsError::Corruption("compressed chunk in a plain image".to_string()),
                );
            },
        }
    } else {
        stored
    };
    match crate::digest::validate_chunk_data(bytes.as_slice(), &c.digest, digester) {
        Ok(_) => Ok(bytes),
        Err(e) => Err(e),
    }
}

/// Split-or-reuse step of the build: look a chunk's digest up in the
/// dictionary; on a hit reuse the stored descriptor verbatim (same blob,
/// same offsets, same index) with only the file position changed, and write
/// no blob bytes; on a miss store the chunk and record it so later identical
/// chunks hit.
pub fn deduplicate_chunk(
    dict: &mut ChunkDict,
    blob: &mut BlobContext,
    data: &[u8],
    digester: Digester,
    compressor: Compressor,
    file_offset: u64,
) -> (r: RafsResult<ChunkWrapper>)
    requires
        data@.len() <= u32::MAX,
    ensures
        ({
            let dg = digest_of(digester, data@);
            match dict_lookup(old(dict)@, dg) {
                Some(c) => {
                    &&& r matches Ok(e)
                    &&& e@ == (ChunkV { file_offset: file_offset, ..c })
                    &&& *final(blob) == *old(blob)
                    &&& final(dict)@ == old(dict)@
                },
                None => {
                    let (stored, is_comp) = stored_of(compressor, data@);
                    let fits = stored.len() <= u32::MAX && old(blob).chunks@.len() < u32::MAX
                        && old(blob).uncompressed_offset + data@.len() <= u64::MAX && old(
                        blob,
                    ).data@.len() + stored.len() <= u64::MAX;
                    if fits {
                        {
                            &&& r matches Ok(e)
                            &&& e@ == (ChunkV {
                                digest: dg,
                                blob_index: old(blob).blob_index,
                                chunk_index: old(blob).chunks@.len() as u32,
                                compressed_offset: old(blob).data@.len() as u64,
                                compressed_size: stored.len() as u32,
                                uncompressed_offset: old(blob).uncompressed_offset,
                                uncompressed_size: data@.len() as u32,
                                file_offset: file_offset,
                                flags: if is_comp {
                                    CHUNK_FLAG_COMPRESSED
                                } else {
                                    0
                                },
                            })
                            &&& final(blob).data@ == old(blob).data@ + stored
                            &&& final(blob).chunks.deep_view() == old(
                                blob,
                            ).chunks.deep_view().push(e@)
                            &&& final(blob).uncompressed_offset == old(blob).uncompressed_offset
                                + data@.len()
                            &&& final(blob).blob_index == old(blob).blob_index
                            &&& final(dict)@ == old(dict)@.push(e@)
                            &&& chunk_decodes(compressor, final(blob).data@, e@, data@)
                        }
                    } else {
                        r is Err && *final(blob) == *old(blob) && final(dict)@ == old(dict)@
                    }
                },
            }
        }),
{
    let dg = digest(digester, data);
    let hit = dict.get_chunk(dg.as_slice());
    match hit {
        Some(e) => {
            let mut c = e.duplicate();
            c.file_offset = file_offset;
            Ok(c)
        },
        None => {
            match blob.store_chunk(data, &dg, file_offset, compressor) {
                Ok(c) => {
                    let r = c.duplicate();
                    dict.add_chunk(c);
                    proof {
                        crate::chunk::lemma_dict_lookup_push(old(dict)@, r@, r@.digest);
                    }
                    Ok(r)
                },
                Err(e) => Err(e),
            }
        },
    }
}

/// Dedup law: once a chunk's descriptor is in the dictionary, storing
/// identical bytes again resolves to that same descriptor — same blob, same
/// offsets, same chunk index — so the blob holds the content exactly once
/// and both files' chunk lists point at the same chunk.
pub proof fn lemma_dedup_second_store(dict0: Seq<ChunkV>, c: ChunkV, data: Seq<u8>, alg: Digester)
    requires
        dict_lookup(dict0, digest_of(alg, data)) is None,
        c.digest == digest_of(alg, data),
    ensures
        dict_lookup(dict0.push(c), digest_of(alg, data)) == Some(c),
{
    crate::chunk::lemma_dict_lookup_push(dict0, c, digest_of(alg, data));
}

/// The ordered list of sealed output blobs: indices are assigned in the
/// order the blobs are admitted.
pub struct BlobManager {
    /// Entries of sealed blobs, in blob-index order.
    pub entries: Vec<BlobEntry>,
}

impl BlobManager {
    /// An empty blob table.
    pub fn new() -> (m: BlobManager)
        ensures
            m.entries@ =~= Seq::<BlobEntry>::empty(),
    {
        BlobManager { entries: Vec::new() }
    }

    /// The index the next admitted blob will get.
    pub fn next_index(&self) -> (n: usize)
        ensures
            n == self.entries@.len(),
    {
        self.entries.len()
    }

    /// Admit a sealed blob's table entry.
    pub fn add(&mut self, e: BlobEntry)
        ensures
            final(self).entries@ == old(self).entries@.push(e),
    {
        self.entries.push(e);
    }

    /// The table entries, in blob-index order.
    pub fn entries(&self) -> (r: &Vec<BlobEntry>)
        ensures
            r@ == self.entries@,
    {
        &self.entries
    }
}

} // verus!
