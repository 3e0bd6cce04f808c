//! The bootstrap codec: serializing filesystem metadata into the on-disk
//! metadata blob and parsing it back.
//!
//! Two layout versions coexist with identical semantics: the sequential
//! layout, and the padded one that leaves the first KiB free and orders the
//! superblock fields differently, following the later version's superblock
//! placement (its kernel-interoperable inode and directory-entry encoding is
//! not spoken here).  The superblock records the magic, the
//! version, the image-wide flags (compressor, digester, explicit uid/gid),
//! the chunk size, the table sizes and a checksum over its own fields.  All
//! integers are stored little-endian.

use vstd::prelude::*;

use crate::blob::{BlobEntry, BlobEntryV};
use crate::compress::Compressor;
use crate::config::RafsVersion;
use crate::digest::Digester;
use crate::io::{zeroes, RafsIoWrite};
use crate::node::{ChunkV, ChunkWrapper, XAttr, XAttrV};
use crate::{RafsError, RafsResult};

verus! {

/// The superblock magic: `RAFS` in ASCII.
pub const RAFS_SUPER_MAGIC: u64 = 0x52414653;

/// The eight little-endian bytes of a 64-bit value.
pub open spec fn le64(x: u64) -> Seq<u8> {
    Seq::new(8, |i: int| (x >> (8 * i)) as u8)
}

/// The 64-bit value eight little-endian bytes spell.
pub open spec fn dec64(s: Seq<u8>) -> u64
    recommends
        s.len() == 8,
{
    (s[0] as u64) | (s[1] as u64) << 8 | (s[2] as u64) << 16 | (s[3] as u64) << 24 | (
    s[4] as u64) << 32 | (s[5] as u64) << 40 | (s[6] as u64) << 48 | (s[7] as u64) << 56
}

/// Decoding inverts encoding for 64-bit values.
pub proof fn lemma_le64_rt(x: u64)
    ensures
        dec64(le64(x)) == x,
{
    let s = le64(x);
    assert(s[0] == (x >> 0) as u8 && s[1] == (x >> 8) as u8 && s[2] == (x >> 16) as u8 && s[3] == (
    x >> 24) as u8 && s[4] == (x >> 32) as u8 && s[5] == (x >> 40) as u8 && s[6] == (x >> 48) as u8
        && s[7] == (x >> 56) as u8);
    assert((((x >> 0) as u8) as u64) | (((x >> 8) as u8) as u64) << 8 | (((x >> 16) as u8) as u64)
        << 16 | (((x >> 24) as u8) as u64) << 24 | (((x >> 32) as u8) as u64) << 32 | (((x
        >> 40) as u8) as u64) << 40 | (((x >> 48) as u8) as u64) << 48 | (((x >> 56) as u8) as u64)
        << 56 == x) by (bit_vector);
}

/// Parse eight bytes as a 64-bit value; hand back the rest.
pub open spec fn sp_u64(s: Seq<u8>) -> Option<(u64, Seq<u8>)> {
    if s.len() >= 8 {
        Some((dec64(s.take(8)), s.skip(8)))
    } else {
        None
    }
}

/// A length-prefixed byte string.
pub open spec fn enc_bytes(b: Seq<u8>) -> Seq<u8> {
    le64(b.len() as u64) + b
}

/// Parse a length-prefixed byte string; hand back the rest.
pub open spec fn sp_bytes(s: Seq<u8>) -> Option<(Seq<u8>, Seq<u8>)> {
    match sp_u64(s) {
        Some((n, rest)) => if n <= rest.len() {
            Some((rest.take(n as int), rest.skip(n as int)))
        } else {
            None
        },
        None => None,
    }
}

pub proof fn lemma_rt_u64(x: u64, rest: Seq<u8>)
    ensures
        sp_u64(le64(x) + rest) == Some((x, rest)),
{
    lemma_le64_rt(x);
    assert((le64(x) + rest).take(8) =~= le64(x));
    assert((le64(x) + rest).skip(8) =~= rest);
}

pub proof fn lemma_rt_bytes(b: Seq<u8>, rest: Seq<u8>)
    requires
        b.len() <= u64::MAX,
    ensures
        sp_bytes(enc_bytes(b) + rest) == Some((b, rest)),
{
    assert(enc_bytes(b) + rest =~= le64(b.len() as u64) + (b + rest));
    lemma_rt_u64(b.len() as u64, b + rest);
    assert((b + rest).take(b.len() as int) =~= b);
    assert((b + rest).skip(b.len() as int) =~= rest);
}

/// An optional byte string: a presence marker, then the string if present.
pub open spec fn enc_opt_bytes(o: Option<Seq<u8>>) -> Seq<u8> {
    match o {
        Some(b) => le64(1) + enc_bytes(b),
        None => le64(0),
    }
}

/// Parse an optional byte string; hand back the rest.
pub open spec fn sp_opt_bytes(s: Seq<u8>) -> Option<(Option<Seq<u8>>, Seq<u8>)> {
    match sp_u64(s) {
        Some((tag, rest)) => if tag == 0 {
            Some((None, rest))
        } else if tag == 1 {
            match sp_bytes(rest) {
                Some((b, rest2)) => Some((Some(b), rest2)),
                None => None,
            }
        } else {
            None
        },
        None => None,
    }
}

pub proof fn lemma_rt_opt_bytes(o: Option<Seq<u8>>, rest: Seq<u8>)
    requires
        o matches Some(b) ==> b.len() <= u64::MAX,
    ensures
        sp_opt_bytes(enc_opt_bytes(o) + rest) == Some((o, rest)),
{
    match o {
        Some(b) => {
            assert(enc_opt_bytes(o) + rest =~= le64(1) + (enc_bytes(b) + rest));
            lemma_rt_u64(1, enc_bytes(b) + rest);
            lemma_rt_bytes(b, rest);
        },
        None => {
            lemma_rt_u64(0, rest);
            assert(enc_opt_bytes(o) + rest =~= le64(0) + rest);
        },
    }
}

/// A list of 64-bit values, one after the other.
pub open spec fn enc_u64s(s: Seq<u64>) -> Seq<u8>
    decreases s,
{
    if s.len() == 0 {
        Seq::empty()
    } else {
        le64(s[0]) + enc_u64s(s.drop_first())
    }
}

/// Parse `n` 64-bit values; hand back the rest.
pub open spec fn sp_u64s(s: Seq<u8>, n: int) -> Option<(Seq<u64>, Seq<u8>)>
    decreases n,
{
    if n <= 0 {
        Some((Seq::empty(), s))
    } else {
        match sp_u64(s) {
            Some((x, rest)) => match sp_u64s(rest, n - 1) {
                Some((xs, rest2)) => Some((seq![x] + xs, rest2)),
                None => None,
            },
            None => None,
        }
    }
}

pub proof fn lemma_rt_u64s(s: Seq<u64>, rest: Seq<u8>)
    ensures
        sp_u64s(enc_u64s(s) + rest, s.len() as int) == Some((s, rest)),
    decreases s.len(),
{
    if s.len() == 0 {
        assert(enc_u64s(s) + rest =~= rest);
    } else {
        assert(enc_u64s(s) + rest =~= le64(s[0]) + (enc_u64s(s.drop_first()) + rest));
        lemma_rt_u64(s[0], enc_u64s(s.drop_first()) + rest);
        lemma_rt_u64s(s.drop_first(), rest);
        assert(seq![s[0]] + s.drop_first() =~= s);
    }
}


/// The scalar fields of a chunk descriptor, in their on-disk order.
pub open spec fn chunk_scalars(c: ChunkV) -> Seq<u64> {
    seq![
        c.blob_index as u64,
        c.chunk_index as u64,
        c.compressed_offset,
        c.compressed_size as u64,
        c.uncompressed_offset,
        c.uncompressed_size as u64,
        c.file_offset,
        c.flags as u64,
    ]
}

/// A chunk descriptor on disk: the digest, then the scalar fields.
pub open spec fn enc_chunk(c: ChunkV) -> Seq<u8> {
    enc_bytes(c.digest) + enc_u64s(chunk_scalars(c))
}

/// Parse a chunk descriptor; hand back the rest.
pub open spec fn sp_chunk(s: Seq<u8>) -> Option<(ChunkV, Seq<u8>)> {
    match sp_bytes(s) {
        Some((digest, s1)) => match sp_u64s(s1, 8) {
            Some((xs, rest)) => if xs[0] <= u32::MAX && xs[1] <= u32::MAX && xs[3] <= u32::MAX
                && xs[5] <= u32::MAX && xs[7] <= u32::MAX {
                Some(
                    (
                        ChunkV {
                            digest: digest,
                            blob_index: xs[0] as u32,
                            chunk_index: xs[1] as u32,
                            compressed_offset: xs[2],
                            compressed_size: xs[3] as u32,
                            uncompressed_offset: xs[4],
                            uncompressed_size: xs[5] as u32,
                            file_offset: xs[6],
                            flags: xs[7] as u32,
                        },
                        rest,
                    ),
                )
            } else {
                None
            },
            None => None,
        },
        None => None,
    }
}

pub proof fn lemma_rt_chunk(c: ChunkV, rest: Seq<u8>)
    requires
        c.digest.len() <= u64::MAX,
    ensures
        sp_chunk(enc_chunk(c) + rest) == Some((c, rest)),
{
    let scalars = chunk_scalars(c);
    assert(enc_chunk(c) + rest =~= enc_bytes(c.digest) + (enc_u64s(scalars) + rest));
    lemma_rt_bytes(c.digest, enc_u64s(scalars) + rest);
    lemma_rt_u64s(scalars, rest);
}

/// A list of chunk descriptors.
pub open spec fn enc_chunks(s: Seq<ChunkV>) -> Seq<u8>
    decreases s,
{
    if s.len() == 0 {
        Seq::empty()
    } else {
        enc_chunk(s[0]) + enc_chunks(s.drop_first())
    }
}

/// Parse `n` chunk descriptors; hand back the rest.
pub open spec fn sp_chunks(s: Seq<u8>, n: int) -> Option<(Seq<ChunkV>, Seq<u8>)>
    decreases n,
{
    if n <= 0 {
        Some((Seq::empty(), s))
    } else {
        match sp_chunk(s) {
            Some((c, rest)) => match sp_chunks(rest, n - 1) {
                Some((cs, rest2)) => Some((seq![c] + cs, rest2)),
                None => None,
            },
            None => None,
        }
    }
}

pub proof fn lemma_rt_chunks(s: Seq<ChunkV>, rest: Seq<u8>)
    requires
        forall|i: int| 0 <= i < s.len() ==> (#[trigger] s[i]).digest.len() <= u64::MAX,
    ensures
        sp_chunks(enc_chunks(s) + rest, s.len() as int) == Some((s, rest)),
    decreases s.len(),
{
    if s.len() == 0 {
        assert(enc_chunks(s) + rest =~= rest);
    } else {
        assert(enc_chunks(s) + rest =~= enc_chunk(s[0]) + (enc_chunks(s.drop_first()) + rest));
        lemma_rt_chunk(s[0], enc_chunks(s.drop_first()) + rest);
        lemma_rt_chunks(s.drop_first(), rest);
        assert(seq![s[0]] + s.drop_first() =~= s);
    }
}

/// An extended attribute on disk: the name, then the value.
pub open spec fn enc_xattr(x: XAttrV) -> Seq<u8> {
    enc_bytes(x.name) + enc_bytes(x.value)
}

/// Parse an extended attribute; hand back the rest.
pub open spec fn sp_xattr(s: Seq<u8>) -> Option<(XAttrV, Seq<u8>)> {
    match sp_bytes(s) {
        Some((name, s1)) => match sp_bytes(s1) {
            Some((value, rest)) => Some((XAttrV { name, value }, rest)),
            None => None,
        },
        None => None,
    }
}

pub proof fn lemma_rt_xattr(x: XAttrV, rest: Seq<u8>)
    requires
        x.name.len() <= u64::MAX,
        x.value.len() <= u64::MAX,
    ensures
        sp_xattr(enc_xattr(x) + rest) == Some((x, rest)),
{
    assert(enc_xattr(x) + rest =~= enc_bytes(x.name) + (enc_bytes(x.value) + rest));
    lemma_rt_bytes(x.name, enc_bytes(x.value) + rest);
    lemma_rt_bytes(x.value, rest);
}

/// A list of extended attributes.
pub open spec fn enc_xattrs(s: Seq<XAttrV>) -> Seq<u8>
    decreases s,
{
    if s.len() == 0 {
        Seq::empty()
    } else {
        enc_xattr(s[0]) + enc_xattrs(s.drop_first())
    }
}

/// Parse `n` extended attributes; hand back the rest.
pub open spec fn sp_xattrs(s: Seq<u8>, n: int) -> Option<(Seq<XAttrV>, Seq<u8>)>
    decreases n,
{
    if n <= 0 {
        Some((Seq::empty(), s))
    } else {
        match sp_xattr(s) {
            Some((x, rest)) => match sp_xattrs(rest, n - 1) {
                Some((xs, rest2)) => Some((seq![x] + xs, rest2)),
                None => None,
            },
            None => None,
        }
    }
}

#[verifier::rlimit(100)]
pub proof fn lemma_rt_xattrs(s: Seq<XAttrV>, rest: Seq<u8>)
    requires
        forall|i: int|
            0 <= i < s.len() ==> (#[trigger] s[i]).name.len() <= u64::MAX && s[i].value.len()
                <= u64::MAX,
    ensures
        sp_xattrs(enc_xattrs(s) + rest, s.len() as int) == Some((s, rest)),
    decreases s.len(),
{
    if s.len() == 0 {
        assert(enc_xattrs(s) + rest =~= rest);
    } else {
        assert(enc_xattrs(s) + rest =~= enc_xattr(s[0]) + (enc_xattrs(s.drop_first()) + rest));
        lemma_rt_xattr(s[0], enc_xattrs(s.drop_first()) + rest);
        lemma_rt_xattrs(s.drop_first(), rest);
        assert(seq![s[0]] + s.drop_first() =~= s);
    }
}


/// One inode as the bootstrap stores it: POSIX metadata, the name, an
/// optional symlink target, the xattrs, the sorted child inode numbers for
/// directories and the chunk descriptors for regular files.
pub struct InodeRecord {
    pub ino: u64,
    /// Inode number of the parent directory; the root is its own parent.
    pub parent: u64,
    pub name: Vec<u8>,
    pub mode: u32,
    pub uid: u32,
    pub gid: u32,
    pub mtime: u64,
    pub nlink: u32,
    pub size: u64,
    pub rdev: u64,
    pub symlink: Option<Vec<u8>>,
    pub xattrs: Vec<XAttr>,
    /// Child inode numbers, sorted by child name.
    pub children: Vec<u64>,
    pub chunks: Vec<ChunkWrapper>,
}

/// Mathematical model of a stored inode.
#[verifier::ext_equal]
pub ghost struct InodeRecordV {
    pub ino: u64,
    pub parent: u64,
    pub name: Seq<u8>,
    pub mode: u32,
    pub uid: u32,
    pub gid: u32,
    pub mtime: u64,
    pub nlink: u32,
    pub size: u64,
    pub rdev: u64,
    pub symlink: Option<Seq<u8>>,
    pub xattrs: Seq<XAttrV>,
    pub children: Seq<u64>,
    pub chunks: Seq<ChunkV>,
}

impl View for InodeRecord {
    type V = InodeRecordV;

    open spec fn view(&self) -> InodeRecordV {
        InodeRecordV {
            ino: self.ino,
            parent: self.parent,
            name: self.name@,
            mode: self.mode,
            uid: self.uid,
            gid: self.gid,
            mtime: self.mtime,
            nlink: self.nlink,
            size: self.size,
            rdev: self.rdev,
            symlink: self.symlink.deep_view(),
            xattrs: self.xattrs.deep_view(),
            children: self.children@,
            chunks: self.chunks.deep_view(),
        }
    }
}

impl DeepView for InodeRecord {
    type V = InodeRecordV;

    open spec fn deep_view(&self) -> InodeRecordV {
        self@
    }
}

/// The scalar fields of a stored inode, in their on-disk order.
pub open spec fn record_scalars(r: InodeRecordV) -> Seq<u64> {
    seq![
        r.ino,
        r.parent,
        r.mode as u64,
        r.uid as u64,
        r.gid as u64,
        r.mtime,
        r.nlink as u64,
        r.size,
        r.rdev,
    ]
}

/// An inode on disk: the scalars, the name, the optional symlink target,
/// then the counted xattr, child and chunk lists.
pub open spec fn enc_record(r: InodeRecordV) -> Seq<u8> {
    enc_u64s(record_scalars(r)) + enc_bytes(r.name) + enc_opt_bytes(r.symlink) + le64(
        r.xattrs.len() as u64,
    ) + enc_xattrs(r.xattrs) + le64(r.children.len() as u64) + enc_u64s(r.children) + le64(
        r.chunks.len() as u64,
    ) + enc_chunks(r.chunks)
}

/// Parse a stored inode; hand back the rest.
pub open spec fn sp_record(s: Seq<u8>) -> Option<(InodeRecordV, Seq<u8>)> {
    match sp_u64s(s, 9) {
        Some((xs, s1)) => if xs[2] <= u32::MAX && xs[3] <= u32::MAX && xs[4] <= u32::MAX && xs[6]
            <= u32::MAX {
            match sp_bytes(s1) {
                Some((name, s2)) => match sp_opt_bytes(s2) {
                    Some((symlink, s3)) => match sp_u64(s3) {
                        Some((nx, s4)) => match sp_xattrs(s4, nx as int) {
                            Some((xattrs, s5)) => match sp_u64(s5) {
                                Some((nc, s6)) => match sp_u64s(s6, nc as int) {
                                    Some((children, s7)) => match sp_u64(s7) {
                                        Some((nk, s8)) => match sp_chunks(s8, nk as int) {
                                            Some((chunks, rest)) => Some(
                                                (
                                                    InodeRecordV {
                                                        ino: xs[0],
                                                        parent: xs[1],
                                                        name: name,
                                                        mode: xs[2] as u32,
                                                        uid: xs[3] as u32,
                                                        gid: xs[4] as u32,
                                                        mtime: xs[5],
                                                        nlink: xs[6] as u32,
                                                        size: xs[7],
                                                        rdev: xs[8],
                                                        symlink: symlink,
                                                        xattrs: xattrs,
                                                        children: children,
                                                        chunks: chunks,
                                                    },
                                                    rest,
                                                ),
                                            ),
                                            None => None,
                                        },
                                        None => None,
                                    },
                                    None => None,
                                },
                                None => None,
                            },
                            None => None,
                        },
                        None => None,
                    },
                    None => None,
                },
                None => None,
            }
        } else {
            None
        },
        None => None,
    }
}

/// Size limits under which a stored inode's counted fields round-trip.
pub open spec fn record_wf(r: InodeRecordV) -> bool {
    &&& r.name.len() <= u64::MAX
    &&& (r.symlink matches Some(b) ==> b.len() <= u64::MAX)
    &&& r.xattrs.len() <= u64::MAX
    &&& (forall|i: int|
        0 <= i < r.xattrs.len() ==> (#[trigger] r.xattrs[i]).name.len() <= u64::MAX
            && r.xattrs[i].value.len() <= u64::MAX)
    &&& r.children.len() <= u64::MAX
    &&& r.chunks.len() <= u64::MAX
    &&& (forall|i: int| 0 <= i < r.chunks.len() ==> (#[trigger] r.chunks[i]).digest.len()
        <= u64::MAX)
}

#[verifier::rlimit(100)]
pub proof fn lemma_rt_record(r: InodeRecordV, rest: Seq<u8>)
    requires
        record_wf(r),
    ensures
        sp_record(enc_record(r) + rest) == Some((r, rest)),
{
    let t8 = enc_chunks(r.chunks) + rest;
    let t7 = le64(r.chunks.len() as u64) + t8;
    let t6 = enc_u64s(r.children) + t7;
    let t5 = le64(r.children.len() as u64) + t6;
    let t4 = enc_xattrs(r.xattrs) + t5;
    let t3 = le64(r.xattrs.len() as u64) + t4;
    let t2 = enc_opt_bytes(r.symlink) + t3;
    let t1 = enc_bytes(r.name) + t2;
    assert(enc_record(r) + rest =~= enc_u64s(record_scalars(r)) + t1);
    lemma_rt_u64s(record_scalars(r), t1);
    lemma_rt_bytes(r.name, t2);
    lemma_rt_opt_bytes(r.symlink, t3);
    lemma_rt_u64(r.xattrs.len() as u64, t4);
    lemma_rt_xattrs(r.xattrs, t5);
    lemma_rt_u64(r.children.len() as u64, t6);
    lemma_rt_u64s(r.children, t7);
    lemma_rt_u64(r.chunks.len() as u64, t8);
    lemma_rt_chunks(r.chunks, rest);
    assert(sp_record(enc_record(r) + rest) == Some((r, rest)));
}

/// A list of stored inodes.
pub open spec fn enc_records(s: Seq<InodeRecordV>) -> Seq<u8>
    decreases s,
{
    if s.len() == 0 {
        Seq::empty()
    } else {
        enc_record(s[0]) + enc_records(s.drop_first())
    }
}

/// Parse `n` stored inodes; hand back the rest.
pub open spec fn sp_records(s: Seq<u8>, n: int) -> Option<(Seq<InodeRecordV>, Seq<u8>)>
    decreases n,
{
    if n <= 0 {
        Some((Seq::empty(), s))
    } else {
        match sp_record(s) {
            Some((r, rest)) => match sp_records(rest, n - 1) {
                Some((rs, rest2)) => Some((seq![r] + rs, rest2)),
                None => None,
            },
            None => None,
        }
    }
}

#[verifier::rlimit(100)]
pub proof fn lemma_rt_records(s: Seq<InodeRecordV>, rest: Seq<u8>)
    requires
        forall|i: int| 0 <= i < s.len() ==> record_wf(#[trigger] s[i]),
    ensures
        sp_records(enc_records(s) + rest, s.len() as int) == Some((s, rest)),
    decreases s.len(),
{
    if s.len() == 0 {
        assert(enc_records(s) + rest =~= rest);
    } else {
        assert(enc_records(s) + rest =~= enc_record(s[0]) + (enc_records(s.drop_first()) + rest));
        lemma_rt_record(s[0], enc_records(s.drop_first()) + rest);
        lemma_rt_records(s.drop_first(), rest);
        assert(seq![s[0]] + s.drop_first() =~= s);
    }
}

/// A blob-table entry on disk: the identifier, then the scalar fields.
pub open spec fn enc_blob(b: BlobEntryV) -> Seq<u8> {
    enc_bytes(b.blob_id) + enc_u64s(
        seq![b.blob_index as u64, b.chunk_count as u64, b.compressed_total, b.uncompressed_total],
    )
}

/// Parse a blob-table entry; hand back the rest.
pub open spec fn sp_blob(s: Seq<u8>) -> Option<(BlobEntryV, Seq<u8>)> {
    match sp_bytes(s) {
        Some((blob_id, s1)) => match sp_u64s(s1, 4) {
            Some((xs, rest)) => if xs[0] <= u32::MAX && xs[1] <= u32::MAX {
                Some(
                    (
                        BlobEntryV {
                            blob_id: blob_id,
                            blob_index: xs[0] as u32,
                            chunk_count: xs[1] as u32,
                            compressed_total: xs[2],
                            uncompressed_total: xs[3],
                        },
                        rest,
                    ),
                )
            } else {
                None
            },
            None => None,
        },
        None => None,
    }
}

pub proof fn lemma_rt_blob(b: BlobEntryV, rest: Seq<u8>)
    requires
        b.blob_id.len() <= u64::MAX,
    ensures
        sp_blob(enc_blob(b) + rest) == Some((b, rest)),
{
    let scalars = seq![
        b.blob_index as u64,
        b.chunk_count as u64,
        b.compressed_total,
        b.uncompressed_total,
    ];
    assert(enc_blob(b) + rest =~= enc_bytes(b.blob_id) + (enc_u64s(scalars) + rest));
    lemma_rt_bytes(b.blob_id, enc_u64s(scalars) + rest);
    lemma_rt_u64s(scalars, rest);
}

/// A list of blob-table entries.
pub open spec fn enc_blobs(s: Seq<BlobEntryV>) -> Seq<u8>
    decreases s,
{
    if s.len() == 0 {
        Seq::empty()
    } else {
        enc_blob(s[0]) + enc_blobs(s.drop_first())
    }
}

/// Parse `n` blob-table entries; hand back the rest.
pub open spec fn sp_blobs(s: Seq<u8>, n: int) -> Option<(Seq<BlobEntryV>, Seq<u8>)>
    decreases n,
{
    if n <= 0 {
        Some((Seq::empty(), s))
    } else {
        match sp_blob(s) {
            Some((b, rest)) => match sp_blobs(rest, n - 1) {
                Some((bs, rest2)) => Some((seq![b] + bs, rest2)),
                None => None,
            },
            None => None,
        }
    }
}

pub proof fn lemma_rt_blobs(s: Seq<BlobEntryV>, rest: Seq<u8>)
    requires
        forall|i: int| 0 <= i < s.len() ==> (#[trigger] s[i]).blob_id.len() <= u64::MAX,
    ensures
        sp_blobs(enc_blobs(s) + rest, s.len() as int) == Some((s, rest)),
    decreases s.len(),
{
    if s.len() == 0 {
        assert(enc_blobs(s) + rest =~= rest);
    } else {
        assert(enc_blobs(s) + rest =~= enc_blob(s[0]) + (enc_blobs(s.drop_first()) + rest));
        lemma_rt_blob(s[0], enc_blobs(s.drop_first()) + rest);
        lemma_rt_blobs(s.drop_first(), rest);
        assert(seq![s[0]] + s.drop_first() =~= s);
    }
}


/// The checksum of the superblock fields: a 32-bit-folded polynomial over
/// the covered bytes.
pub open spec fn cks(s: Seq<u8>) -> u64
    decreases s,
{
    if s.len() == 0 {
        0
    } else {
        ((cks(s.drop_last()) % 0x1_0000_0000) * 31 + s.last()) as u64
    }
}

/// The checksum stays below 2^37, so the arithmetic never wraps.
pub proof fn lemma_cks_bound(s: Seq<u8>)
    ensures
        cks(s) < 0x20_0000_0000,
    decreases s,
{
    if s.len() > 0 {
        lemma_cks_bound(s.drop_last());
    }
}

/// Compute the superblock checksum of `s`.
pub fn checksum(s: &[u8]) -> (r: u64)
    ensures
        r == cks(s@),
{
    let n = s.len();
    let mut acc: u64 = 0;
    let mut i: usize = 0;
    while i < n
        invariant
            i <= n,
            n == s@.len(),
            acc == cks(s@.take(i as int)),
        decreases n - i,
    {
        proof {
            lemma_cks_bound(s@.take(i as int));
            assert(s@.take(i + 1).drop_last() =~= s@.take(i as int));
            assert(s@.take(i + 1).last() == s@[i as int]);
        }
        acc = (acc % 0x1_0000_0000) * 31 + s[i] as u64;
        i = i + 1;
    }
    proof {
        assert(s@.take(n as int) =~= s@);
    }
    acc
}

/// The numeric code of a compressor in the superblock flags.
pub open spec fn comp_code(c: Compressor) -> u64 {
    match c {
        Compressor::Plain => 0,
        Compressor::Lz4Block => 1,
        Compressor::Gzip => 2,
    }
}

/// The numeric code of a digester in the superblock flags.
pub open spec fn dig_code(d: Digester) -> u64 {
    match d {
        Digester::Blake3 => 0,
        Digester::Sha256 => 1,
    }
}

/// The image-wide metadata of a bootstrap.
#[verifier::ext_equal]
pub ghost struct SuperV {
    pub version: RafsVersion,
    pub compressor: Compressor,
    pub digester: Digester,
    pub explicit_uidgid: bool,
    pub chunk_size: u32,
    pub inodes: Seq<InodeRecordV>,
    pub blobs: Seq<BlobEntryV>,
    pub prefetch: Seq<u64>,
}

/// The superblock flags: the compressor in the low bits, then the digester,
/// then the explicit-uid/gid bit.
pub open spec fn flags_of(m: SuperV) -> u64 {
    (comp_code(m.compressor) + 4 * dig_code(m.digester) + (if m.explicit_uidgid {
        8u64
    } else {
        0u64
    })) as u64
}

/// Decode superblock flags; unknown bits are refused.
pub open spec fn flags_decode(f: u64) -> Option<(Compressor, Digester, bool)> {
    if f >= 16 || f % 4 == 3 {
        None
    } else {
        let c = if f % 4 == 0 {
            Compressor::Plain
        } else if f % 4 == 1 {
            Compressor::Lz4Block
        } else {
            Compressor::Gzip
        };
        let d = if (f / 4) % 2 == 0 {
            Digester::Blake3
        } else {
            Digester::Sha256
        };
        Some((c, d, f / 8 == 1))
    }
}

pub proof fn lemma_flags_rt(m: SuperV)
    ensures
        flags_decode(flags_of(m)) == Some((m.compressor, m.digester, m.explicit_uidgid)),
{
}

/// The version number stored on disk.
pub open spec fn version_code(v: RafsVersion) -> u64 {
    match v {
        RafsVersion::V5 => 5,
        RafsVersion::V6 => 6,
    }
}

/// The superblock fields the checksum covers, as bytes in canonical order.
pub open spec fn covered(m: SuperV) -> Seq<u8> {
    enc_u64s(covered_fields(m))
}

/// A sequence of `n` zero bytes.
pub open spec fn pad_zeroes(n: int) -> Seq<u8> {
    Seq::new(n as nat, |i: int| 0u8)
}

/// The superblock on disk.  The sequential layout stores the covered fields
/// first and the checksum last; the padded layout leaves the first KiB free
/// and moves the checksum forward, directly after the magic and the
/// version.
pub open spec fn enc_super(m: SuperV) -> Seq<u8> {
    match m.version {
        RafsVersion::V5 => enc_u64s(
            seq![
                RAFS_SUPER_MAGIC,
                5u64,
                flags_of(m),
                m.chunk_size as u64,
                m.inodes.len() as u64,
                m.blobs.len() as u64,
                m.prefetch.len() as u64,
                cks(covered(m)),
            ],
        ),
        RafsVersion::V6 => pad_zeroes(1024) + enc_u64s(
            seq![
                RAFS_SUPER_MAGIC,
                6u64,
                cks(covered(m)),
                flags_of(m),
                m.chunk_size as u64,
                m.inodes.len() as u64,
                m.blobs.len() as u64,
                m.prefetch.len() as u64,
            ],
        ),
    }
}

/// The parsed superblock fields: compressor, digester, explicit uid/gid,
/// chunk size, and the three table sizes.
pub ghost struct SuperFields {
    pub version: RafsVersion,
    pub compressor: Compressor,
    pub digester: Digester,
    pub explicit_uidgid: bool,
    pub chunk_size: u32,
    pub inodes_count: u64,
    pub blobs_count: u64,
    pub prefetch_count: u64,
}

/// Parse a superblock in either layout, checking magic, version, flags and
/// checksum; hand back the rest.
pub open spec fn sp_super(s: Seq<u8>) -> Option<(SuperFields, Seq<u8>)> {
    match sp_u64(s) {
        Some((m0, r0)) => {
            if m0 == RAFS_SUPER_MAGIC {
                // Sequential layout.
                match sp_u64s(r0, 7) {
                    Some((xs, rest)) => {
                        let ver = xs[0];
                        let flags = xs[1];
                        let chunk = xs[2];
                        let ni = xs[3];
                        let nb = xs[4];
                        let np = xs[5];
                        let ck = xs[6];
                        if ver == 5 && chunk <= u32::MAX {
                            match flags_decode(flags) {
                                Some((c, d, e)) => {
                                    let cov = enc_u64s(
                                        seq![
                                            RAFS_SUPER_MAGIC,
                                            5u64,
                                            flags,
                                            chunk,
                                            ni,
                                            nb,
                                            np,
                                        ],
                                    );
                                    if ck == cks(cov) {
                                        Some(
                                            (
                                                SuperFields {
                                                    version: RafsVersion::V5,
                                                    compressor: c,
                                                    digester: d,
                                                    explicit_uidgid: e,
                                                    chunk_size: chunk as u32,
                                                    inodes_count: ni,
                                                    blobs_count: nb,
                                                    prefetch_count: np,
                                                },
                                                rest,
                                            ),
                                        )
                                    } else {
                                        None
                                    }
                                },
                                None => None,
                            }
                        } else {
                            None
                        }
                    },
                    None => None,
                }
            } else if s.len() >= 1024 {
                // The padded layout: the superblock sits after one KiB of
                // padding.
                match sp_u64s(s.skip(1024), 8) {
                    Some((xs, rest)) => {
                        let magic = xs[0];
                        let ver = xs[1];
                        let ck = xs[2];
                        let flags = xs[3];
                        let chunk = xs[4];
                        let ni = xs[5];
                        let nb = xs[6];
                        let np = xs[7];
                        if magic == RAFS_SUPER_MAGIC && ver == 6 && chunk <= u32::MAX {
                            match flags_decode(flags) {
                                Some((c, d, e)) => {
                                    let cov = enc_u64s(
                                        seq![
                                            RAFS_SUPER_MAGIC,
                                            6u64,
                                            flags,
                                            chunk,
                                            ni,
                                            nb,
                                            np,
                                        ],
                                    );
                                    if ck == cks(cov) {
                                        Some(
                                            (
                                                SuperFields {
                                                    version: RafsVersion::V6,
                                                    compressor: c,
                                                    digester: d,
                                                    explicit_uidgid: e,
                                                    chunk_size: chunk as u32,
                                                    inodes_count: ni,
                                                    blobs_count: nb,
                                                    prefetch_count: np,
                                                },
                                                rest,
                                            ),
                                        )
                                    } else {
                                        None
                                    }
                                },
                                None => None,
                            }
                        } else {
                            None
                        }
                    },
                    None => None,
                }
            } else {
                None
            }
        },
        None => None,
    }
}

/// A whole bootstrap on disk: the superblock, the blob table, the prefetch
/// table, then the inode records in inode-number order.  Trailing padding is
/// ignored by the parser.
pub open spec fn enc_bootstrap(m: SuperV) -> Seq<u8> {
    enc_super(m) + enc_blobs(m.blobs) + enc_u64s(m.prefetch) + enc_records(m.inodes)
}

/// Parse a whole bootstrap.
pub open spec fn sp_bootstrap(s: Seq<u8>) -> Option<SuperV> {
    match sp_super(s) {
        Some((f, r1)) => match sp_blobs(r1, f.blobs_count as int) {
            Some((blobs, r2)) => match sp_u64s(r2, f.prefetch_count as int) {
                Some((prefetch, r3)) => match sp_records(r3, f.inodes_count as int) {
                    Some((inodes, _)) => Some(
                        SuperV {
                            version: f.version,
                            compressor: f.compressor,
                            digester: f.digester,
                            explicit_uidgid: f.explicit_uidgid,
                            chunk_size: f.chunk_size,
                            inodes: inodes,
                            blobs: blobs,
                            prefetch: prefetch,
                        },
                    ),
                    None => None,
                },
                None => None,
            },
            None => None,
        },
        None => None,
    }
}

/// Size limits under which a bootstrap round-trips.
pub open spec fn super_wf(m: SuperV) -> bool {
    &&& m.inodes.len() <= u64::MAX
    &&& m.blobs.len() <= u64::MAX
    &&& m.prefetch.len() <= u64::MAX
    &&& (forall|i: int| 0 <= i < m.inodes.len() ==> record_wf(#[trigger] m.inodes[i]))
    &&& (forall|i: int| 0 <= i < m.blobs.len() ==> (#[trigger] m.blobs[i]).blob_id.len()
        <= u64::MAX)
}

/// The fields a parsed superblock reports for metadata `m`.
pub open spec fn fields_of(m: SuperV) -> SuperFields {
    SuperFields {
        version: m.version,
        compressor: m.compressor,
        digester: m.digester,
        explicit_uidgid: m.explicit_uidgid,
        chunk_size: m.chunk_size,
        inodes_count: m.inodes.len() as u64,
        blobs_count: m.blobs.len() as u64,
        prefetch_count: m.prefetch.len() as u64,
    }
}

#[verifier::rlimit(100)]
proof fn lemma_rt_super_v5(m: SuperV, r1: Seq<u8>)
    requires
        super_wf(m),
        m.version == RafsVersion::V5,
    ensures
        sp_super(enc_super(m) + r1) == Some((fields_of(m), r1)),
{
    let s = enc_super(m) + r1;
    lemma_flags_rt(m);
    let flags = flags_of(m);
    assert(flags < 16);
    let f8 = seq![
        RAFS_SUPER_MAGIC,
        5u64,
        flags,
        m.chunk_size as u64,
        m.inodes.len() as u64,
        m.blobs.len() as u64,
        m.prefetch.len() as u64,
        cks(covered(m)),
    ];
    let tail7 = f8.drop_first();
    assert(enc_u64s(f8) == le64(f8[0]) + enc_u64s(tail7));
    assert(s =~= le64(RAFS_SUPER_MAGIC) + (enc_u64s(tail7) + r1));
    lemma_rt_u64(RAFS_SUPER_MAGIC, enc_u64s(tail7) + r1);
    lemma_rt_u64s(tail7, r1);
    assert(tail7.len() == 7);
    assert(tail7[0] == 5u64 && tail7[1] == flags && tail7[2] == m.chunk_size as u64 && tail7[3]
        == m.inodes.len() as u64 && tail7[4] == m.blobs.len() as u64 && tail7[5]
        == m.prefetch.len() as u64 && tail7[6] == cks(covered(m)));
    assert(seq![
        RAFS_SUPER_MAGIC,
        5u64,
        flags,
        m.chunk_size as u64,
        m.inodes.len() as u64,
        m.blobs.len() as u64,
        m.prefetch.len() as u64,
    ] =~= covered_fields(m));
}

/// The covered superblock fields as a list.
pub open spec fn covered_fields(m: SuperV) -> Seq<u64> {
    seq![
        RAFS_SUPER_MAGIC,
        version_code(m.version),
        flags_of(m),
        m.chunk_size as u64,
        m.inodes.len() as u64,
        m.blobs.len() as u64,
        m.prefetch.len() as u64,
    ]
}

#[verifier::rlimit(100)]
proof fn lemma_rt_super_v6(m: SuperV, r1: Seq<u8>)
    requires
        super_wf(m),
        m.version == RafsVersion::V6,
    ensures
        sp_super(enc_super(m) + r1) == Some((fields_of(m), r1)),
{
    let s = enc_super(m) + r1;
    lemma_flags_rt(m);
    let flags = flags_of(m);
    assert(flags < 16);
    let f8 = seq![
        RAFS_SUPER_MAGIC,
        6u64,
        cks(covered(m)),
        flags,
        m.chunk_size as u64,
        m.inodes.len() as u64,
        m.blobs.len() as u64,
        m.prefetch.len() as u64,
    ];
    assert(s =~= pad_zeroes(1024) + (enc_u64s(f8) + r1));
    assert(s.skip(1024) =~= enc_u64s(f8) + r1);
    lemma_rt_u64s(f8, r1);
    assert(s.len() >= 1024);
    assert(s.take(8) =~= pad_zeroes(8));
    assert(dec64(pad_zeroes(8)) == 0) by {
        let z = pad_zeroes(8);
        assert(z[0] == 0 && z[1] == 0 && z[2] == 0 && z[3] == 0 && z[4] == 0 && z[5] == 0 && z[6]
            == 0 && z[7] == 0);
        assert((0u8 as u64) | (0u8 as u64) << 8 | (0u8 as u64) << 16 | (0u8 as u64) << 24 | (
        0u8 as u64) << 32 | (0u8 as u64) << 40 | (0u8 as u64) << 48 | (0u8 as u64) << 56 == 0)
            by (bit_vector);
    }
    assert(sp_u64(s) == Some((0u64, s.skip(8))));
    assert(seq![
        RAFS_SUPER_MAGIC,
        6u64,
        flags,
        m.chunk_size as u64,
        m.inodes.len() as u64,
        m.blobs.len() as u64,
        m.prefetch.len() as u64,
    ] =~= covered_fields(m));
}

/// Round-trip identity of the metadata blob: parsing what the serializer
/// emits yields exactly the metadata that went in, whichever of the two
/// layouts was chosen, and still does so with padding appended.
#[verifier::rlimit(100)]
#[verifier::spinoff_prover]
pub proof fn lemma_bootstrap_round_trip(m: SuperV, padding: Seq<u8>)
    requires
        super_wf(m),
    ensures
        sp_bootstrap(enc_bootstrap(m) + padding) == Some(m),
{
    let r1 = enc_blobs(m.blobs) + (enc_u64s(m.prefetch) + (enc_records(m.inodes) + padding));
    let s = enc_bootstrap(m) + padding;
    assert(s =~= enc_super(m) + r1);
    match m.version {
        RafsVersion::V5 => lemma_rt_super_v5(m, r1),
        RafsVersion::V6 => lemma_rt_super_v6(m, r1),
    }
    lemma_rt_blobs(m.blobs, enc_u64s(m.prefetch) + (enc_records(m.inodes) + padding));
    lemma_rt_u64s(m.prefetch, enc_records(m.inodes) + padding);
    lemma_rt_records(m.inodes, padding);
}

/// Parsing `n` values followed by one more equals parsing the extended list.
proof fn lemma_rt_u64s_extend(s: Seq<u64>, x: u64, rest: Seq<u8>)
    ensures
        sp_u64s(enc_u64s(s) + (le64(x) + rest), s.len() as int + 1) == Some((s.push(x), rest)),
    decreases s.len(),
{
    if s.len() == 0 {
        assert(enc_u64s(s) + (le64(x) + rest) =~= le64(x) + rest);
        lemma_rt_u64(x, rest);
        assert(seq![x] + Seq::<u64>::empty() =~= s.push(x));
        assert(sp_u64s(rest, 0) == Some((Seq::<u64>::empty(), rest)));
    } else {
        assert(enc_u64s(s) + (le64(x) + rest) =~= le64(s[0]) + (enc_u64s(s.drop_first()) + (le64(
            x,
        ) + rest)));
        lemma_rt_u64(s[0], enc_u64s(s.drop_first()) + (le64(x) + rest));
        lemma_rt_u64s_extend(s.drop_first(), x, rest);
        assert(seq![s[0]] + s.drop_first().push(x) =~= s.push(x));
    }
}


proof fn lemma_enc_u64s_push(s: Seq<u64>, x: u64)
    ensures
        enc_u64s(s.push(x)) == enc_u64s(s) + le64(x),
    decreases s.len(),
{
    let sp = s.push(x);
    assert(sp[0] == if s.len() == 0 {
        x
    } else {
        s[0]
    });
    if s.len() == 0 {
        assert(sp.drop_first() =~= Seq::<u64>::empty());
        assert(enc_u64s(sp.drop_first()) =~= Seq::<u8>::empty());
        assert(enc_u64s(s) =~= Seq::<u8>::empty());
        assert(enc_u64s(sp) =~= enc_u64s(s) + le64(x));
    } else {
        lemma_enc_u64s_push(s.drop_first(), x);
        assert(sp.drop_first() =~= s.drop_first().push(x));
        assert(enc_u64s(sp) =~= enc_u64s(s) + le64(x));
    }
}

proof fn lemma_enc_xattrs_push(s: Seq<XAttrV>, x: XAttrV)
    ensures
        enc_xattrs(s.push(x)) == enc_xattrs(s) + enc_xattr(x),
    decreases s.len(),
{
    let sp = s.push(x);
    assert(sp[0] == if s.len() == 0 {
        x
    } else {
        s[0]
    });
    if s.len() == 0 {
        assert(sp.drop_first() =~= Seq::<XAttrV>::empty());
        assert(enc_xattrs(sp.drop_first()) =~= Seq::<u8>::empty());
        assert(enc_xattrs(s) =~= Seq::<u8>::empty());
        assert(enc_xattrs(sp) =~= enc_xattrs(s) + enc_xattr(x));
    } else {
        lemma_enc_xattrs_push(s.drop_first(), x);
        assert(sp.drop_first() =~= s.drop_first().push(x));
        assert(enc_xattrs(sp) =~= enc_xattrs(s) + enc_xattr(x));
    }
}

proof fn lemma_enc_chunks_push(s: Seq<ChunkV>, x: ChunkV)
    ensures
        enc_chunks(s.push(x)) == enc_chunks(s) + enc_chunk(x),
    decreases s.len(),
{
    let sp = s.push(x);
    assert(sp[0] == if s.len() == 0 {
        x
    } else {
        s[0]
    });
    if s.len() == 0 {
        assert(sp.drop_first() =~= Seq::<ChunkV>::empty());
        assert(enc_chunks(sp.drop_first()) =~= Seq::<u8>::empty());
        assert(enc_chunks(s) =~= Seq::<u8>::empty());
        assert(enc_chunks(sp) =~= enc_chunks(s) + enc_chunk(x));
    } else {
        lemma_enc_chunks_push(s.drop_first(), x);
        assert(sp.drop_first() =~= s.drop_first().push(x));
        assert(enc_chunks(sp) =~= enc_chunks(s) + enc_chunk(x));
    }
}

proof fn lemma_enc_records_push(s: Seq<InodeRecordV>, x: InodeRecordV)
    ensures
        enc_records(s.push(x)) == enc_records(s) + enc_record(x),
    decreases s.len(),
{
    let sp = s.push(x);
    assert(sp[0] == if s.len() == 0 {
        x
    } else {
        s[0]
    });
    if s.len() == 0 {
        assert(sp.drop_first() =~= Seq::<InodeRecordV>::empty());
        assert(enc_records(sp.drop_first()) =~= Seq::<u8>::empty());
        assert(enc_records(s) =~= Seq::<u8>::empty());
        assert(enc_records(sp) =~= enc_records(s) + enc_record(x));
    } else {
        lemma_enc_records_push(s.drop_first(), x);
        assert(sp.drop_first() =~= s.drop_first().push(x));
        assert(enc_records(sp) =~= enc_records(s) + enc_record(x));
    }
}

proof fn lemma_enc_blobs_push(s: Seq<BlobEntryV>, x: BlobEntryV)
    ensures
        enc_blobs(s.push(x)) == enc_blobs(s) + enc_blob(x),
    decreases s.len(),
{
    let sp = s.push(x);
    assert(sp[0] == if s.len() == 0 {
        x
    } else {
        s[0]
    });
    if s.len() == 0 {
        assert(sp.drop_first() =~= Seq::<BlobEntryV>::empty());
        assert(enc_blobs(sp.drop_first()) =~= Seq::<u8>::empty());
        assert(enc_blobs(s) =~= Seq::<u8>::empty());
        assert(enc_blobs(sp) =~= enc_blobs(s) + enc_blob(x));
    } else {
        lemma_enc_blobs_push(s.drop_first(), x);
        assert(sp.drop_first() =~= s.drop_first().push(x));
        assert(enc_blobs(sp) =~= enc_blobs(s) + enc_blob(x));
    }
}

/// Append the eight little-endian bytes of `x`.
fn put_u64(w: &mut Vec<u8>, x: u64)
    ensures
        final(w)@ == old(w)@ + le64(x),
{
    let ghost w0 = w@;
    w.push(#[verifier::truncate] ((x >> 0) as u8));
    w.push(#[verifier::truncate] ((x >> 8) as u8));
    w.push(#[verifier::truncate] ((x >> 16) as u8));
    w.push(#[verifier::truncate] ((x >> 24) as u8));
    w.push(#[verifier::truncate] ((x >> 32) as u8));
    w.push(#[verifier::truncate] ((x >> 40) as u8));
    w.push(#[verifier::truncate] ((x >> 48) as u8));
    w.push(#[verifier::truncate] ((x >> 56) as u8));
    proof {
        assert(w@ =~= w0 + le64(x));
    }
}

/// Append a length-prefixed byte string.
fn put_bytes(w: &mut Vec<u8>, b: &[u8])
    ensures
        final(w)@ == old(w)@ + enc_bytes(b@),
{
    let ghost w0 = w@;
    put_u64(w, b.len() as u64);
    let n = b.len();
    let mut i: usize = 0;
    while i < n
        invariant
            i <= n,
            n == b@.len(),
            w@ == w0 + le64(n as u64) + b@.take(i as int),
        decreases n - i,
    {
        w.push(b[i]);
        assert(w@ =~= w0 + le64(n as u64) + b@.take(i + 1));
        i = i + 1;
    }
    proof {
        assert(b@.take(n as int) =~= b@);
        assert(w@ =~= w0 + enc_bytes(b@));
    }
}

/// Append an optional length-prefixed byte string behind a presence marker.
fn put_opt_bytes(w: &mut Vec<u8>, b: &Option<Vec<u8>>)
    ensures
        final(w)@ == old(w)@ + enc_opt_bytes(b.deep_view()),
{
    let ghost w0 = w@;
    match b {
        Some(bytes) => {
            put_u64(w, 1);
            put_bytes(w, bytes.as_slice());
            proof {
                assert(bytes.deep_view() =~= bytes@);
                assert(w@ =~= w0 + enc_opt_bytes(b.deep_view()));
            }
        },
        None => {
            put_u64(w, 0);
            proof {
                assert(w@ =~= w0 + enc_opt_bytes(b.deep_view()));
            }
        },
    }
}

/// Append a chunk descriptor.
fn put_chunk(w: &mut Vec<u8>, c: &ChunkWrapper)
    ensures
        final(w)@ == old(w)@ + enc_chunk(c@),
{
    let ghost w0 = w@;
    put_bytes(w, c.digest.as_slice());
    let ghost base = w@;
    let ghost scalars = chunk_scalars(c@);
    put_u64(w, c.blob_index as u64);
    put_u64(w, c.chunk_index as u64);
    put_u64(w, c.compressed_offset);
    put_u64(w, c.compressed_size as u64);
    put_u64(w, c.uncompressed_offset);
    put_u64(w, c.uncompressed_size as u64);
    put_u64(w, c.file_offset);
    put_u64(w, c.flags as u64);
    proof {
        lemma_enc_u64s_push(scalars.take(0), scalars[0]);
        lemma_enc_u64s_push(scalars.take(1), scalars[1]);
        lemma_enc_u64s_push(scalars.take(2), scalars[2]);
        lemma_enc_u64s_push(scalars.take(3), scalars[3]);
        lemma_enc_u64s_push(scalars.take(4), scalars[4]);
        lemma_enc_u64s_push(scalars.take(5), scalars[5]);
        lemma_enc_u64s_push(scalars.take(6), scalars[6]);
        lemma_enc_u64s_push(scalars.take(7), scalars[7]);
        assert(scalars.take(0).push(scalars[0]) =~= scalars.take(1));
        assert(scalars.take(1).push(scalars[1]) =~= scalars.take(2));
        assert(scalars.take(2).push(scalars[2]) =~= scalars.take(3));
        assert(scalars.take(3).push(scalars[3]) =~= scalars.take(4));
        assert(scalars.take(4).push(scalars[4]) =~= scalars.take(5));
        assert(scalars.take(5).push(scalars[5]) =~= scalars.take(6));
        assert(scalars.take(6).push(scalars[6]) =~= scalars.take(7));
        assert(scalars.take(7).push(scalars[7]) =~= scalars);
        assert(enc_u64s(scalars.take(0)) =~= Seq::<u8>::empty());
        assert(w@ =~= base + enc_u64s(scalars));
        assert(w@ =~= w0 + enc_chunk(c@));
    }
}

/// Append a stored inode.
#[verifier::rlimit(100)]
fn put_record(w: &mut Vec<u8>, r: &InodeRecord)
    ensures
        final(w)@ == old(w)@ + enc_record(r@),
{
    let ghost w0 = w@;
    let ghost scalars = record_scalars(r@);
    put_u64(w, r.ino);
    put_u64(w, r.parent);
    put_u64(w, r.mode as u64);
    put_u64(w, r.uid as u64);
    put_u64(w, r.gid as u64);
    put_u64(w, r.mtime);
    put_u64(w, r.nlink as u64);
    put_u64(w, r.size);
    put_u64(w, r.rdev);
    proof {
        lemma_enc_u64s_push(scalars.take(0), scalars[0]);
        lemma_enc_u64s_push(scalars.take(1), scalars[1]);
        lemma_enc_u64s_push(scalars.take(2), scalars[2]);
        lemma_enc_u64s_push(scalars.take(3), scalars[3]);
        lemma_enc_u64s_push(scalars.take(4), scalars[4]);
        lemma_enc_u64s_push(scalars.take(5), scalars[5]);
        lemma_enc_u64s_push(scalars.take(6), scalars[6]);
        lemma_enc_u64s_push(scalars.take(7), scalars[7]);
        lemma_enc_u64s_push(scalars.take(8), scalars[8]);
        assert(scalars.take(0).push(scalars[0]) =~= scalars.take(1));
        assert(scalars.take(1).push(scalars[1]) =~= scalars.take(2));
        assert(scalars.take(2).push(scalars[2]) =~= scalars.take(3));
        assert(scalars.take(3).push(scalars[3]) =~= scalars.take(4));
        assert(scalars.take(4).push(scalars[4]) =~= scalars.take(5));
        assert(scalars.take(5).push(scalars[5]) =~= scalars.take(6));
        assert(scalars.take(6).push(scalars[6]) =~= scalars.take(7));
        assert(scalars.take(7).push(scalars[7]) =~= scalars.take(8));
        assert(scalars.take(8).push(scalars[8]) =~= scalars);
        assert(enc_u64s(scalars.take(0)) =~= Seq::<u8>::empty());
        assert(w@ =~= w0 + enc_u64s(scalars));
    }
    put_bytes(w, r.name.as_slice());
    put_opt_bytes(w, &r.symlink);
    put_u64(w, r.xattrs.len() as u64);
    let ghost base_x = w@;
    let nx = r.xattrs.len();
    let mut i: usize = 0;
    proof {
        assert(enc_xattrs(r@.xattrs.take(0)) =~= Seq::<u8>::empty());
        assert(base_x + enc_xattrs(r@.xattrs.take(0)) =~= base_x);
    }
    while i < nx
        invariant
            i <= nx,
            nx == r.xattrs@.len(),
            r@.xattrs.len() == nx,
            w@ == base_x + enc_xattrs(r@.xattrs.take(i as int)),
        decreases nx - i,
    {
        let ghost pre = w@;
        let x = &r.xattrs[i];
        proof {
            assert(r@.xattrs[i as int] == r.xattrs@[i as int]@);
        }
        put_bytes(w, x.name.as_slice());
        put_bytes(w, x.value.as_slice());
        proof {
            assert(w@ =~= pre + enc_xattr(r@.xattrs[i as int]));
            lemma_enc_xattrs_push(r@.xattrs.take(i as int), r@.xattrs[i as int]);
            assert(r@.xattrs.take(i as int).push(r@.xattrs[i as int]) =~= r@.xattrs.take(i + 1));
            assert(w@ =~= base_x + enc_xattrs(r@.xattrs.take(i + 1)));
        }
        i = i + 1;
    }
    proof {
        assert(r@.xattrs.take(nx as int) =~= r@.xattrs);
    }
    put_u64(w, r.children.len() as u64);
    let ghost base_c = w@;
    let nc = r.children.len();
    let mut j: usize = 0;
    proof {
        assert(enc_u64s(r@.children.take(0)) =~= Seq::<u8>::empty());
        assert(base_c + enc_u64s(r@.children.take(0)) =~= base_c);
    }
    while j < nc
        invariant
            j <= nc,
            nc == r.children@.len(),
            r@.children == r.children@,
            w@ == base_c + enc_u64s(r@.children.take(j as int)),
        decreases nc - j,
    {
        let ghost pre = w@;
        put_u64(w, r.children[j]);
        proof {
            lemma_enc_u64s_push(r@.children.take(j as int), r@.children[j as int]);
            assert(r@.children.take(j as int).push(r@.children[j as int]) =~= r@.children.take(
                j + 1,
            ));
            assert(w@ =~= base_c + enc_u64s(r@.children.take(j + 1)));
        }
        j = j + 1;
    }
    proof {
        assert(r@.children.take(nc as int) =~= r@.children);
    }
    put_u64(w, r.chunks.len() as u64);
    let ghost base_k = w@;
    let nk = r.chunks.len();
    let mut k: usize = 0;
    proof {
        assert(enc_chunks(r@.chunks.take(0)) =~= Seq::<u8>::empty());
        assert(base_k + enc_chunks(r@.chunks.take(0)) =~= base_k);
    }
    while k < nk
        invariant
            k <= nk,
            nk == r.chunks@.len(),
            r@.chunks.len() == nk,
            w@ == base_k + enc_chunks(r@.chunks.take(k as int)),
        decreases nk - k,
    {
        let ghost pre = w@;
        proof {
            assert(r@.chunks[k as int] == r.chunks@[k as int]@);
        }
        put_chunk(w, &r.chunks[k]);
        proof {
            lemma_enc_chunks_push(r@.chunks.take(k as int), r@.chunks[k as int]);
            assert(r@.chunks.take(k as int).push(r@.chunks[k as int]) =~= r@.chunks.take(k + 1));
            assert(w@ =~= base_k + enc_chunks(r@.chunks.take(k + 1)));
        }
        k = k + 1;
    }
    proof {
        assert(r@.chunks.take(nk as int) =~= r@.chunks);
        assert(w@ =~= w0 + enc_record(r@));
    }
}

/// Append a blob-table entry.
fn put_blob(w: &mut Vec<u8>, b: &BlobEntry)
    ensures
        final(w)@ == old(w)@ + enc_blob(b@),
{
    let ghost w0 = w@;
    put_bytes(w, b.blob_id.as_slice());
    let ghost base = w@;
    let ghost scalars = seq![
        b@.blob_index as u64,
        b@.chunk_count as u64,
        b@.compressed_total,
        b@.uncompressed_total,
    ];
    put_u64(w, b.blob_index as u64);
    put_u64(w, b.chunk_count as u64);
    put_u64(w, b.compressed_total);
    put_u64(w, b.uncompressed_total);
    proof {
        lemma_enc_u64s_push(scalars.take(0), scalars[0]);
        lemma_enc_u64s_push(scalars.take(1), scalars[1]);
        lemma_enc_u64s_push(scalars.take(2), scalars[2]);
        lemma_enc_u64s_push(scalars.take(3), scalars[3]);
        assert(scalars.take(0).push(scalars[0]) =~= scalars.take(1));
        assert(scalars.take(1).push(scalars[1]) =~= scalars.take(2));
        assert(scalars.take(2).push(scalars[2]) =~= scalars.take(3));
        assert(scalars.take(3).push(scalars[3]) =~= scalars);
        assert(enc_u64s(scalars.take(0)) =~= Seq::<u8>::empty());
        assert(w@ =~= base + enc_u64s(scalars));
        assert(w@ =~= w0 + enc_blob(b@));
    }
}



/// Zero bytes needed after `n` written bytes to reach the next 4 KiB
/// boundary.
pub open spec fn pad_to_4k(n: int) -> int {
    (4096 - n % 4096) % 4096
}

/// Write a bootstrap to a seekable sink, padding the end to the 4 KiB
/// boundary all on-disk structures keep: the sink gains exactly the encoded
/// bytes and the padding, and the bytes written are a whole number of 4 KiB
/// blocks.
#[verifier::loop_isolation(false)]
pub fn save_bootstrap<W: RafsIoWrite>(m: &RafsSuper, w: &mut W) -> (r: RafsResult<()>)
    requires
        old(w).wf(),
        old(w).pos() == old(w).data().len(),
        old(w).data().len() + enc_bootstrap(m@).len() + 4096 <= usize::MAX,
    ensures
        final(w).wf(),
        r is Ok,
        final(w).data() == old(w).data() + enc_bootstrap(m@) + zeroes(
            pad_to_4k(enc_bootstrap(m@).len() as int),
        ),
        final(w).pos() == final(w).data().len(),
        (final(w).data().len() - old(w).data().len()) % 4096 == 0,
{
    let bytes = encode_bootstrap(m);
    let n = bytes.len();
    let r1 = w.write_all(bytes.as_slice());
    proof {
        assert(w.data() =~= old(w).data() + bytes@);
    }
    let pad = (4096 - n % 4096) % 4096;
    let mut zs: Vec<u8> = Vec::new();
    while zs.len() < pad
        invariant
            zs@ == zeroes(zs@.len() as int),
            zs@.len() <= pad,
        decreases pad - zs@.len(),
    {
        zs.push(0u8);
        assert(zs@ =~= zeroes(zs@.len() as int));
    }
    proof {
        assert(zs@ =~= zeroes(pad as int));
    }
    let r2 = w.write_all(zs.as_slice());
    proof {
        assert(w.data() =~= old(w).data() + enc_bootstrap(m@) + zeroes(
            pad_to_4k(enc_bootstrap(m@).len() as int),
        ));
        assert((n + pad) % 4096 == 0) by {
            assert(pad == pad_to_4k(n as int));
        }
    }
    Ok(())
}

/// Image-wide metadata of a parsed or freshly built bootstrap.  The three
/// hints repeat the table sizes the superblock recorded.
#[derive(Clone, Copy)]
pub struct RafsSuperMeta {
    pub version: RafsVersion,
    pub compressor: Compressor,
    pub digester: Digester,
    pub explicit_uidgid: bool,
    pub chunk_size: u32,
    pub inodes_hint: u64,
    pub blobs_hint: u64,
    pub prefetch_hint: u64,
}

/// A bootstrap held in memory: the superblock metadata, the dense inode
/// table (inode `i` lives at index `i - 1`), the blob table and the prefetch
/// table.
pub struct RafsSuper {
    pub meta: RafsSuperMeta,
    pub inodes: Vec<InodeRecord>,
    pub blobs: Vec<BlobEntry>,
    pub prefetch: Vec<u64>,
}

impl View for RafsSuper {
    type V = SuperV;

    open spec fn view(&self) -> SuperV {
        SuperV {
            version: self.meta.version,
            compressor: self.meta.compressor,
            digester: self.meta.digester,
            explicit_uidgid: self.meta.explicit_uidgid,
            chunk_size: self.meta.chunk_size,
            inodes: self.inodes.deep_view(),
            blobs: self.blobs.deep_view(),
            prefetch: self.prefetch@,
        }
    }
}

/// Serialize a bootstrap into its on-disk bytes, in the layout its version
/// selects.
#[verifier::rlimit(100)]
pub fn encode_bootstrap(m: &RafsSuper) -> (r: Vec<u8>)
    ensures
        r@ == enc_bootstrap(m@),
{
    let mut w: Vec<u8> = Vec::new();
    // Superblock.
    let flags: u64 = (match m.meta.compressor {
        Compressor::Plain => 0u64,
        Compressor::Lz4Block => 1u64,
        Compressor::Gzip => 2u64,
    }) + 4 * (match m.meta.digester {
        Digester::Blake3 => 0u64,
        Digester::Sha256 => 1u64,
    }) + (if m.meta.explicit_uidgid {
        8u64
    } else {
        0u64
    });
    proof {
        assert(flags == flags_of(m@));
    }
    let mut cov: Vec<u8> = Vec::new();
    let ghost cf = covered_fields(m@);
    put_u64(&mut cov, RAFS_SUPER_MAGIC);
    put_u64(&mut cov, match m.meta.version {
        RafsVersion::V5 => 5u64,
        RafsVersion::V6 => 6u64,
    });
    put_u64(&mut cov, flags);
    put_u64(&mut cov, m.meta.chunk_size as u64);
    put_u64(&mut cov, m.inodes.len() as u64);
    put_u64(&mut cov, m.blobs.len() as u64);
    put_u64(&mut cov, m.prefetch.len() as u64);
    proof {
        lemma_enc_u64s_push(cf.take(0), cf[0]);
        lemma_enc_u64s_push(cf.take(1), cf[1]);
        lemma_enc_u64s_push(cf.take(2), cf[2]);
        lemma_enc_u64s_push(cf.take(3), cf[3]);
        lemma_enc_u64s_push(cf.take(4), cf[4]);
        lemma_enc_u64s_push(cf.take(5), cf[5]);
        lemma_enc_u64s_push(cf.take(6), cf[6]);
        assert(cf.take(0).push(cf[0]) =~= cf.take(1));
        assert(cf.take(1).push(cf[1]) =~= cf.take(2));
        assert(cf.take(2).push(cf[2]) =~= cf.take(3));
        assert(cf.take(3).push(cf[3]) =~= cf.take(4));
        assert(cf.take(4).push(cf[4]) =~= cf.take(5));
        assert(cf.take(5).push(cf[5]) =~= cf.take(6));
        assert(cf.take(6).push(cf[6]) =~= cf);
        assert(enc_u64s(cf.take(0)) =~= Seq::<u8>::empty());
        assert(Seq::<u8>::empty() + enc_u64s(cf.take(1)) =~= enc_u64s(cf.take(1)));
        assert(cov@ =~= covered(m@));
    }
    let ck = checksum(cov.as_slice());
    match m.meta.version {
        RafsVersion::V5 => {
            let mut k: usize = 0;
            while k < cov.len()
                invariant
                    k <= cov@.len(),
                    cov@ == covered(m@),
                    w@ == cov@.take(k as int),
                decreases cov@.len() - k,
            {
                w.push(cov[k]);
                assert(w@ =~= cov@.take(k + 1));
                k = k + 1;
            }
            proof {
                assert(cov@.take(cov@.len() as int) =~= cov@);
            }
            put_u64(&mut w, ck);
            proof {
                let f8 = seq![
                    RAFS_SUPER_MAGIC,
                    5u64,
                    flags_of(m@),
                    m@.chunk_size as u64,
                    m@.inodes.len() as u64,
                    m@.blobs.len() as u64,
                    m@.prefetch.len() as u64,
                    cks(covered(m@)),
                ];
                assert(f8.drop_last() =~= covered_fields(m@));
                lemma_enc_u64s_push(f8.drop_last(), cks(covered(m@)));
                assert(f8.drop_last().push(cks(covered(m@))) =~= f8);
                assert(w@ =~= enc_super(m@));
            }
        },
        RafsVersion::V6 => {
            let mut k: usize = 0;
            while k < 1024
                invariant
                    k <= 1024,
                    w@ == pad_zeroes(k as int),
                decreases 1024 - k,
            {
                w.push(0u8);
                assert(w@ =~= pad_zeroes(k + 1));
                k = k + 1;
            }
            let ghost f8 = seq![
                RAFS_SUPER_MAGIC,
                6u64,
                cks(covered(m@)),
                flags_of(m@),
                m@.chunk_size as u64,
                m@.inodes.len() as u64,
                m@.blobs.len() as u64,
                m@.prefetch.len() as u64,
            ];
            let ghost base = w@;
            put_u64(&mut w, RAFS_SUPER_MAGIC);
            put_u64(&mut w, 6u64);
            put_u64(&mut w, ck);
            put_u64(&mut w, flags);
            put_u64(&mut w, m.meta.chunk_size as u64);
            put_u64(&mut w, m.inodes.len() as u64);
            put_u64(&mut w, m.blobs.len() as u64);
            put_u64(&mut w, m.prefetch.len() as u64);
            proof {
                lemma_enc_u64s_push(f8.take(0), f8[0]);
                lemma_enc_u64s_push(f8.take(1), f8[1]);
                lemma_enc_u64s_push(f8.take(2), f8[2]);
                lemma_enc_u64s_push(f8.take(3), f8[3]);
                lemma_enc_u64s_push(f8.take(4), f8[4]);
                lemma_enc_u64s_push(f8.take(5), f8[5]);
                lemma_enc_u64s_push(f8.take(6), f8[6]);
                lemma_enc_u64s_push(f8.take(7), f8[7]);
                assert(f8.take(0).push(f8[0]) =~= f8.take(1));
                assert(f8.take(1).push(f8[1]) =~= f8.take(2));
                assert(f8.take(2).push(f8[2]) =~= f8.take(3));
                assert(f8.take(3).push(f8[3]) =~= f8.take(4));
                assert(f8.take(4).push(f8[4]) =~= f8.take(5));
                assert(f8.take(5).push(f8[5]) =~= f8.take(6));
                assert(f8.take(6).push(f8[6]) =~= f8.take(7));
                assert(f8.take(7).push(f8[7]) =~= f8);
                assert(enc_u64s(f8.take(0)) =~= Seq::<u8>::empty());
                assert(base + enc_u64s(f8.take(0)) =~= base);
                assert(w@ =~= base + enc_u64s(f8));
                assert(w@ =~= enc_super(m@));
            }
        },
    }
    let ghost after_super = w@;
    // Blob table.
    let nb = m.blobs.len();
    let mut i: usize = 0;
    proof {
        assert(enc_blobs(m@.blobs.take(0)) =~= Seq::<u8>::empty());
        assert(after_super + enc_blobs(m@.blobs.take(0)) =~= after_super);
    }
    while i < nb
        invariant
            i <= nb,
            nb == m.blobs@.len(),
            m@.blobs.len() == nb,
            m@ == m.view(),
            w@ == after_super + enc_blobs(m@.blobs.take(i as int)),
        decreases nb - i,
    {
        let ghost pre = w@;
        proof {
            assert(m@.blobs[i as int] == m.blobs@[i as int]@);
        }
        put_blob(&mut w, &m.blobs[i]);
        proof {
            lemma_enc_blobs_push(m@.blobs.take(i as int), m@.blobs[i as int]);
            assert(m@.blobs.take(i as int).push(m@.blobs[i as int]) =~= m@.blobs.take(i + 1));
            assert(w@ =~= after_super + enc_blobs(m@.blobs.take(i + 1)));
        }
        i = i + 1;
    }
    proof {
        assert(m@.blobs.take(nb as int) =~= m@.blobs);
    }
    let ghost after_blobs = w@;
    // Prefetch table.
    let np = m.prefetch.len();
    let mut j: usize = 0;
    proof {
        assert(enc_u64s(m@.prefetch.take(0)) =~= Seq::<u8>::empty());
        assert(after_blobs + enc_u64s(m@.prefetch.take(0)) =~= after_blobs);
    }
    while j < np
        invariant
            j <= np,
            np == m.prefetch@.len(),
            m@.prefetch == m.prefetch@,
            w@ == after_blobs + enc_u64s(m@.prefetch.take(j as int)),
        decreases np - j,
    {
        put_u64(&mut w, m.prefetch[j]);
        proof {
            lemma_enc_u64s_push(m@.prefetch.take(j as int), m@.prefetch[j as int]);
            assert(m@.prefetch.take(j as int).push(m@.prefetch[j as int]) =~= m@.prefetch.take(
                j + 1,
            ));
            assert(w@ =~= after_blobs + enc_u64s(m@.prefetch.take(j + 1)));
        }
        j = j + 1;
    }
    proof {
        assert(m@.prefetch.take(np as int) =~= m@.prefetch);
    }
    let ghost after_prefetch = w@;
    // Inode records.
    let ni = m.inodes.len();
    let mut k2: usize = 0;
    proof {
        assert(enc_records(m@.inodes.take(0)) =~= Seq::<u8>::empty());
        assert(after_prefetch + enc_records(m@.inodes.take(0)) =~= after_prefetch);
    }
    while k2 < ni
        invariant
            k2 <= ni,
            ni == m.inodes@.len(),
            m@.inodes.len() == ni,
            m@ == m.view(),
            w@ == after_prefetch + enc_records(m@.inodes.take(k2 as int)),
        decreases ni - k2,
    {
        proof {
            assert(m@.inodes[k2 as int] == m.inodes@[k2 as int]@);
        }
        put_record(&mut w, &m.inodes[k2]);
        proof {
            lemma_enc_records_push(m@.inodes.take(k2 as int), m@.inodes[k2 as int]);
            assert(m@.inodes.take(k2 as int).push(m@.inodes[k2 as int]) =~= m@.inodes.take(
                k2 + 1,
            ));
            assert(w@ =~= after_prefetch + enc_records(m@.inodes.take(k2 + 1)));
        }
        k2 = k2 + 1;
    }
    proof {
        assert(m@.inodes.take(ni as int) =~= m@.inodes);
        assert(w@ =~= enc_bootstrap(m@));
    }
    w
}


/// Read a 64-bit little-endian value at `*p`.
fn rd_u64(s: &[u8], p: &mut usize) -> (r: Option<u64>)
    requires
        *old(p) <= s@.len(),
    ensures
        match sp_u64(s@.skip(*old(p) as int)) {
            Some(pr) => {
                &&& r == Some(pr.0)
                &&& *final(p) == *old(p) + 8
                &&& *final(p) <= s@.len()
                &&& s@.skip(*final(p) as int) == pr.1
            },
            None => r is None,
        },
{
    let n = s.len();
    if n - *p >= 8 {
        let q = *p;
        let x: u64 = (s[q] as u64) | (s[q + 1] as u64) << 8 | (s[q + 2] as u64) << 16 | (s[q
            + 3] as u64) << 24 | (s[q + 4] as u64) << 32 | (s[q + 5] as u64) << 40 | (s[q
            + 6] as u64) << 48 | (s[q + 7] as u64) << 56;
        *p = q + 8;
        proof {
            let rem = s@.skip(q as int);
            assert(rem.take(8)[0] == s@[q as int]);
            assert(rem.take(8) =~= s@.subrange(q as int, q as int + 8));
            assert(x == dec64(rem.take(8)));
            assert(rem.skip(8) =~= s@.skip(q as int + 8));
        }
        Some(x)
    } else {
        proof {
            assert(s@.skip(*old(p) as int).len() < 8);
        }
        None
    }
}

/// Read `n` 64-bit values at `*p`.
#[verifier::loop_isolation(false)]
fn rd_u64s(s: &[u8], p: &mut usize, n: u64) -> (r: Option<Vec<u64>>)
    requires
        *old(p) <= s@.len(),
    ensures
        match sp_u64s(s@.skip(*old(p) as int), n as int) {
            Some(pr) => {
                &&& r matches Some(v) && v@ == pr.0 && v@.len() == n
                &&& *final(p) <= s@.len()
                &&& s@.skip(*final(p) as int) == pr.1
            },
            None => r is None,
        },
{
    let ghost rem0 = s@.skip(*old(p) as int);
    let mut acc: Vec<u64> = Vec::new();
    let mut i: u64 = 0;
    proof {
        match sp_u64s(rem0, n as int) {
            Some(pr) => {
                assert(acc@ + pr.0 =~= pr.0);
            },
            None => {},
        }
    }
    while i < n
        invariant
            i <= n,
            *p <= s@.len(),
            acc@.len() == i,
            match sp_u64s(s@.skip(*p as int), (n - i) as int) {
                Some(pr) => sp_u64s(rem0, n as int) == Some((acc@ + pr.0, pr.1)),
                None => sp_u64s(rem0, n as int) is None,
            },
        decreases n - i,
    {
        let ghost rem = s@.skip(*p as int);
        match rd_u64(s, p) {
            Some(x) => {
                acc.push(x);
                proof {
                    let pr = sp_u64(rem)->Some_0;
                    match sp_u64s(s@.skip(*p as int), (n - i - 1) as int) {
                        Some(pr2) => {
                            assert(acc@.drop_last() + (seq![x] + pr2.0) =~= acc@ + pr2.0);
                        },
                        None => {},
                    }
                }
            },
            None => {
                proof {
                    assert(sp_u64s(rem, (n - i) as int) is None);
                }
                return None;
            },
        }
        i = i + 1;
    }
    proof {
        assert(sp_u64s(s@.skip(*p as int), 0) == Some(
            (Seq::<u64>::empty(), s@.skip(*p as int)),
        ));
        assert(acc@ + Seq::<u64>::empty() =~= acc@);
        assert(sp_u64s(rem0, n as int) == Some((acc@, s@.skip(*p as int))));
    }
    Some(acc)
}

/// Read a length-prefixed byte string at `*p`.
#[verifier::loop_isolation(false)]
fn rd_bytes(s: &[u8], p: &mut usize) -> (r: Option<Vec<u8>>)
    requires
        *old(p) <= s@.len(),
    ensures
        match sp_bytes(s@.skip(*old(p) as int)) {
            Some(pr) => {
                &&& r matches Some(v) && v@ == pr.0
                &&& *final(p) <= s@.len()
                &&& s@.skip(*final(p) as int) == pr.1
            },
            None => r is None,
        },
{
    let ghost rem0 = s@.skip(*old(p) as int);
    let n = match rd_u64(s, p) {
        Some(x) => x,
        None => {
            return None;
        },
    };
    proof {
        assert(*p <= s@.len());
    }
    let remaining = s.len() - *p;
    if n > remaining as u64 {
        return None;
    }
    let count = n as usize;
    let q0 = *p;
    let mut v: Vec<u8> = Vec::new();
    let mut i: usize = 0;
    while i < count
        invariant
            i <= count,
            q0 + count <= s@.len(),
            v@ == s@.subrange(q0 as int, q0 as int + i as int),
        decreases count - i,
    {
        v.push(s[q0 + i]);
        assert(v@ =~= s@.subrange(q0 as int, q0 as int + i + 1));
        i = i + 1;
    }
    *p = q0 + count;
    proof {
        let pr = sp_u64(rem0)->Some_0;
        assert(pr.1.take(n as int) =~= s@.subrange(q0 as int, q0 as int + count as int));
        assert(pr.1.skip(n as int) =~= s@.skip(*p as int));
    }
    Some(v)
}

/// Read an optional byte string at `*p`.
fn rd_opt_bytes(s: &[u8], p: &mut usize) -> (r: Option<Option<Vec<u8>>>)
    requires
        *old(p) <= s@.len(),
    ensures
        match sp_opt_bytes(s@.skip(*old(p) as int)) {
            Some(pr) => {
                &&& r matches Some(v) && v.deep_view() == pr.0
                &&& *final(p) <= s@.len()
                &&& s@.skip(*final(p) as int) == pr.1
            },
            None => r is None,
        },
{
    let tag = match rd_u64(s, p) {
        Some(x) => x,
        None => {
            return None;
        },
    };
    if tag == 0 {
        Some(None)
    } else if tag == 1 {
        match rd_bytes(s, p) {
            Some(b) => {
                proof {
                    assert(Some(b).deep_view() == Some(b@));
                }
                Some(Some(b))
            },
            None => None,
        }
    } else {
        None
    }
}

/// Read a chunk descriptor at `*p`.
fn rd_chunk(s: &[u8], p: &mut usize) -> (r: Option<ChunkWrapper>)
    requires
        *old(p) <= s@.len(),
    ensures
        match sp_chunk(s@.skip(*old(p) as int)) {
            Some(pr) => {
                &&& r matches Some(c) && c@ == pr.0
                &&& *final(p) <= s@.len()
                &&& s@.skip(*final(p) as int) == pr.1
            },
            None => r is None,
        },
{
    let digest = match rd_bytes(s, p) {
        Some(b) => b,
        None => {
            return None;
        },
    };
    let xs = match rd_u64s(s, p, 8) {
        Some(v) => v,
        None => {
            return None;
        },
    };
    if !(xs[0] <= u32::MAX as u64 && xs[1] <= u32::MAX as u64 && xs[3] <= u32::MAX as u64 && xs[5]
        <= u32::MAX as u64 && xs[7] <= u32::MAX as u64) {
        return None;
    }
    Some(
        ChunkWrapper {
            digest,
            blob_index: xs[0] as u32,
            chunk_index: xs[1] as u32,
            compressed_offset: xs[2],
            compressed_size: xs[3] as u32,
            uncompressed_offset: xs[4],
            uncompressed_size: xs[5] as u32,
            file_offset: xs[6],
            flags: xs[7] as u32,
        },
    )
}

/// Read a blob-table entry at `*p`.
fn rd_blob(s: &[u8], p: &mut usize) -> (r: Option<BlobEntry>)
    requires
        *old(p) <= s@.len(),
    ensures
        match sp_blob(s@.skip(*old(p) as int)) {
            Some(pr) => {
                &&& r matches Some(b) && b@ == pr.0
                &&& *final(p) <= s@.len()
                &&& s@.skip(*final(p) as int) == pr.1
            },
            None => r is None,
        },
{
    let blob_id = match rd_bytes(s, p) {
        Some(b) => b,
        None => {
            return None;
        },
    };
    let xs = match rd_u64s(s, p, 4) {
        Some(v) => v,
        None => {
            return None;
        },
    };
    if !(xs[0] <= u32::MAX as u64 && xs[1] <= u32::MAX as u64) {
        return None;
    }
    Some(
        BlobEntry {
            blob_id,
            blob_index: xs[0] as u32,
            chunk_count: xs[1] as u32,
            compressed_total: xs[2],
            uncompressed_total: xs[3],
        },
    )
}

/// Read an extended attribute at `*p`.
fn rd_xattr(s: &[u8], p: &mut usize) -> (r: Option<XAttr>)
    requires
        *old(p) <= s@.len(),
    ensures
        match sp_xattr(s@.skip(*old(p) as int)) {
            Some(pr) => {
                &&& r matches Some(x) && x@ == pr.0
                &&& *final(p) <= s@.len()
                &&& s@.skip(*final(p) as int) == pr.1
            },
            None => r is None,
        },
{
    let name = match rd_bytes(s, p) {
        Some(b) => b,
        None => {
            return None;
        },
    };
    let value = match rd_bytes(s, p) {
        Some(b) => b,
        None => {
            return None;
        },
    };
    Some(XAttr { name, value })
}

/// Read a stored inode at `*p`.
#[verifier::rlimit(100)]
#[verifier::loop_isolation(false)]
fn rd_record(s: &[u8], p: &mut usize) -> (r: Option<InodeRecord>)
    requires
        *old(p) <= s@.len(),
    ensures
        match sp_record(s@.skip(*old(p) as int)) {
            Some(pr) => {
                &&& r matches Some(x) && x@ == pr.0
                &&& *final(p) <= s@.len()
                &&& s@.skip(*final(p) as int) == pr.1
            },
            None => r is None,
        },
{
    let xs = match rd_u64s(s, p, 9) {
        Some(v) => v,
        None => {
            return None;
        },
    };
    if !(xs[2] <= u32::MAX as u64 && xs[3] <= u32::MAX as u64 && xs[4] <= u32::MAX as u64 && xs[6]
        <= u32::MAX as u64) {
        return None;
    }
    let name = match rd_bytes(s, p) {
        Some(b) => b,
        None => {
            return None;
        },
    };
    let symlink = match rd_opt_bytes(s, p) {
        Some(o) => o,
        None => {
            return None;
        },
    };
    let nx = match rd_u64(s, p) {
        Some(x) => x,
        None => {
            return None;
        },
    };
    let ghost xrem0 = s@.skip(*p as int);
    let mut xattrs: Vec<XAttr> = Vec::new();
    let mut i: u64 = 0;
    while i < nx
        invariant
            i <= nx,
            *p <= s@.len(),
            xattrs@.len() == i,
            match sp_xattrs(s@.skip(*p as int), (nx - i) as int) {
                Some(pr) => sp_xattrs(xrem0, nx as int) == Some((xattrs.deep_view() + pr.0, pr.1)),
                None => sp_xattrs(xrem0, nx as int) is None,
            },
        decreases nx - i,
    {
        let ghost rem = s@.skip(*p as int);
        match rd_xattr(s, p) {
            Some(x) => {
                xattrs.push(x);
                proof {
                    match sp_xattrs(s@.skip(*p as int), (nx - i - 1) as int) {
                        Some(pr2) => {
                            assert(xattrs.deep_view() =~= xattrs.deep_view().drop_last().push(
                                x@,
                            ));
                            assert(xattrs.deep_view().drop_last() + (seq![x@] + pr2.0)
                                =~= xattrs.deep_view() + pr2.0);
                        },
                        None => {},
                    }
                }
            },
            None => {
                return None;
            },
        }
        i = i + 1;
    }
    proof {
        assert(sp_xattrs(s@.skip(*p as int), 0) == Some(
            (Seq::<XAttrV>::empty(), s@.skip(*p as int)),
        ));
        assert(xattrs.deep_view() + Seq::<XAttrV>::empty() =~= xattrs.deep_view());
    }
    let nc = match rd_u64(s, p) {
        Some(x) => x,
        None => {
            return None;
        },
    };
    let children = match rd_u64s(s, p, nc) {
        Some(v) => v,
        None => {
            return None;
        },
    };
    let nk = match rd_u64(s, p) {
        Some(x) => x,
        None => {
            return None;
        },
    };
    let ghost krem0 = s@.skip(*p as int);
    let mut chunks: Vec<ChunkWrapper> = Vec::new();
    let mut k: u64 = 0;
    while k < nk
        invariant
            k <= nk,
            *p <= s@.len(),
            chunks@.len() == k,
            match sp_chunks(s@.skip(*p as int), (nk - k) as int) {
                Some(pr) => sp_chunks(krem0, nk as int) == Some((chunks.deep_view() + pr.0, pr.1)),
                None => sp_chunks(krem0, nk as int) is None,
            },
        decreases nk - k,
    {
        match rd_chunk(s, p) {
            Some(c) => {
                chunks.push(c);
                proof {
                    match sp_chunks(s@.skip(*p as int), (nk - k - 1) as int) {
                        Some(pr2) => {
                            assert(chunks.deep_view() =~= chunks.deep_view().drop_last().push(
                                c@,
                            ));
                            assert(chunks.deep_view().drop_last() + (seq![c@] + pr2.0)
                                =~= chunks.deep_view() + pr2.0);
                        },
                        None => {},
                    }
                }
            },
            None => {
                return None;
            },
        }
        k = k + 1;
    }
    proof {
        assert(sp_chunks(s@.skip(*p as int), 0) == Some(
            (Seq::<ChunkV>::empty(), s@.skip(*p as int)),
        ));
        assert(chunks.deep_view() + Seq::<ChunkV>::empty() =~= chunks.deep_view());
    }
    let r = InodeRecord {
        ino: xs[0],
        parent: xs[1],
        name,
        mode: xs[2] as u32,
        uid: xs[3] as u32,
        gid: xs[4] as u32,
        mtime: xs[5],
        nlink: xs[6] as u32,
        size: xs[7],
        rdev: xs[8],
        symlink,
        xattrs,
        children,
        chunks,
    };
    proof {
        assert(r@ =~= sp_record(s@.skip(*old(p) as int))->Some_0.0);
    }
    Some(r)
}


/// Build the canonical covered-fields bytes for a checksum computation.
fn cov_bytes(ver: u64, flags: u64, chunk: u64, ni: u64, nb: u64, np: u64) -> (r: Vec<u8>)
    ensures
        r@ == enc_u64s(seq![RAFS_SUPER_MAGIC, ver, flags, chunk, ni, nb, np]),
{
    let mut w: Vec<u8> = Vec::new();
    let ghost cf = seq![RAFS_SUPER_MAGIC, ver, flags, chunk, ni, nb, np];
    put_u64(&mut w, RAFS_SUPER_MAGIC);
    put_u64(&mut w, ver);
    put_u64(&mut w, flags);
    put_u64(&mut w, chunk);
    put_u64(&mut w, ni);
    put_u64(&mut w, nb);
    put_u64(&mut w, np);
    proof {
        lemma_enc_u64s_push(cf.take(0), cf[0]);
        lemma_enc_u64s_push(cf.take(1), cf[1]);
        lemma_enc_u64s_push(cf.take(2), cf[2]);
        lemma_enc_u64s_push(cf.take(3), cf[3]);
        lemma_enc_u64s_push(cf.take(4), cf[4]);
        lemma_enc_u64s_push(cf.take(5), cf[5]);
        lemma_enc_u64s_push(cf.take(6), cf[6]);
        assert(cf.take(0).push(cf[0]) =~= cf.take(1));
        assert(cf.take(1).push(cf[1]) =~= cf.take(2));
        assert(cf.take(2).push(cf[2]) =~= cf.take(3));
        assert(cf.take(3).push(cf[3]) =~= cf.take(4));
        assert(cf.take(4).push(cf[4]) =~= cf.take(5));
        assert(cf.take(5).push(cf[5]) =~= cf.take(6));
        assert(cf.take(6).push(cf[6]) =~= cf);
        assert(enc_u64s(cf.take(0)) =~= Seq::<u8>::empty());
        assert(Seq::<u8>::empty() + enc_u64s(cf.take(1)) =~= enc_u64s(cf.take(1)));
        assert(w@ =~= enc_u64s(cf));
    }
    w
}

/// Decode superblock flags; unknown bits are refused.
fn decode_flags(f: u64) -> (r: Option<(Compressor, Digester, bool)>)
    ensures
        r == flags_decode(f),
{
    if f >= 16 || f % 4 == 3 {
        return None;
    }
    let c = if f % 4 == 0 {
        Compressor::Plain
    } else if f % 4 == 1 {
        Compressor::Lz4Block
    } else {
        Compressor::Gzip
    };
    let d = if (f / 4) % 2 == 0 {
        Digester::Blake3
    } else {
        Digester::Sha256
    };
    Some((c, d, f / 8 == 1))
}

/// Parse the superblock of a bootstrap, in either layout, checking magic,
/// version, flags and checksum.
#[verifier::rlimit(100)]
#[verifier::loop_isolation(false)]
fn rd_super(s: &[u8], p: &mut usize) -> (r: Option<RafsSuperMeta>)
    requires
        *old(p) == 0,
    ensures
        match sp_super(s@) {
            Some(pr) => {
                &&& r matches Some(meta)
                &&& meta.version == pr.0.version
                &&& meta.compressor == pr.0.compressor
                &&& meta.digester == pr.0.digester
                &&& meta.explicit_uidgid == pr.0.explicit_uidgid
                &&& meta.chunk_size == pr.0.chunk_size
                &&& *final(p) <= s@.len()
                &&& s@.skip(*final(p) as int) == pr.1
            },
            None => r is None,
        },
        r matches Some(meta) ==> match sp_super(s@) {
            Some(pr) => meta.inodes_hint == pr.0.inodes_count && meta.blobs_hint
                == pr.0.blobs_count && meta.prefetch_hint == pr.0.prefetch_count,
            None => false,
        },
{
    let m0 = match rd_u64(s, p) {
        Some(x) => x,
        None => {
            return None;
        },
    };
    if m0 == RAFS_SUPER_MAGIC {
        let xs = match rd_u64s(s, p, 7) {
            Some(v) => v,
            None => {
                return None;
            },
        };
        let ver = xs[0];
        let flags = xs[1];
        let chunk = xs[2];
        let ni = xs[3];
        let nb = xs[4];
        let np = xs[5];
        let ck = xs[6];
        if !(ver == 5 && chunk <= u32::MAX as u64) {
            return None;
        }
        let fl = match decode_flags(flags) {
            Some(t) => t,
            None => {
                return None;
            },
        };
        let cov = cov_bytes(5, flags, chunk, ni, nb, np);
        let want = checksum(cov.as_slice());
        if ck != want {
            return None;
        }
        Some(
            RafsSuperMeta {
                version: RafsVersion::V5,
                compressor: fl.0,
                digester: fl.1,
                explicit_uidgid: fl.2,
                chunk_size: chunk as u32,
                inodes_hint: ni,
                blobs_hint: nb,
                prefetch_hint: np,
            },
        )
    } else {
        if s.len() < 1024 {
            return None;
        }
        *p = 1024;
        let xs = match rd_u64s(s, p, 8) {
            Some(v) => v,
            None => {
                return None;
            },
        };
        let magic = xs[0];
        let ver = xs[1];
        let ck = xs[2];
        let flags = xs[3];
        let chunk = xs[4];
        let ni = xs[5];
        let nb = xs[6];
        let np = xs[7];
        if !(magic == RAFS_SUPER_MAGIC && ver == 6 && chunk <= u32::MAX as u64) {
            return None;
        }
        let fl = match decode_flags(flags) {
            Some(t) => t,
            None => {
                return None;
            },
        };
        let cov = cov_bytes(6, flags, chunk, ni, nb, np);
        let want = checksum(cov.as_slice());
        if ck != want {
            return None;
        }
        Some(
            RafsSuperMeta {
                version: RafsVersion::V6,
                compressor: fl.0,
                digester: fl.1,
                explicit_uidgid: fl.2,
                chunk_size: chunk as u32,
                inodes_hint: ni,
                blobs_hint: nb,
                prefetch_hint: np,
            },
        )
    }
}

/// Read `n` blob-table entries at `*p`.
#[verifier::rlimit(100)]
#[verifier::loop_isolation(false)]
fn rd_blobs(s: &[u8], p: &mut usize, n: u64) -> (r: Option<Vec<BlobEntry>>)
    requires
        *old(p) <= s@.len(),
    ensures
        match sp_blobs(s@.skip(*old(p) as int), n as int) {
            Some(pr) => {
                &&& r matches Some(v) && v.deep_view() == pr.0
                &&& *final(p) <= s@.len()
                &&& s@.skip(*final(p) as int) == pr.1
            },
            None => r is None,
        },
{
    let ghost rem0 = s@.skip(*old(p) as int);
    let mut acc: Vec<BlobEntry> = Vec::new();
    let mut i: u64 = 0;
    proof {
        match sp_blobs(rem0, n as int) {
            Some(pr) => {
                assert(acc.deep_view() + pr.0 =~= pr.0);
            },
            None => {},
        }
    }
    while i < n
        invariant
            i <= n,
            *p <= s@.len(),
            acc@.len() == i,
            match sp_blobs(s@.skip(*p as int), (n - i) as int) {
                Some(pr) => sp_blobs(rem0, n as int) == Some((acc.deep_view() + pr.0, pr.1)),
                None => sp_blobs(rem0, n as int) is None,
            },
        decreases n - i,
    {
        match rd_blob(s, p) {
            Some(b) => {
                acc.push(b);
                proof {
                    match sp_blobs(s@.skip(*p as int), (n - i - 1) as int) {
                        Some(pr2) => {
                            assert(acc.deep_view() =~= acc.deep_view().drop_last().push(b@));
                            assert(acc.deep_view().drop_last() + (seq![b@] + pr2.0)
                                =~= acc.deep_view() + pr2.0);
                        },
                        None => {},
                    }
                }
            },
            None => {
                return None;
            },
        }
        i = i + 1;
    }
    proof {
        assert(sp_blobs(s@.skip(*p as int), 0) == Some(
            (Seq::<BlobEntryV>::empty(), s@.skip(*p as int)),
        ));
        assert(acc.deep_view() + Seq::<BlobEntryV>::empty() =~= acc.deep_view());
    }
    Some(acc)
}

/// Read `n` stored inodes at `*p`.
#[verifier::rlimit(100)]
#[verifier::loop_isolation(false)]
fn rd_records(s: &[u8], p: &mut usize, n: u64) -> (r: Option<Vec<InodeRecord>>)
    requires
        *old(p) <= s@.len(),
    ensures
        match sp_records(s@.skip(*old(p) as int), n as int) {
            Some(pr) => {
                &&& r matches Some(v) && v.deep_view() == pr.0
                &&& *final(p) <= s@.len()
                &&& s@.skip(*final(p) as int) == pr.1
            },
            None => r is None,
        },
{
    let ghost rem0 = s@.skip(*old(p) as int);
    let mut acc: Vec<InodeRecord> = Vec::new();
    let mut i: u64 = 0;
    proof {
        match sp_records(rem0, n as int) {
            Some(pr) => {
                assert(acc.deep_view() + pr.0 =~= pr.0);
            },
            None => {},
        }
    }
    while i < n
        invariant
            i <= n,
            *p <= s@.len(),
            acc@.len() == i,
            match sp_records(s@.skip(*p as int), (n - i) as int) {
                Some(pr) => sp_records(rem0, n as int) == Some((acc.deep_view() + pr.0, pr.1)),
                None => sp_records(rem0, n as int) is None,
            },
        decreases n - i,
    {
        match rd_record(s, p) {
            Some(x) => {
                acc.push(x);
                proof {
                    match sp_records(s@.skip(*p as int), (n - i - 1) as int) {
                        Some(pr2) => {
                            assert(acc.deep_view() =~= acc.deep_view().drop_last().push(x@));
                            assert(acc.deep_view().drop_last() + (seq![x@] + pr2.0)
                                =~= acc.deep_view() + pr2.0);
                        },
                        None => {},
                    }
                }
            },
            None => {
                return None;
            },
        }
        i = i + 1;
    }
    proof {
        assert(sp_records(s@.skip(*p as int), 0) == Some(
            (Seq::<InodeRecordV>::empty(), s@.skip(*p as int)),
        ));
        assert(acc.deep_view() + Seq::<InodeRecordV>::empty() =~= acc.deep_view());
    }
    Some(acc)
}

/// Parse a whole bootstrap from its on-disk bytes.  Fails with a metadata
/// error exactly on the byte strings the format does not generate.
#[verifier::rlimit(100)]
pub fn parse_bootstrap(s: &[u8]) -> (r: RafsResult<RafsSuper>)
    ensures
        match sp_bootstrap(s@) {
            Some(m) => r matches Ok(sup) && sup@ == m,
            None => r is Err,
        },
{
    let mut p: usize = 0;
    let meta = match rd_super(s, &mut p) {
        Some(m) => m,
        None => {
            return Err(RafsError::FillSuperblock("invalid superblock".to_string()));
        },
    };
    let blobs = match rd_blobs(s, &mut p, meta.blobs_hint) {
        Some(v) => v,
        None => {
            return Err(RafsError::ReadMetadata("invalid blob table".to_string()));
        },
    };
    let prefetch = match rd_u64s(s, &mut p, meta.prefetch_hint) {
        Some(v) => v,
        None => {
            return Err(RafsError::ReadMetadata("invalid prefetch table".to_string()));
        },
    };
    let inodes = match rd_records(s, &mut p, meta.inodes_hint) {
        Some(v) => v,
        None => {
            return Err(RafsError::ReadMetadata("invalid inode record".to_string()));
        },
    };
    let sup = RafsSuper { meta, inodes, blobs, prefetch };
    proof {
        assert(sup@ =~= sp_bootstrap(s@)->Some_0);
    }
    Ok(sup)
}


impl InodeRecord {
    /// True if the stored inode is a directory.
    pub fn is_dir(&self) -> (r: bool)
        ensures
            r == crate::node::is_dir_mode(self@.mode),
    {
        self.mode & crate::node::S_IFMT == crate::node::S_IFDIR
    }

    /// True if the stored inode is a regular file.
    pub fn is_reg(&self) -> (r: bool)
        ensures
            r == crate::node::is_reg_mode(self@.mode),
    {
        self.mode & crate::node::S_IFMT == crate::node::S_IFREG
    }

    /// True if the stored inode is a symbolic link.
    pub fn is_symlink(&self) -> (r: bool)
        ensures
            r == crate::node::is_symlink_mode(self@.mode),
    {
        self.mode & crate::node::S_IFMT == crate::node::S_IFLNK
    }

    /// The inode number.
    pub fn ino(&self) -> (r: u64)
        ensures
            r == self@.ino,
    {
        self.ino
    }

    /// The device number of a device inode.
    pub fn rdev(&self) -> (r: u64)
        ensures
            r == self@.rdev,
    {
        self.rdev
    }

    /// The entry name.
    pub fn name(&self) -> (r: &Vec<u8>)
        ensures
            r@ == self@.name,
    {
        &self.name
    }

    /// Number of directory entries.
    pub fn get_child_count(&self) -> (r: usize)
        ensures
            r == self@.children.len(),
    {
        self.children.len()
    }

    /// The inode number of directory entry `i`.
    pub fn get_child_by_index(&self, i: usize) -> (r: RafsResult<u64>)
        ensures
            i < self@.children.len() ==> (r matches Ok(c) && c == self@.children[i as int]),
            i >= self@.children.len() ==> r is Err,
    {
        if i < self.children.len() {
            Ok(self.children[i])
        } else {
            Err(RafsError::Corruption("child index out of range".to_string()))
        }
    }

    /// Number of chunk descriptors.
    pub fn get_chunk_count(&self) -> (r: usize)
        ensures
            r == self@.chunks.len(),
    {
        self.chunks.len()
    }

    /// Chunk descriptor `i` of a regular file.
    pub fn get_chunk_info(&self, i: usize) -> (r: RafsResult<&ChunkWrapper>)
        ensures
            i < self@.chunks.len() ==> (r matches Ok(c) && c@ == self@.chunks[i as int]),
            i >= self@.chunks.len() ==> r is Err,
    {
        if i < self.chunks.len() {
            Ok(&self.chunks[i])
        } else {
            Err(RafsError::Corruption("chunk index out of range".to_string()))
        }
    }

    /// The symlink target, for symbolic links.
    pub fn get_symlink(&self) -> (r: RafsResult<Vec<u8>>)
        ensures
            match self@.symlink {
                Some(t) => r matches Ok(v) && v@ == t,
                None => r is Err,
            },
    {
        match &self.symlink {
            Some(t) => Ok(crate::node::clone_bytes(t)),
            None => Err(RafsError::Corruption("no symlink target".to_string())),
        }
    }

    /// All extended attributes of the inode.
    pub fn get_xattrs(&self) -> (r: &Vec<XAttr>)
        ensures
            r.deep_view() == self@.xattrs,
    {
        &self.xattrs
    }

    /// The value of the extended attribute called `name`: the first entry
    /// carrying that name, if any.
    pub fn get_xattr(&self, name: &[u8]) -> (r: Option<Vec<u8>>)
        ensures
            match r {
                Some(v) => exists|i: int|
                    0 <= i < self@.xattrs.len() && (#[trigger] self@.xattrs[i]).name == name@
                        && self@.xattrs[i].value == v@,
                None => forall|i: int|
                    0 <= i < self@.xattrs.len() ==> (#[trigger] self@.xattrs[i]).name != name@,
            },
    {
        let n = self.xattrs.len();
        let mut i: usize = 0;
        while i < n
            invariant
                i <= n,
                n == self.xattrs@.len(),
                forall|j: int| 0 <= j < i ==> (#[trigger] self@.xattrs[j]).name != name@,
            decreases n - i,
        {
            proof {
                assert(self@.xattrs[i as int] == self.xattrs@[i as int]@);
            }
            if crate::node::bytes_eq(self.xattrs[i].name.as_slice(), name) {
                return Some(crate::node::clone_bytes(&self.xattrs[i].value));
            }
            i = i + 1;
        }
        None
    }
}

impl RafsSuper {
    /// The stored inode with number `ino`; inode numbers are dense in
    /// `[1, N]` with the root at 1.  With `validate` set, an inode whose
    /// record carries the wrong number is reported as corruption.
    pub fn get_inode(&self, ino: u64, validate: bool) -> (r: RafsResult<&InodeRecord>)
        ensures
            match spec_get_inode(self@, ino, validate) {
                Some(rec) => r matches Ok(x) && x@ == rec,
                None => r is Err,
            },
    {
        if ino < 1 || ino > self.inodes.len() as u64 {
            return Err(RafsError::Corruption("inode out of range".to_string()));
        }
        let rec = &self.inodes[(ino - 1) as usize];
        proof {
            assert(self@.inodes[ino - 1] == self.inodes@[ino - 1]@);
        }
        if validate && rec.ino != ino {
            return Err(RafsError::Corruption("inode number mismatch".to_string()));
        }
        Ok(rec)
    }

    /// Number of inodes in the image.
    pub fn inodes_count(&self) -> (r: usize)
        ensures
            r == self@.inodes.len(),
    {
        self.inodes.len()
    }

    /// Look a directory entry up by name: the first child of `parent` whose
    /// record carries `name`.  `None` means no in-range child of `parent`
    /// carries that name.
    #[verifier::loop_isolation(false)]
    pub fn get_child_by_name(&self, parent: &InodeRecord, name: &[u8]) -> (r: Option<u64>)
        ensures
            r == spec_child_by_name(self@, parent@.children, name@),
    {
        let ghost kids = parent@.children;
        let n = parent.children.len();
        let mut i: usize = 0;
        proof {
            assert(kids.skip(0) =~= kids);
        }
        while i < n
            invariant
                i <= n,
                n == parent@.children.len(),
                kids == parent@.children,
                spec_child_by_name(self@, kids, name@) == spec_child_by_name(
                    self@,
                    kids.skip(i as int),
                    name@,
                ),
            decreases n - i,
        {
            let c = parent.children[i];
            proof {
                assert(parent@.children[i as int] == c);
                assert(kids.skip(i as int)[0] == c);
                assert(kids.skip(i as int).drop_first() =~= kids.skip(i as int + 1));
            }
            if 1 <= c && c <= self.inodes.len() as u64 {
                proof {
                    assert(self@.inodes[c - 1] == self.inodes@[c - 1]@);
                }
                if crate::node::bytes_eq(
                    self.inodes[(c - 1) as usize].name.as_slice(),
                    name,
                ) {
                    return Some(c);
                }
            }
            i = i + 1;
        }
        proof {
            assert(kids.skip(n as int) =~= Seq::<u64>::empty());
        }
        None
    }
}

/// The first in-range directory entry carrying `name`.
pub open spec fn spec_child_by_name(sup: SuperV, kids: Seq<u64>, name: Seq<u8>) -> Option<u64>
    decreases kids,
{
    if kids.len() == 0 {
        None
    } else if 1 <= kids[0] <= sup.inodes.len() && sup.inodes[kids[0] - 1].name == name {
        Some(kids[0])
    } else {
        spec_child_by_name(sup, kids.drop_first(), name)
    }
}

/// The inode a path resolves to, descending from `cur` through the
/// components `comps[i..]` by directory-entry lookup.
pub open spec fn spec_resolve(sup: SuperV, comps: Seq<Seq<u8>>, i: int, cur: u64) -> Option<u64>
    decreases comps.len() - i,
{
    if i < 0 || i >= comps.len() {
        Some(cur)
    } else {
        match spec_get_inode(sup, cur, false) {
            Some(rec) => match spec_child_by_name(sup, rec.children, comps[i]) {
                Some(c) => spec_resolve(sup, comps, i + 1, c),
                None => None,
            },
            None => None,
        }
    }
}

impl RafsSuper {
    /// Resolve an absolute path, given as its components below the root, to
    /// an inode number: each component is looked up among the previous
    /// directory's entries; a component with no match resolves to nothing.
    #[verifier::loop_isolation(false)]
    pub fn resolve_path(&self, components: &Vec<Vec<u8>>) -> (r: Option<u64>)
        ensures
            r == spec_resolve(self@, components.deep_view(), 0, 1),
    {
        let ghost comps = components.deep_view();
        let mut cur: u64 = 1;
        let n = components.len();
        let mut i: usize = 0;
        proof {
            assert(comps.len() == n);
        }
        while i < n
            invariant
                i <= n,
                n == components@.len(),
                comps == components.deep_view(),
                comps.len() == n,
                spec_resolve(self@, comps, 0, 1) == spec_resolve(self@, comps, i as int, cur),
            decreases n - i,
        {
            proof {
                assert(comps[i as int] == components@[i as int]@);
            }
            let rec = match self.get_inode(cur, false) {
                Ok(x) => x,
                Err(_) => {
                    return None;
                },
            };
            match self.get_child_by_name(rec, components[i].as_slice()) {
                Some(c) => {
                    cur = c;
                },
                None => {
                    return None;
                },
            }
            i = i + 1;
        }
        Some(cur)
    }
}

/// The record `get_inode` hands out for `ino`, if the number is in range
/// and, when validating, the record carries it.
pub open spec fn spec_get_inode(sup: SuperV, ino: u64, validate: bool) -> Option<InodeRecordV> {
    if 1 <= ino <= sup.inodes.len() {
        let rec = sup.inodes[ino - 1];
        if validate && rec.ino != ino {
            None
        } else {
            Some(rec)
        }
    } else {
        None
    }
}

} // verus!
