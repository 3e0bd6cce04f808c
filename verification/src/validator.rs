//! The validator: re-parse a freshly written bootstrap and check its
//! structural invariants before the image is published.
//!
//! Checked here: inode numbers are dense with the root at one, every
//! directory entry names an inode in range, every chunk lies in a blob of
//! the blob table with an index inside that blob's chunk count, and every
//! regular file's chunks tile `[0, size)` exactly.  The superblock's magic,
//! version, flags and checksum are enforced by the parser itself before a
//! `RafsSuper` exists.

use vstd::prelude::*;

use crate::bootstrap::{parse_bootstrap, sp_bootstrap, InodeRecord, RafsSuper, SuperV};
use crate::node::{bytes_less, bytes_lt, is_reg_mode, is_symlink_mode, ChunkV};
use crate::{RafsError, RafsResult};

verus! {

/// The chunks of a regular file cover `[0, size)` without gap or overlap:
/// each chunk starts where the previous one ended, and the last ends at the
/// file size.
pub open spec fn chunks_tile(cs: Seq<ChunkV>, size: u64) -> bool {
    &&& (forall|k: int|
        0 <= k < cs.len() ==> (#[trigger] cs[k]).file_offset == (if k == 0 {
            0
        } else {
            cs[k - 1].file_offset + cs[k - 1].uncompressed_size
        }))
    &&& (cs.len() == 0 ==> size == 0)
    &&& (cs.len() > 0 ==> cs[cs.len() - 1].file_offset + cs[cs.len() - 1].uncompressed_size
        == size)
}

/// One chunk descriptor points into the blob table: its blob exists and its
/// index lies inside that blob's chunk count.
pub open spec fn chunk_in_blobs(c: ChunkV, sup: SuperV) -> bool {
    &&& c.blob_index < sup.blobs.len()
    &&& c.chunk_index < sup.blobs[c.blob_index as int].chunk_count
}

/// The name a stored inode number carries.
pub open spec fn name_of(sup: SuperV, ino: u64) -> Seq<u8>
    recommends
        1 <= ino <= sup.inodes.len(),
{
    sup.inodes[ino - 1].name
}

/// One stored inode is structurally sound inside its image: its number is
/// dense, its directory entries are in range and strictly sorted bytewise by
/// name, a symbolic link carries a target, and a regular file's chunks point
/// into the blob table, tile the file, stay within the image's chunk size
/// and are exactly chunk-size long everywhere but possibly the last.
pub open spec fn record_valid(sup: SuperV, i: int) -> bool {
    let r = sup.inodes[i];
    &&& r.ino == i + 1
    &&& (forall|j: int|
        0 <= j < r.children.len() ==> 1 <= (#[trigger] r.children[j])
            && r.children[j] <= sup.inodes.len())
    &&& (forall|j: int|
        1 <= j < r.children.len() ==> bytes_lt(
            name_of(sup, r.children[j - 1]),
            name_of(sup, #[trigger] r.children[j]),
        ))
    &&& (is_symlink_mode(r.mode) ==> r.symlink is Some)
    &&& (is_reg_mode(r.mode) ==> chunks_tile(r.chunks, r.size) && (forall|k: int|
        0 <= k < r.chunks.len() ==> chunk_in_blobs(#[trigger] r.chunks[k], sup)) && (forall|k: int|
        0 <= k < r.chunks.len() ==> (#[trigger] r.chunks[k]).uncompressed_size <= sup.chunk_size)
        && (forall|k: int|
        0 <= k < r.chunks.len() - 1 ==> (#[trigger] r.chunks[k]).uncompressed_size
            == sup.chunk_size))
}

/// A non-root inode hangs off a directory: its parent number is in range,
/// strictly smaller than its own, and that directory lists it.
pub open spec fn parent_linked(sup: SuperV, i: int) -> bool {
    let p = sup.inodes[i].parent;
    &&& 1 <= p <= sup.inodes.len()
    &&& p <= i
    &&& sup.inodes[p - 1].children.contains((i + 1) as u64)
}

/// An inode reaches the root through its parent chain.  The chain is well
/// founded because every link strictly decreases the inode number.
pub open spec fn reachable(sup: SuperV, i: int) -> bool
    decreases i,
{
    if i <= 0 {
        true
    } else {
        let p = sup.inodes[i].parent;
        &&& 1 <= p <= i
        &&& reachable(sup, p - 1)
    }
}

/// In a parent-linked image every inode — so every inode a directory
/// references — is reachable from the root.
pub proof fn lemma_all_reachable(sup: SuperV, i: int)
    requires
        0 <= i < sup.inodes.len(),
        forall|j: int| 1 <= j < sup.inodes.len() ==> parent_linked(sup, j),
    ensures
        reachable(sup, i),
    decreases i,
{
    if i > 0 {
        assert(parent_linked(sup, i));
        let p = sup.inodes[i].parent;
        assert(1 <= p <= i);
        lemma_all_reachable(sup, p - 1);
    }
}

/// A whole image is structurally sound: every record is, and every non-root
/// inode hangs off a directory, so everything is reachable from the root.
pub open spec fn super_valid(sup: SuperV) -> bool {
    &&& (forall|i: int| 0 <= i < sup.inodes.len() ==> record_valid(sup, i))
    &&& (forall|i: int| 1 <= i < sup.inodes.len() ==> parent_linked(sup, i))
}

/// Validates a freshly written bootstrap.
pub struct Validator {
    /// The parsed image under inspection.
    pub sup: RafsSuper,
}

impl Validator {
    /// Parse the bootstrap bytes; a byte string the format does not generate
    /// is refused here.
    pub fn new(bytes: &[u8]) -> (r: RafsResult<Validator>)
        ensures
            match sp_bootstrap(bytes@) {
                Some(m) => r matches Ok(v) && v.sup@ == m,
                None => r is Err,
            },
    {
        match parse_bootstrap(bytes) {
            Ok(sup) => Ok(Validator { sup }),
            Err(e) => Err(e),
        }
    }

    /// Check one directory's entry list: every child in range, names
    /// strictly sorted bytewise.
    #[verifier::rlimit(100)]
    #[verifier::loop_isolation(false)]
    fn check_children(&self, rec: &InodeRecord) -> (r: RafsResult<()>)
        ensures
            match r {
                Ok(_) => (forall|j: int|
                    0 <= j < rec@.children.len() ==> 1 <= (#[trigger] rec@.children[j])
                        && rec@.children[j] <= self.sup@.inodes.len()) && (forall|j: int|
                    1 <= j < rec@.children.len() ==> bytes_lt(
                        name_of(self.sup@, rec@.children[j - 1]),
                        name_of(self.sup@, #[trigger] rec@.children[j]),
                    )),
                Err(_) => !((forall|j: int|
                    0 <= j < rec@.children.len() ==> 1 <= (#[trigger] rec@.children[j])
                        && rec@.children[j] <= self.sup@.inodes.len()) && (forall|j: int|
                    1 <= j < rec@.children.len() ==> bytes_lt(
                        name_of(self.sup@, rec@.children[j - 1]),
                        name_of(self.sup@, #[trigger] rec@.children[j]),
                    ))),
            },
    {
        let ghost sup = self.sup@;
        let ni = self.sup.inodes.len();
        let nc = rec.children.len();
        let mut j: usize = 0;
        while j < nc
            invariant
                j <= nc,
                nc == rec.children@.len(),
                forall|q: int|
                    0 <= q < j ==> 1 <= (#[trigger] rec@.children[q]) && rec@.children[q]
                        <= sup.inodes.len(),
                forall|q: int|
                    1 <= q < j ==> bytes_lt(
                        name_of(sup, rec@.children[q - 1]),
                        name_of(sup, #[trigger] rec@.children[q]),
                    ),
            decreases nc - j,
        {
            let c = rec.children[j];
            proof {
                assert(rec@.children[j as int] == c);
            }
            if c < 1 || c > ni as u64 {
                proof {
                    assert(!(1 <= rec@.children[j as int] && rec@.children[j as int]
                        <= sup.inodes.len()));
                }
                return Err(RafsError::Corruption("child inode out of range".to_string()));
            }
            if j > 0 {
                let prev = rec.children[j - 1];
                proof {
                    assert(rec@.children[j as int - 1] == prev);
                    assert(sup.inodes[prev - 1] == self.sup.inodes@[prev - 1]@);
                    assert(sup.inodes[c - 1] == self.sup.inodes@[c - 1]@);
                }
                if !bytes_less(
                    self.sup.inodes[(prev - 1) as usize].name.as_slice(),
                    self.sup.inodes[(c - 1) as usize].name.as_slice(),
                ) {
                    proof {
                        assert(!bytes_lt(
                            name_of(sup, rec@.children[j as int - 1]),
                            name_of(sup, rec@.children[j as int]),
                        ));
                    }
                    return Err(
                        RafsError::Corruption("directory entries not sorted by name".to_string()),
                    );
                }
            }
            j = j + 1;
        }
        Ok(())
    }

    /// Check one regular file's chunk list: every chunk inside a blob of the
    /// table, tiling the file, within the chunk size, and exactly chunk-size
    /// long everywhere but possibly the last.
    #[verifier::rlimit(100)]
    #[verifier::spinoff_prover]
    #[verifier::loop_isolation(false)]
    fn check_chunks(&self, rec: &InodeRecord) -> (r: RafsResult<()>)
        ensures
            match r {
                Ok(_) => chunks_tile(rec@.chunks, rec@.size) && (forall|k: int|
                    0 <= k < rec@.chunks.len() ==> chunk_in_blobs(
                        #[trigger] rec@.chunks[k],
                        self.sup@,
                    )) && (forall|k: int|
                    0 <= k < rec@.chunks.len() ==> (#[trigger] rec@.chunks[k]).uncompressed_size
                        <= self.sup@.chunk_size) && (forall|k: int|
                    0 <= k < rec@.chunks.len() - 1 ==> (
                    #[trigger] rec@.chunks[k]).uncompressed_size == self.sup@.chunk_size),
                Err(_) => !(chunks_tile(rec@.chunks, rec@.size) && (forall|k: int|
                    0 <= k < rec@.chunks.len() ==> chunk_in_blobs(
                        #[trigger] rec@.chunks[k],
                        self.sup@,
                    )) && (forall|k: int|
                    0 <= k < rec@.chunks.len() ==> (#[trigger] rec@.chunks[k]).uncompressed_size
                        <= self.sup@.chunk_size) && (forall|k: int|
                    0 <= k < rec@.chunks.len() - 1 ==> (
                    #[trigger] rec@.chunks[k]).uncompressed_size == self.sup@.chunk_size)),
            },
    {
        let ghost sup = self.sup@;
        let nk = rec.chunks.len();
        let mut k: usize = 0;
        let mut expected: u64 = 0;
        while k < nk
            invariant
                k <= nk,
                nk == rec.chunks@.len(),
                forall|q: int|
                    0 <= q < k ==> (#[trigger] rec@.chunks[q]).file_offset == (if q == 0 {
                        0
                    } else {
                        rec@.chunks[q - 1].file_offset + rec@.chunks[q - 1].uncompressed_size
                    }),
                forall|q: int| 0 <= q < k ==> chunk_in_blobs(#[trigger] rec@.chunks[q], sup),
                forall|q: int|
                    0 <= q < k ==> (#[trigger] rec@.chunks[q]).uncompressed_size
                        <= sup.chunk_size,
                forall|q: int|
                    0 <= q < k && q < nk - 1 ==> (#[trigger] rec@.chunks[q]).uncompressed_size
                        == sup.chunk_size,
                k == 0 ==> expected == 0,
                k > 0 ==> expected == rec@.chunks[k - 1].file_offset + rec@.chunks[k
                    - 1].uncompressed_size,
                expected <= u64::MAX,
            decreases nk - k,
        {
            let c = &rec.chunks[k];
            proof {
                assert(rec@.chunks[k as int] == rec.chunks@[k as int]@);
            }
            if c.file_offset != expected {
                proof {
                    assert(!chunks_tile(rec@.chunks, rec@.size));
                }
                return Err(RafsError::Corruption("chunks do not tile file".to_string()));
            }
            if (c.blob_index as usize) >= self.sup.blobs.len() {
                proof {
                    assert(!chunk_in_blobs(rec@.chunks[k as int], sup));
                }
                return Err(RafsError::Corruption("chunk blob out of range".to_string()));
            }
            proof {
                assert(sup.blobs[c.blob_index as int] == self.sup.blobs@[c.blob_index as int]@);
            }
            if c.chunk_index >= self.sup.blobs[c.blob_index as usize].chunk_count {
                proof {
                    assert(!chunk_in_blobs(rec@.chunks[k as int], sup));
                }
                return Err(RafsError::Corruption("chunk index out of blob range".to_string()));
            }
            if c.uncompressed_size > self.sup.meta.chunk_size {
                return Err(RafsError::Corruption("chunk larger than chunk size".to_string()));
            }
            if k < nk - 1 && c.uncompressed_size != self.sup.meta.chunk_size {
                return Err(RafsError::Corruption("short chunk before the last".to_string()));
            }
            if c.uncompressed_size as u64 > u64::MAX - expected {
                proof {
                    if chunks_tile(rec@.chunks, rec@.size) {
                        if k as int == rec@.chunks.len() - 1 {
                            assert(rec@.chunks[k as int].file_offset + rec@.chunks[
                                k as int
                            ].uncompressed_size == rec@.size);
                            assert(false);
                        } else {
                            assert(rec@.chunks[k as int + 1].file_offset == rec@.chunks[
                                k as int
                            ].file_offset + rec@.chunks[k as int].uncompressed_size);
                            assert(false);
                        }
                    }
                }
                return Err(RafsError::Corruption("file offsets overflow".to_string()));
            }
            expected = expected + c.uncompressed_size as u64;
            k = k + 1;
        }
        if expected != rec.size {
            proof {
                assert(!chunks_tile(rec@.chunks, rec@.size));
            }
            return Err(RafsError::Corruption("chunks do not cover file".to_string()));
        }
        proof {
            assert(chunks_tile(rec@.chunks, rec@.size));
        }
        Ok(())
    }

    /// Check one stored inode's structural invariants.
    #[verifier::rlimit(100)]
    fn check_record(&self, i: usize) -> (r: RafsResult<()>)
        requires
            i < self.sup@.inodes.len(),
        ensures
            match r {
                Ok(_) => record_valid(self.sup@, i as int),
                Err(_) => !record_valid(self.sup@, i as int),
            },
    {
        let ghost sup = self.sup@;
        let ni = self.sup.inodes.len();
        let rec = &self.sup.inodes[i];
        proof {
            assert(sup.inodes[i as int] == self.sup.inodes@[i as int]@);
            assert(i < ni);
        }
        if rec.ino != (i as u64) + 1 {
            proof {
                assert(!record_valid(sup, i as int));
            }
            return Err(RafsError::Corruption("inode number not dense".to_string()));
        }
        if rec.is_symlink() && rec.symlink.is_none() {
            proof {
                assert(rec@.symlink is None);
                assert(!record_valid(sup, i as int));
            }
            return Err(RafsError::Corruption("symlink without a target".to_string()));
        }
        proof {
            if rec.symlink is Some {
                assert(rec@.symlink == Some(rec.symlink->Some_0@));
            }
        }
        match self.check_children(rec) {
            Ok(_) => {},
            Err(e) => {
                proof {
                    assert(!record_valid(sup, i as int));
                }
                return Err(e);
            },
        }
        if rec.is_reg() {
            match self.check_chunks(rec) {
                Ok(_) => {},
                Err(e) => {
                    proof {
                        assert(!record_valid(sup, i as int));
                    }
                    return Err(e);
                },
            }
        }
        proof {
            assert(record_valid(sup, i as int));
        }
        Ok(())
    }

    /// Check that one non-root inode hangs off the directory its parent
    /// field names.
    #[verifier::rlimit(100)]
    #[verifier::loop_isolation(false)]
    fn check_parent_link(&self, i: usize) -> (r: RafsResult<()>)
        requires
            1 <= i < self.sup@.inodes.len(),
        ensures
            match r {
                Ok(_) => parent_linked(self.sup@, i as int),
                Err(_) => !parent_linked(self.sup@, i as int),
            },
    {
        let ghost sup = self.sup@;
        let ni = self.sup.inodes.len();
        let rec = &self.sup.inodes[i];
        proof {
            assert(sup.inodes[i as int] == self.sup.inodes@[i as int]@);
        }
        let p = rec.parent;
        if p < 1 || p > ni as u64 || p > i as u64 {
            proof {
                assert(!parent_linked(sup, i as int));
            }
            return Err(RafsError::Corruption("bad parent inode number".to_string()));
        }
        let dir = &self.sup.inodes[(p - 1) as usize];
        proof {
            assert(sup.inodes[p - 1] == self.sup.inodes@[p - 1]@);
        }
        let want = (i as u64) + 1;
        let nc = dir.children.len();
        let mut j: usize = 0;
        while j < nc
            invariant
                j <= nc,
                nc == dir.children@.len(),
                dir@ == sup.inodes[p - 1],
                forall|q: int| 0 <= q < j ==> (#[trigger] dir@.children[q]) != want,
            decreases nc - j,
        {
            proof {
                assert(dir@.children[j as int] == dir.children@[j as int]);
            }
            if dir.children[j] == want {
                proof {
                    assert(sup.inodes[p - 1].children.contains((i + 1) as u64));
                }
                return Ok(());
            }
            j = j + 1;
        }
        proof {
            assert(!sup.inodes[p - 1].children.contains((i + 1) as u64));
            assert(!parent_linked(sup, i as int));
        }
        Err(RafsError::Corruption("inode not listed by its parent".to_string()))
    }

    /// Check the structural invariants; returns the blob identifiers of the
    /// image exactly when every inode is sound.
    #[verifier::loop_isolation(false)]
    pub fn check(&self) -> (r: RafsResult<Vec<Vec<u8>>>)
        ensures
            match r {
                Ok(ids) => super_valid(self.sup@) && ids@.len() == self.sup@.blobs.len() && (
                forall|i: int|
                    0 <= i < ids@.len() ==> (#[trigger] ids@[i])@ == self.sup@.blobs[i].blob_id),
                Err(_) => !super_valid(self.sup@),
            },
    {
        let ghost sup = self.sup@;
        let ni = self.sup.inodes.len();
        let mut i: usize = 0;
        while i < ni
            invariant
                i <= ni,
                ni == self.sup.inodes@.len(),
                sup == self.sup@,
                forall|q: int| 0 <= q < i ==> record_valid(sup, q),
            decreases ni - i,
        {
            match self.check_record(i) {
                Ok(_) => {},
                Err(e) => {
                    return Err(e);
                },
            }
            i = i + 1;
        }
        let mut t: usize = 1;
        while t < ni
            invariant
                1 <= t <= ni || ni == 0,
                ni == self.sup.inodes@.len(),
                sup == self.sup@,
                forall|q: int| 1 <= q < t ==> parent_linked(sup, q),
            decreases ni - t,
        {
            match self.check_parent_link(t) {
                Ok(_) => {},
                Err(e) => {
                    return Err(e);
                },
            }
            t = t + 1;
        }
        let nb = self.sup.blobs.len();
        let mut ids: Vec<Vec<u8>> = Vec::new();
        let mut b: usize = 0;
        while b < nb
            invariant
                b <= nb,
                nb == self.sup.blobs@.len(),
                sup == self.sup@,
                ids@.len() == b,
                forall|q: int| 0 <= q < b ==> (#[trigger] ids@[q])@ == sup.blobs[q].blob_id,
            decreases nb - b,
        {
            proof {
                assert(sup.blobs[b as int] == self.sup.blobs@[b as int]@);
            }
            ids.push(crate::node::clone_bytes(&self.sup.blobs[b].blob_id));
            b = b + 1;
        }
        Ok(ids)
    }
}

} // verus!
