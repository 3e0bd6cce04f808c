//! Statistics over parsed images: how many regular files a group of images
//! holds and how many distinct chunks a synthesised base image would store.
//! The host walks the blob directory and parses each bootstrap; the folding
//! over the parsed images happens here.

use vstd::prelude::*;

use crate::bootstrap::{InodeRecordV, RafsSuper};
use crate::chunk::{dict_lookup, ChunkDict};
use crate::node::{is_reg_mode, ChunkV};
use crate::tree::spec_dict_add;

verus! {

/// Running totals over a group of images.
pub struct ImageStat {
    /// Regular files seen.
    pub files: u64,
    /// Chunks counted; with deduplication, only the first occurrence of each
    /// digest counts.
    pub chunks: u64,
}

/// Number of regular-file records in an image.
pub open spec fn spec_count_reg(rs: Seq<InodeRecordV>) -> nat
    decreases rs,
{
    if rs.len() == 0 {
        0
    } else {
        (if is_reg_mode(rs[0].mode) {
            1nat
        } else {
            0nat
        }) + spec_count_reg(rs.drop_first())
    }
}

/// Number of chunk descriptors across all regular-file records.
pub open spec fn spec_total_chunks(rs: Seq<InodeRecordV>) -> nat
    decreases rs,
{
    if rs.len() == 0 {
        0
    } else {
        (if is_reg_mode(rs[0].mode) {
            rs[0].chunks.len()
        } else {
            0
        }) + spec_total_chunks(rs.drop_first())
    }
}

/// Fold one chunk list into the running dictionary: each chunk whose digest
/// the dictionary does not yet hold counts as new; with deduplication the
/// dictionary learns every digest as it goes.
pub open spec fn spec_stat_chunks(cs: Seq<ChunkV>, d: Seq<ChunkV>, dedup: bool) -> (int, Seq<
    ChunkV,
>)
    decreases cs,
{
    if cs.len() == 0 {
        (0, d)
    } else {
        let fresh: int = if dedup && dict_lookup(d, cs[0].digest) is Some {
            0
        } else {
            1
        };
        let d1 = if dedup {
            spec_dict_add(d, cs[0])
        } else {
            d
        };
        let (n, d2) = spec_stat_chunks(cs.drop_first(), d1, dedup);
        (fresh + n, d2)
    }
}

/// Fold a whole image's records, regular files only.
pub open spec fn spec_stat_inodes(rs: Seq<InodeRecordV>, d: Seq<ChunkV>, dedup: bool) -> (
    int,
    Seq<ChunkV>,
)
    decreases rs,
{
    if rs.len() == 0 {
        (0, d)
    } else {
        let (n1, d1) = if is_reg_mode(rs[0].mode) {
            spec_stat_chunks(rs[0].chunks, d, dedup)
        } else {
            (0int, d)
        };
        let (n2, d2) = spec_stat_inodes(rs.drop_first(), d1, dedup);
        (n1 + n2, d2)
    }
}

/// Chunks an image adds beyond what the dictionary already holds.
pub open spec fn spec_new_chunks(rs: Seq<InodeRecordV>, d: Seq<ChunkV>, dedup: bool) -> int {
    spec_stat_inodes(rs, d, dedup).0
}

/// The dictionary after an image's chunks are registered.
pub open spec fn spec_dict_after(rs: Seq<InodeRecordV>, d: Seq<ChunkV>, dedup: bool) -> Seq<
    ChunkV,
> {
    spec_stat_inodes(rs, d, dedup).1
}

proof fn lemma_stat_chunks_bound(cs: Seq<ChunkV>, d: Seq<ChunkV>, dedup: bool)
    ensures
        0 <= spec_stat_chunks(cs, d, dedup).0 <= cs.len(),
    decreases cs,
{
    if cs.len() > 0 {
        let d1 = if dedup {
            spec_dict_add(d, cs[0])
        } else {
            d
        };
        lemma_stat_chunks_bound(cs.drop_first(), d1, dedup);
    }
}

proof fn lemma_stat_inodes_bound(rs: Seq<InodeRecordV>, d: Seq<ChunkV>, dedup: bool)
    ensures
        0 <= spec_stat_inodes(rs, d, dedup).0 <= spec_total_chunks(rs),
    decreases rs,
{
    if rs.len() > 0 {
        let d1 = if is_reg_mode(rs[0].mode) {
            lemma_stat_chunks_bound(rs[0].chunks, d, dedup);
            spec_stat_chunks(rs[0].chunks, d, dedup).1
        } else {
            d
        };
        lemma_stat_inodes_bound(rs.drop_first(), d1, dedup);
    }
}

impl ImageStat {
    /// Zeroed totals.
    pub fn new() -> (s: ImageStat)
        ensures
            s.files == 0,
            s.chunks == 0,
    {
        ImageStat { files: 0, chunks: 0 }
    }
}

/// Fold one parsed image into the running totals: every regular file
/// counts; every chunk counts unless deduplication is on and the dictionary
/// already holds its digest; with deduplication the dictionary learns each
/// digest, so chunks shared between images count once across the group.
#[verifier::rlimit(100)]
#[verifier::loop_isolation(false)]
pub fn stat_image(acc: &mut ImageStat, sup: &RafsSuper, dict: &mut ChunkDict, dedup: bool)
    requires
        old(acc).files + sup@.inodes.len() <= u64::MAX,
        old(acc).chunks + spec_total_chunks(sup@.inodes) <= u64::MAX,
    ensures
        final(acc).files == old(acc).files + spec_count_reg(sup@.inodes),
        final(acc).chunks == old(acc).chunks + spec_new_chunks(sup@.inodes, old(dict)@, dedup),
        final(dict)@ == spec_dict_after(sup@.inodes, old(dict)@, dedup),
{
    let ghost rs = sup@.inodes;
    let ghost d0 = dict@;
    let ghost total = spec_total_chunks(rs);
    let ni = sup.inodes.len();
    let mut i: usize = 0;
    let ghost mut files_done: int = 0;
    let ghost mut chunks_done: int = 0;
    proof {
        assert(rs.skip(0) =~= rs);
    }
    while i < ni
        invariant
            i <= ni,
            ni == sup.inodes@.len(),
            rs == sup@.inodes,
            rs.len() == ni,
            total == spec_total_chunks(rs),
            acc.files == old(acc).files + files_done,
            acc.chunks == old(acc).chunks + chunks_done,
            0 <= files_done <= i,
            0 <= chunks_done,
            chunks_done + spec_total_chunks(rs.skip(i as int)) <= total,
            spec_count_reg(rs) == files_done + spec_count_reg(rs.skip(i as int)),
            spec_stat_inodes(rs, d0, dedup) == {
                let (n, df) = spec_stat_inodes(rs.skip(i as int), dict@, dedup);
                (chunks_done + n, df)
            },
        decreases ni - i,
    {
        let rec = &sup.inodes[i];
        proof {
            assert(rs[i as int] == sup.inodes@[i as int]@);
            assert(rs.skip(i as int)[0] == rs[i as int]);
            assert(rs.skip(i as int).drop_first() =~= rs.skip(i as int + 1));
        }
        if rec.is_reg() {
            acc.files = acc.files + 1;
            proof {
                files_done = files_done + 1;
            }
            let ghost dpre = dict@;
            let ghost cs = rs[i as int].chunks;
            let ghost inner_start = chunks_done;
            let nk = rec.chunks.len();
            let mut k: usize = 0;
            let ghost mut inner_done: int = 0;
            proof {
                assert(cs.skip(0) =~= cs);
                assert(spec_total_chunks(rs.skip(i as int)) == cs.len() + spec_total_chunks(
                    rs.skip(i as int + 1),
                ));
            }
            while k < nk
                invariant
                    k <= nk,
                    nk == rec.chunks@.len(),
                    cs == rs[i as int].chunks,
                    cs.len() == nk,
                    dedup == dedup,
                    acc.chunks == old(acc).chunks + inner_start + inner_done,
                    acc.files == old(acc).files + files_done,
                    0 <= inner_done <= k,
                    inner_start + nk + spec_total_chunks(rs.skip(i as int + 1)) <= total,
                    old(acc).chunks + total <= u64::MAX,
                    spec_stat_chunks(cs, dpre, dedup) == {
                        let (n, df) = spec_stat_chunks(cs.skip(k as int), dict@, dedup);
                        (inner_done + n, df)
                    },
                decreases nk - k,
            {
                let c = &rec.chunks[k];
                proof {
                    assert(cs[k as int] == rec.chunks@[k as int]@);
                    assert(cs.skip(k as int)[0] == cs[k as int]);
                    assert(cs.skip(k as int).drop_first() =~= cs.skip(k as int + 1));
                }
                let fresh = if dedup {
                    dict.get_chunk(c.digest.as_slice()).is_none()
                } else {
                    true
                };
                if fresh {
                    acc.chunks = acc.chunks + 1;
                    proof {
                        inner_done = inner_done + 1;
                    }
                }
                if dedup {
                    dict.add_chunk(c.duplicate());
                }
                k = k + 1;
            }
            proof {
                assert(cs.skip(nk as int) =~= Seq::<ChunkV>::empty());
                assert(spec_stat_chunks(cs, dpre, dedup) == (inner_done, dict@));
                chunks_done = inner_start + inner_done;
            }
        }
        i = i + 1;
    }
    proof {
        assert(rs.skip(ni as int) =~= Seq::<InodeRecordV>::empty());
    }
}

} // verus!
