//! The chunker and the chunk dictionary.
//!
//! A regular file of size `S` is split into `⌈S/C⌉` fixed-size chunks, where
//! `C` is the image-wide chunk size; chunk `k` covers
//! `[k·C, min((k+1)·C, S))`.  The dictionary maps chunk digests to the
//! descriptors already emitted, so that identical content is stored once.

use vstd::prelude::*;

use crate::node::{ChunkV, ChunkWrapper};

verus! {

/// Smallest chunk size an image may use (4 KiB).
pub const RAFS_MIN_CHUNK_SIZE: u32 = 0x1000;

/// Largest chunk size an image may use (1 MiB), also the default.
pub const RAFS_DEFAULT_CHUNK_SIZE: u32 = 0x100000;

/// Number of chunks a file of `size` bytes splits into.
pub open spec fn spec_chunk_count(size: int, chunk_size: int) -> int {
    (size + chunk_size - 1) / chunk_size
}

/// Total uncompressed length of a list of chunk spans.
pub open spec fn spec_span_total(s: Seq<(u64, u32)>) -> int
    decreases s,
{
    if s.len() == 0 {
        0
    } else {
        s[0].1 + spec_span_total(s.drop_first())
    }
}

proof fn lemma_span_total_push(s: Seq<(u64, u32)>, x: (u64, u32))
    ensures
        spec_span_total(s.push(x)) == spec_span_total(s) + x.1,
    decreases s.len(),
{
    let sp = s.push(x);
    assert(sp[0] == if s.len() == 0 {
        x
    } else {
        s[0]
    });
    assert(spec_span_total(sp) == sp[0].1 + spec_span_total(sp.drop_first()));
    if s.len() == 0 {
        assert(sp.drop_first() =~= Seq::<(u64, u32)>::empty());
        assert(spec_span_total(sp.drop_first()) == 0);
        assert(spec_span_total(s) == 0);
    } else {
        lemma_span_total_push(s.drop_first(), x);
        assert(sp.drop_first() =~= s.drop_first().push(x));
        assert(spec_span_total(s) == s[0].1 + spec_span_total(s.drop_first()));
    }
}

/// Split a file of `size` bytes into chunk spans `(file_offset, length)`.
///
/// The spans tile `[0, size)` exactly: span `i` starts at `i·chunk_size`,
/// every span but the last is `chunk_size` long, and the lengths add up to
/// `size`.
pub fn split_chunks(size: u64, chunk_size: u32) -> (r: Vec<(u64, u32)>)
    requires
        chunk_size >= 1,
        size / (chunk_size as u64) < usize::MAX as u64,
    ensures
        r@.len() == spec_chunk_count(size as int, chunk_size as int),
        forall|i: int| 0 <= i < r@.len() ==> (#[trigger] r@[i]).0 == i * (chunk_size as int),
        forall|i: int| 0 <= i < r@.len() - 1 ==> (#[trigger] r@[i]).1 == chunk_size,
        r@.len() > 0 ==> r@[r@.len() - 1].1 == size - (r@.len() - 1) * (chunk_size as int),
        spec_span_total(r@) == size,
        forall|i: int| 0 <= i < r@.len() ==> (#[trigger] r@[i]).1 <= chunk_size,
{
    let mut r: Vec<(u64, u32)> = Vec::new();
    let ghost ci = chunk_size as int;
    if size == 0 {
        proof {
            vstd::arithmetic::div_mod::lemma_basic_div_specific_divisor(ci);
            assert(spec_chunk_count(0, ci) == 0) by {
                assert((ci - 1) / ci == 0) by {
                    vstd::arithmetic::div_mod::lemma_basic_div(ci - 1, ci);
                }
            }
        }
        return r;
    }
    let c = chunk_size as u64;
    let count_m1: u64 = (size - 1) / c;
    let ghost q = count_m1 as int;
    let ghost rem = ((size - 1) as int) % ci;
    proof {
        vstd::arithmetic::div_mod::lemma_fundamental_div_mod((size - 1) as int, ci);
        vstd::arithmetic::div_mod::lemma_mod_bound((size - 1) as int, ci);
        assert(size - 1 == ci * q + rem);
        assert(0 <= rem < ci);
        assert(ci * q == q * ci) by (nonlinear_arith);
        // The ceiling division in the chunk count equals q + 1.
        assert(spec_chunk_count(size as int, ci) == q + 1) by {
            assert(size + ci - 1 == (q + 1) * ci + rem) by (nonlinear_arith)
                requires
                    size - 1 == ci * q + rem,
            ;
            vstd::arithmetic::div_mod::lemma_fundamental_div_mod_converse_div(
                size + ci - 1,
                ci,
                q + 1,
                rem,
            );
        }
        // count fits the address space.
        vstd::arithmetic::div_mod::lemma_div_is_ordered((size - 1) as int, size as int, ci);
    }
    let count: u64 = count_m1 + 1;
    let mut i: u64 = 0;
    while i < count
        invariant
            0 < ci == chunk_size as int,
            chunk_size as u64 == c,
            i <= count,
            count == q + 1,
            size - 1 == q * ci + rem,
            0 <= rem < ci,
            count <= usize::MAX,
            r@.len() == i,
            forall|j: int| 0 <= j < i ==> (#[trigger] r@[j]).0 == j * ci,
            forall|j: int| 0 <= j < i && j < count - 1 ==> (#[trigger] r@[j]).1 == chunk_size,
            forall|j: int| 0 <= j < i ==> (#[trigger] r@[j]).1 <= chunk_size,
            i == count ==> r@[i - 1].1 == size - (i - 1) * ci,
            spec_span_total(r@) == if i < count {
                i * ci
            } else {
                size as int
            },
        decreases count - i,
    {
        proof {
            vstd::arithmetic::mul::lemma_mul_inequality(i as int, q, ci);
            assert(i * ci <= q * ci);
        }
        let off: u64 = i * c;
        let len: u32 = if i == count - 1 {
            proof {
                assert(off == q * ci);
                assert(size - off == 1 + rem);
            }
            (size - off) as u32
        } else {
            proof {
                vstd::arithmetic::mul::lemma_mul_inequality(i as int + 1, q, ci);
                assert((i + 1) * ci == i * ci + ci) by (nonlinear_arith);
            }
            chunk_size
        };
        proof {
            lemma_span_total_push(r@, (off, len));
            assert((i + 1) * ci == i * ci + ci) by (nonlinear_arith);
        }
        r.push((off, len));
        i = i + 1;
    }
    r
}


/// Every chunk span of a file lies inside the file.
pub proof fn lemma_spans_in_file(size: int, c: int, i: int)
    requires
        c >= 1,
        0 <= i < spec_chunk_count(size, c),
    ensures
        0 <= i * c,
        i * c + (if i == spec_chunk_count(size, c) - 1 {
            size - i * c
        } else {
            c
        }) <= size,
{
    let n = spec_chunk_count(size, c);
    vstd::arithmetic::mul::lemma_mul_nonnegative(i, c);
    vstd::arithmetic::div_mod::lemma_fundamental_div_mod(size + c - 1, c);
    vstd::arithmetic::div_mod::lemma_mod_bound(size + c - 1, c);
    assert(c * n == size + c - 1 - ((size + c - 1) % c));
    if i < n - 1 {
        vstd::arithmetic::mul::lemma_mul_inequality(i + 1, n - 1, c);
        assert((n - 1) * c == c * n - c) by (nonlinear_arith);
        assert((i + 1) * c == i * c + c) by (nonlinear_arith);
    }
}

/// The first descriptor in `s` whose digest is `d`.
pub open spec fn dict_lookup(s: Seq<ChunkV>, d: Seq<u8>) -> Option<ChunkV>
    decreases s,
{
    if s.len() == 0 {
        None
    } else if s[0].digest == d {
        Some(s[0])
    } else {
        dict_lookup(s.drop_first(), d)
    }
}

/// Appending a descriptor with a fresh digest makes exactly that digest
/// resolvable; already-known digests keep resolving to their first entry.
pub proof fn lemma_dict_lookup_push(s: Seq<ChunkV>, c: ChunkV, d: Seq<u8>)
    ensures
        dict_lookup(s.push(c), d) == match dict_lookup(s, d) {
            Some(e) => Some(e),
            None => if c.digest == d {
                Some(c)
            } else {
                None
            },
        },
    decreases s.len(),
{
    let sp = s.push(c);
    assert(sp[0] == if s.len() == 0 {
        c
    } else {
        s[0]
    });
    assert(dict_lookup(sp, d) == if sp[0].digest == d {
        Some(sp[0])
    } else {
        dict_lookup(sp.drop_first(), d)
    });
    if s.len() == 0 {
        assert(sp.drop_first() =~= Seq::<ChunkV>::empty());
        assert(dict_lookup(sp.drop_first(), d) is None);
        assert(dict_lookup(s, d) is None);
    } else {
        lemma_dict_lookup_push(s.drop_first(), c, d);
        assert(sp.drop_first() =~= s.drop_first().push(c));
        assert(dict_lookup(s, d) == if s[0].digest == d {
            Some(s[0])
        } else {
            dict_lookup(s.drop_first(), d)
        });
    }
}

/// The in-memory chunk dictionary: digest to chunk descriptor, first
/// insertion wins.  Constructed empty or loaded from the chunk tables of
/// existing bootstraps.
pub struct ChunkDict {
    entries: Vec<ChunkWrapper>,
}

impl View for ChunkDict {
    type V = Seq<ChunkV>;

    closed spec fn view(&self) -> Seq<ChunkV> {
        self.entries.deep_view()
    }
}

impl ChunkDict {
    /// An empty dictionary.
    pub fn new() -> (d: ChunkDict)
        ensures
            d@ == Seq::<ChunkV>::empty(),
    {
        let d = ChunkDict { entries: Vec::new() };
        proof {
            assert(d@ =~= Seq::<ChunkV>::empty());
        }
        d
    }

    /// Number of descriptors held.
    pub fn len(&self) -> (n: usize)
        ensures
            n == self@.len(),
    {
        self.entries.len()
    }

    /// The first descriptor recorded for `digest`, if any.
    pub fn get_chunk(&self, digest: &[u8]) -> (r: Option<&ChunkWrapper>)
        ensures
            match dict_lookup(self@, digest@) {
                Some(c) => r matches Some(e) && e@ == c,
                None => r is None,
            },
    {
        let n = self.entries.len();
        let mut i: usize = 0;
        proof {
            assert(self@.skip(0) =~= self@);
        }
        while i < n
            invariant
                i <= n,
                n == self.entries@.len(),
                self@ == self.entries.deep_view(),
                self@.len() == n,
                dict_lookup(self@, digest@) == dict_lookup(self@.skip(i as int), digest@),
            decreases n - i,
        {
            proof {
                assert(self@[i as int] == self.entries@[i as int]@);
                assert(self@.skip(i as int)[0] == self@[i as int]);
                assert(self@.skip(i as int).drop_first() =~= self@.skip(i as int + 1));
            }
            if crate::node::bytes_eq(self.entries[i].digest.as_slice(), digest) {
                return Some(&self.entries[i]);
            }
            i = i + 1;
        }
        proof {
            assert(self@.skip(n as int) =~= Seq::<ChunkV>::empty());
        }
        None
    }

    /// Record a descriptor for its digest.  A digest already present keeps
    /// its existing descriptor: the first insertion wins, so a dictionary
    /// never holds two entries for one digest.
    pub fn add_chunk(&mut self, chunk: ChunkWrapper)
        ensures
            final(self)@ == if dict_lookup(old(self)@, chunk@.digest) is Some {
                old(self)@
            } else {
                old(self)@.push(chunk@)
            },
    {
        let known = self.get_chunk(chunk.digest.as_slice()).is_some();
        if !known {
            self.entries.push(chunk);
            proof {
                assert(self@ =~= old(self)@.push(chunk@));
            }
        }
    }
}

} // verus!
