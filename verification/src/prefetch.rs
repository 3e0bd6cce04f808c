//! The prefetch planner: which blob ranges are warmed into the cache at
//! mount time.  Resolved spans are coalesced so that ranges that touch each
//! other inside one blob become a single read.

use vstd::prelude::*;

verus! {

/// Where prefetch hints live.
#[derive(PartialEq, Eq, Structural, Clone, Copy, Debug)]
pub enum PrefetchPolicy {
    /// No prefetching.
    Disabled,
    /// The bootstrap carries a prefetch table.
    Fs,
    /// The data blob itself is laid out with hot chunks first.
    Blob,
}

/// A blob range to warm: the blob, the first byte, and the byte past the
/// end.
#[verifier::ext_equal]
pub ghost struct SpanV {
    pub blob_index: u32,
    pub start: u64,
    pub end: u64,
}

/// One span folded onto a coalesced list: a span that starts exactly where
/// the last one ends, in the same blob, extends it; anything else is
/// appended.
pub open spec fn spec_coalesce_step(acc: Seq<SpanV>, x: SpanV) -> Seq<SpanV> {
    if acc.len() > 0 && acc.last().blob_index == x.blob_index && acc.last().end == x.start {
        acc.update(acc.len() - 1, SpanV { end: x.end, ..acc.last() })
    } else {
        acc.push(x)
    }
}

/// A list of spans coalesced left to right.
pub open spec fn spec_coalesce(acc: Seq<SpanV>, s: Seq<SpanV>) -> Seq<SpanV>
    decreases s,
{
    if s.len() == 0 {
        acc
    } else {
        spec_coalesce(spec_coalesce_step(acc, s[0]), s.drop_first())
    }
}

/// Coalesce prefetch spans `(blob_index, compressed_offset, compressed_size)`
/// in order: spans that touch inside one blob merge into one range.
#[verifier::rlimit(100)]
#[verifier::loop_isolation(false)]
pub fn coalesce_spans(spans: &Vec<(u32, u64, u32)>) -> (r: Vec<(u32, u64, u64)>)
    requires
        forall|i: int|
            0 <= i < spans@.len() ==> (#[trigger] spans@[i]).1 + spans@[i].2 <= u64::MAX,
    ensures
        r@.len() <= spans@.len(),
        Seq::new(r@.len(), |i: int| SpanV {
            blob_index: r@[i].0,
            start: r@[i].1,
            end: r@[i].2,
        }) == spec_coalesce(
            Seq::empty(),
            Seq::new(spans@.len(), |i: int| SpanV {
                blob_index: spans@[i].0,
                start: spans@[i].1,
                end: (spans@[i].1 + spans@[i].2) as u64,
            }),
        ),
{
    let ghost input = Seq::new(spans@.len(), |i: int| SpanV {
        blob_index: spans@[i].0,
        start: spans@[i].1,
        end: (spans@[i].1 + spans@[i].2) as u64,
    });
    let mut out: Vec<(u32, u64, u64)> = Vec::new();
    let n = spans.len();
    let mut i: usize = 0;
    proof {
        assert(input.skip(0) =~= input);
        assert(Seq::new(out@.len(), |q: int| SpanV {
            blob_index: out@[q].0,
            start: out@[q].1,
            end: out@[q].2,
        }) =~= Seq::<SpanV>::empty());
    }
    while i < n
        invariant
            i <= n,
            n == spans@.len(),
            out@.len() <= i,
            spec_coalesce(
                Seq::new(out@.len(), |q: int| SpanV {
                    blob_index: out@[q].0,
                    start: out@[q].1,
                    end: out@[q].2,
                }),
                input.skip(i as int),
            ) == spec_coalesce(Seq::empty(), input),
        decreases n - i,
    {
        let ghost outv = Seq::new(out@.len(), |q: int| SpanV {
            blob_index: out@[q].0,
            start: out@[q].1,
            end: out@[q].2,
        });
        let (b, off, len) = spans[i];
        let end: u64 = off + len as u64;
        proof {
            assert(input.skip(i as int)[0] == input[i as int]);
            assert(input[i as int] == SpanV { blob_index: b, start: off, end: end });
            assert(input.skip(i as int).drop_first() =~= input.skip(i as int + 1));
        }
        let m = out.len();
        let mut merged = false;
        if m > 0 {
            let last = out[m - 1];
            if last.0 == b && last.2 == off {
                out.set(m - 1, (last.0, last.1, end));
                merged = true;
            }
        }
        if !merged {
            out.push((b, off, end));
        }
        proof {
            let outv2 = Seq::new(out@.len(), |q: int| SpanV {
                blob_index: out@[q].0,
                start: out@[q].1,
                end: out@[q].2,
            });
            assert(outv2 =~= spec_coalesce_step(outv, input[i as int]));
        }
        i = i + 1;
    }
    proof {
        assert(input.skip(n as int) =~= Seq::<SpanV>::empty());
    }
    out
}

/// Plan the prefetch for one image: no ranges when prefetching is disabled,
/// otherwise the resolved spans coalesced.  Under the blob-level policy the
/// same ranges tell the builder which chunks to lay out first.
pub fn plan_prefetch(policy: PrefetchPolicy, spans: &Vec<(u32, u64, u32)>) -> (r: Vec<
    (u32, u64, u64),
>)
    requires
        forall|i: int|
            0 <= i < spans@.len() ==> (#[trigger] spans@[i]).1 + spans@[i].2 <= u64::MAX,
    ensures
        policy == PrefetchPolicy::Disabled ==> r@.len() == 0,
        policy != PrefetchPolicy::Disabled ==> Seq::new(r@.len(), |i: int| SpanV {
            blob_index: r@[i].0,
            start: r@[i].1,
            end: r@[i].2,
        }) == spec_coalesce(
            Seq::empty(),
            Seq::new(spans@.len(), |i: int| SpanV {
                blob_index: spans@[i].0,
                start: spans@[i].1,
                end: (spans@[i].1 + spans@[i].2) as u64,
            }),
        ),
{
    match policy {
        PrefetchPolicy::Disabled => Vec::new(),
        _ => coalesce_spans(spans),
    }
}

} // verus!
