//! The build pipeline: split every regular file into chunks, deduplicate
//! them against the dictionary, append new chunks to the data blob, number
//! the merged tree's inodes depth-first, and serialize the result as a
//! bootstrap.
//!
//! Every step is a function of its inputs: building the same source twice
//! yields byte-identical bootstrap and blob bytes.

use vstd::prelude::*;

use crate::blob::BlobContext;
use crate::chunk::{dict_lookup, spec_chunk_count, ChunkDict};
use crate::compress::{stored_of, Compressor};
use crate::digest::{digest_of, Digester};
use crate::node::{ChunkV, ChunkWrapper, NodeV};
use crate::tree::{spec_dict_add, tree_min_wf, tree_view, Tree, TreeV};
use crate::{RafsError, RafsResult};

verus! {

/// Mathematical model of a data blob being written.
#[verifier::ext_equal]
pub ghost struct BlobCtxV {
    pub blob_index: u32,
    pub data: Seq<u8>,
    pub uncompressed_offset: u64,
    pub chunks: Seq<ChunkV>,
}

impl View for BlobContext {
    type V = BlobCtxV;

    open spec fn view(&self) -> BlobCtxV {
        BlobCtxV {
            blob_index: self.blob_index,
            data: self.data@,
            uncompressed_offset: self.uncompressed_offset,
            chunks: self.chunks.deep_view(),
        }
    }
}

/// The blob and descriptor a stored chunk leaves behind, if its sizes fit
/// the descriptor fields.
pub open spec fn spec_store_chunk(
    b: BlobCtxV,
    data: Seq<u8>,
    dig: Seq<u8>,
    file_offset: u64,
    c: Compressor,
) -> Option<(BlobCtxV, ChunkV)> {
    let (stored, is_comp) = stored_of(c, data);
    if stored.len() <= u32::MAX && b.chunks.len() < u32::MAX && b.uncompressed_offset + data.len()
        <= u64::MAX && b.data.len() + stored.len() <= u64::MAX {
        let ck = ChunkV {
            digest: dig,
            blob_index: b.blob_index,
            chunk_index: b.chunks.len() as u32,
            compressed_offset: b.data.len() as u64,
            compressed_size: stored.len() as u32,
            uncompressed_offset: b.uncompressed_offset,
            uncompressed_size: data.len() as u32,
            file_offset: file_offset,
            flags: if is_comp {
                crate::node::CHUNK_FLAG_COMPRESSED
            } else {
                0
            },
        };
        Some(
            (
                BlobCtxV {
                    blob_index: b.blob_index,
                    data: b.data + stored,
                    uncompressed_offset: (b.uncompressed_offset + data.len()) as u64,
                    chunks: b.chunks.push(ck),
                },
                ck,
            ),
        )
    } else {
        None
    }
}

/// The dictionary, blob and descriptor one deduplicated chunk yields: a hit
/// reuses the stored descriptor with only the file position changed and
/// writes nothing; a miss stores the chunk and records it.
pub open spec fn spec_dedup(
    d: Seq<ChunkV>,
    b: BlobCtxV,
    data: Seq<u8>,
    alg: Digester,
    c: Compressor,
    file_offset: u64,
) -> Option<(Seq<ChunkV>, BlobCtxV, ChunkV)> {
    let dg = digest_of(alg, data);
    match dict_lookup(d, dg) {
        Some(e) => Some((d, b, ChunkV { file_offset: file_offset, ..e })),
        None => match spec_store_chunk(b, data, dg, file_offset, c) {
            Some((b2, ck)) => Some((spec_dict_add(d, ck), b2, ck)),
            None => None,
        },
    }
}

/// The dictionary, blob and chunk list a regular file's contents leave
/// behind, chunk by chunk from span `i` on.
pub open spec fn spec_chunk_file(
    d: Seq<ChunkV>,
    b: BlobCtxV,
    data: Seq<u8>,
    chunk_size: u32,
    alg: Digester,
    c: Compressor,
    i: int,
) -> Option<(Seq<ChunkV>, BlobCtxV, Seq<ChunkV>)>
    decreases spec_chunk_count(data.len() as int, chunk_size as int) - i,
{
    let n = spec_chunk_count(data.len() as int, chunk_size as int);
    if i < 0 || i >= n {
        Some((d, b, Seq::empty()))
    } else {
        let off = i * (chunk_size as int);
        let len = if i == n - 1 {
            data.len() - off
        } else {
            chunk_size as int
        };
        let piece = data.subrange(off, off + len);
        match spec_dedup(d, b, piece, alg, c, off as u64) {
            Some((d2, b2, ck)) => match spec_chunk_file(d2, b2, data, chunk_size, alg, c, i + 1) {
                Some((d3, b3, cks)) => Some((d3, b3, seq![ck] + cks)),
                None => None,
            },
            None => None,
        }
    }
}

/// Copy `data[off .. off + len]` into a fresh vector.
pub fn slice_part(data: &[u8], off: usize, len: usize) -> (r: Vec<u8>)
    requires
        off + len <= data@.len(),
    ensures
        r@ == data@.subrange(off as int, off as int + len as int),
{
    let mut r: Vec<u8> = Vec::new();
    let dlen = data.len();
    let mut i: usize = 0;
    while i < len
        invariant
            i <= len,
            off + len <= dlen,
            dlen == data@.len(),
            r@ == data@.subrange(off as int, off as int + i as int),
        decreases len - i,
    {
        r.push(data[off + i]);
        assert(r@ =~= data@.subrange(off as int, off as int + i + 1));
        i = i + 1;
    }
    r
}

/// Split a regular file's contents into chunks and store each through the
/// dictionary: the resulting descriptors tile the file, and identical
/// content already known to the dictionary is reused without writing blob
/// bytes.
#[verifier::rlimit(100)]
#[verifier::loop_isolation(false)]
pub fn chunk_file(
    dict: &mut ChunkDict,
    blob: &mut BlobContext,
    data: &[u8],
    chunk_size: u32,
    alg: Digester,
    comp: Compressor,
) -> (r: RafsResult<Vec<ChunkWrapper>>)
    requires
        chunk_size >= crate::chunk::RAFS_MIN_CHUNK_SIZE,
        data@.len() <= u32::MAX,
    ensures
        match spec_chunk_file(old(dict)@, old(blob)@, data@, chunk_size, alg, comp, 0) {
            Some(pr) => {
                &&& r matches Ok(v) && v.deep_view() == pr.2
                &&& final(dict)@ == pr.0
                &&& final(blob)@ == pr.1
            },
            None => r is Err,
        },
{
    proof {
        vstd::arithmetic::div_mod::lemma_div_is_ordered_by_denominator(
            data@.len() as int,
            crate::chunk::RAFS_MIN_CHUNK_SIZE as int,
            chunk_size as int,
        );
        assert(data@.len() as int / (crate::chunk::RAFS_MIN_CHUNK_SIZE as int) < usize::MAX)
            by (nonlinear_arith)
            requires
                data@.len() <= u32::MAX,
        ;
    }
    let spans = crate::chunk::split_chunks(data.len() as u64, chunk_size);
    let ghost d0 = dict@;
    let ghost b0 = blob@;
    let ghost n = spec_chunk_count(data@.len() as int, chunk_size as int);
    let mut out: Vec<ChunkWrapper> = Vec::new();
    let mut i: usize = 0;
    proof {
        match spec_chunk_file(d0, b0, data@, chunk_size, alg, comp, 0) {
            Some(pr) => {
                assert(out.deep_view() + pr.2 =~= pr.2);
            },
            None => {},
        }
    }
    while i < spans.len()
        invariant
            i <= spans@.len(),
            spans@.len() == n,
            out@.len() == i,
            match spec_chunk_file(dict@, blob@, data@, chunk_size, alg, comp, i as int) {
                Some(pr) => spec_chunk_file(d0, b0, data@, chunk_size, alg, comp, 0) == Some(
                    (pr.0, pr.1, out.deep_view() + pr.2),
                ),
                None => spec_chunk_file(d0, b0, data@, chunk_size, alg, comp, 0) is None,
            },
        decreases spans@.len() - i,
    {
        let ghost dict_b = dict@;
        let ghost blob_b = blob@;
        let (off, len) = spans[i];
        proof {
            assert(spans@[i as int].0 == i as int * (chunk_size as int));
            assert(spans@[i as int].1 <= chunk_size);
            if i as int == n - 1 {
                assert(spans@[i as int].1 == data@.len() - i as int * (chunk_size as int));
            } else {
                assert(spans@[i as int].1 == chunk_size);
            }
            vstd::arithmetic::mul::lemma_mul_nonnegative(i as int, chunk_size as int);
            assert(off as int + len as int <= data@.len()) by {
                crate::chunk::lemma_spans_in_file(data@.len() as int, chunk_size as int, i as int);
            }
        }
        let piece = slice_part(data, off as usize, len as usize);
        let ghost offi = i as int * (chunk_size as int);
        let ghost leni: int = if i as int == n - 1 {
            data@.len() - offi
        } else {
            chunk_size as int
        };
        let ghost piece_s = data@.subrange(offi, offi + leni);
        proof {
            assert(piece@ == piece_s);
            assert(off as int == offi);
        }
        match crate::blob::deduplicate_chunk(dict, blob, piece.as_slice(), alg, comp, off) {
            Ok(ck) => {
                let ghost ckv = ck@;
                proof {
                    let dg = digest_of(alg, piece_s);
                    match dict_lookup(dict_b, dg) {
                        Some(e) => {
                            assert(spec_dedup(dict_b, blob_b, piece_s, alg, comp, off) == Some(
                                (dict@, blob@, ckv),
                            ));
                        },
                        None => {
                            let st = spec_store_chunk(blob_b, piece_s, dg, off, comp);
                            assert(st is Some);
                            assert(blob@ =~= st->Some_0.0);
                            assert(ckv == st->Some_0.1);
                            assert(dict@ == spec_dict_add(dict_b, ckv));
                            assert(spec_dedup(dict_b, blob_b, piece_s, alg, comp, off) == Some(
                                (dict@, blob@, ckv),
                            ));
                        },
                    }
                }
                out.push(ck);
                proof {
                    match spec_chunk_file(dict@, blob@, data@, chunk_size, alg, comp, i as int + 1) {
                        Some(pr2) => {
                            assert(out.deep_view() =~= out.deep_view().drop_last().push(ckv));
                            assert(out.deep_view().drop_last() + (seq![ckv] + pr2.2)
                                =~= out.deep_view() + pr2.2);
                        },
                        None => {},
                    }
                }
            },
            Err(e) => {
                proof {
                    let dg = digest_of(alg, piece_s);
                    match dict_lookup(dict_b, dg) {
                        Some(e2) => {},
                        None => {
                            assert(spec_store_chunk(blob_b, piece_s, dg, off, comp) is None);
                            assert(spec_dedup(dict_b, blob_b, piece_s, alg, comp, off) is None);
                        },
                    }
                }
                return Err(e);
            },
        }
        i = i + 1;
    }
    proof {
        assert(spec_chunk_file(dict@, blob@, data@, chunk_size, alg, comp, n as int) == Some(
            (dict@, blob@, Seq::<ChunkV>::empty()),
        ));
        assert(out.deep_view() + Seq::<ChunkV>::empty() =~= out.deep_view());
    }
    Ok(out)
}


/// Number of nodes in a tree model.
pub open spec fn tree_count(t: TreeV) -> nat
    decreases t,
{
    1 + forest_count(t.children)
}

/// Number of nodes in a forest model.
pub open spec fn forest_count(s: Seq<TreeV>) -> nat
    decreases s,
{
    if s.len() == 0 {
        0
    } else {
        tree_count(s[0]) + forest_count(s.drop_first())
    }
}

proof fn lemma_forest_count_split(s: Seq<TreeV>, i: int)
    requires
        0 <= i <= s.len(),
    ensures
        forest_count(s) == forest_count(s.take(i)) + forest_count(s.skip(i)),
    decreases i,
{
    if i == 0 {
        assert(s.take(0) =~= Seq::<TreeV>::empty());
        assert(s.skip(0) =~= s);
    } else {
        lemma_forest_count_split(s.drop_first(), i - 1);
        assert(s.take(i).drop_first() =~= s.drop_first().take(i - 1));
        assert(s.skip(i) =~= s.drop_first().skip(i - 1));
        assert(s.take(i)[0] == s[0]);
        assert(forest_count(s.take(i)) == tree_count(s[0]) + forest_count(
            s.drop_first().take(i - 1),
        ));
    }
}

/// Most inodes one image may hold.
pub const MAX_INODES: u64 = 0x1_0000_0000;

/// Count the nodes of a tree; a tree with more than `MAX_INODES` nodes is
/// refused, as its inode numbers could not be assigned.
pub fn count_nodes(t: &Tree) -> (r: RafsResult<u64>)
    ensures
        match r {
            Ok(c) => c == tree_count(t@) && c <= MAX_INODES,
            Err(_) => tree_count(t@) > MAX_INODES,
        },
    decreases *t,
{
    let mut acc: u64 = 1;
    let n = t.children.len();
    let ghost kids = t@.children;
    let mut i: usize = 0;
    proof {
        assert(kids.take(0) =~= Seq::<TreeV>::empty());
    }
    while i < n
        invariant
            i <= n,
            n == t.children@.len(),
            kids == t@.children,
            kids.len() == n,
            acc == 1 + forest_count(kids.take(i as int)),
            acc <= MAX_INODES,
        decreases n - i,
    {
        proof {
            assert(t@.children[i as int] == tree_view(t.children@[i as int]));
            lemma_forest_count_split(kids, i as int);
            assert(kids.skip(i as int)[0] == kids[i as int]);
            assert(kids.skip(i as int).drop_first() =~= kids.skip(i as int + 1));
        }
        let c = match count_nodes(&t.children[i]) {
            Ok(c) => c,
            Err(e) => {
                proof {
                    lemma_forest_count_split(kids, i as int + 1);
                    assert(kids.take(i as int + 1).drop_last() =~= kids.take(i as int));
                    assert(kids.take(i as int + 1).last() == kids[i as int]);
                    lemma_forest_count_split(kids.take(i as int + 1), i as int);
                    assert(kids.take(i as int + 1).take(i as int) =~= kids.take(i as int));
                    assert(kids.take(i as int + 1).skip(i as int) =~= seq![kids[i as int]]);
                    assert(forest_count(seq![kids[i as int]]) == tree_count(kids[i as int])) by {
                        assert(seq![kids[i as int]].drop_first() =~= Seq::<TreeV>::empty());
                    }
                }
                return Err(e);
            },
        };
        proof {
            lemma_forest_count_split(kids, i as int + 1);
            lemma_forest_count_split(kids.take(i as int + 1), i as int);
            assert(kids.take(i as int + 1).take(i as int) =~= kids.take(i as int));
            assert(kids.take(i as int + 1).skip(i as int) =~= seq![kids[i as int]]);
            assert(forest_count(seq![kids[i as int]]) == tree_count(kids[i as int])) by {
                assert(seq![kids[i as int]].drop_first() =~= Seq::<TreeV>::empty());
            }
        }
        if c > MAX_INODES - acc {
            proof {
                lemma_forest_count_split(kids, i as int + 1);
            }
            return Err(RafsError::Unsupported);
        }
        acc = acc + c;
        i = i + 1;
    }
    proof {
        assert(kids.take(n as int) =~= kids);
    }
    Ok(acc)
}

/// The inode numbers a directory's children receive: depth-first, each child
/// taking the numbers of its whole subtree before the next begins.
pub open spec fn spec_kid_inos(s: Seq<TreeV>, next: int) -> Seq<u64>
    decreases s,
{
    if s.len() == 0 {
        Seq::empty()
    } else {
        seq![next as u64] + spec_kid_inos(s.drop_first(), next + tree_count(s[0]))
    }
}

/// The stored inode a node becomes: with `repeatable` the timestamp is
/// pinned to zero so identical inputs give identical images.
pub open spec fn rec_of_node(
    n: NodeV,
    ino: int,
    parent: int,
    kid_inos: Seq<u64>,
    repeatable: bool,
) -> crate::bootstrap::InodeRecordV {
    crate::bootstrap::InodeRecordV {
        ino: ino as u64,
        parent: parent as u64,
        name: n.name(),
        mode: n.mode,
        uid: n.uid,
        gid: n.gid,
        mtime: if repeatable {
            0
        } else {
            n.mtime
        },
        nlink: n.nlink,
        size: n.size,
        rdev: n.rdev,
        symlink: n.symlink,
        xattrs: n.xattrs,
        children: kid_inos,
        chunks: n.chunks,
    }
}

/// The records a tree emits, depth first, when its root receives inode
/// number `ino` under parent `parent`.
pub open spec fn spec_emit(t: TreeV, ino: int, parent: int, repeatable: bool) -> Seq<
    crate::bootstrap::InodeRecordV,
>
    decreases t,
{
    seq![rec_of_node(t.node, ino, parent, spec_kid_inos(t.children, ino + 1), repeatable)]
        + spec_emit_forest(t.children, ino + 1, ino, repeatable)
}

/// The records a forest emits, depth first, starting at inode number `next`.
pub open spec fn spec_emit_forest(s: Seq<TreeV>, next: int, parent: int, repeatable: bool) -> Seq<
    crate::bootstrap::InodeRecordV,
>
    decreases s,
{
    if s.len() == 0 {
        Seq::empty()
    } else {
        spec_emit(s[0], next, parent, repeatable) + spec_emit_forest(
            s.drop_first(),
            next + tree_count(s[0]),
            parent,
            repeatable,
        )
    }
}

/// Emit the records of tree `t`, whose root receives inode number `ino`
/// under parent number `parent`, appending to `out`.
#[verifier::rlimit(100)]
#[verifier::loop_isolation(false)]
pub fn emit_tree(
    t: &Tree,
    ino: u64,
    parent: u64,
    repeatable: bool,
    out: &mut Vec<crate::bootstrap::InodeRecord>,
)
    requires
        1 <= ino,
        ino + tree_count(t@) <= MAX_INODES + 1,
        tree_min_wf(t@),
    ensures
        final(out).deep_view() == old(out).deep_view() + spec_emit(
            t@,
            ino as int,
            parent as int,
            repeatable,
        ),
    decreases *t,
{
    let ghost kids = t@.children;
    proof {
        assert(tree_count(t@) == 1 + forest_count(kids));
        assert(t@.node.wf() && forall|q: int|
            0 <= q < kids.len() ==> tree_min_wf(#[trigger] kids[q]));
    }
    // Number the children: each takes its subtree's range.
    let mut kid_inos: Vec<u64> = Vec::new();
    let n = t.children.len();
    let mut next: u64 = ino + 1;
    let mut i: usize = 0;
    proof {
        assert(kids.take(0) =~= Seq::<TreeV>::empty());
        assert(forest_count(kids.take(0)) == 0);
        assert(kids.skip(0) =~= kids);
        assert(kid_inos@ + spec_kid_inos(kids, ino + 1) =~= spec_kid_inos(kids, ino + 1));
    }
    while i < n
        invariant
            i <= n,
            n == t.children@.len(),
            kids == t@.children,
            kids.len() == n,
            next == ino + 1 + forest_count(kids.take(i as int)),
            ino + 1 + forest_count(kids) <= MAX_INODES + 1,
            kid_inos@.len() == i,
            spec_kid_inos(kids, ino + 1) == kid_inos@ + spec_kid_inos(
                kids.skip(i as int),
                next as int,
            ),
        decreases n - i,
    {
        let ghost old_kid_inos = kid_inos@;
        let ghost next0 = next as int;
        proof {
            assert(t@.children[i as int] == tree_view(t.children@[i as int]));
            lemma_forest_count_split(kids, i as int);
            assert(kids.skip(i as int)[0] == kids[i as int]);
            assert(kids.skip(i as int).drop_first() =~= kids.skip(i as int + 1));
            lemma_forest_count_split(kids, i as int + 1);
            lemma_forest_count_split(kids.take(i as int + 1), i as int);
            assert(kids.take(i as int + 1).take(i as int) =~= kids.take(i as int));
            assert(kids.take(i as int + 1).skip(i as int) =~= seq![kids[i as int]]);
            assert(forest_count(seq![kids[i as int]]) == tree_count(kids[i as int])) by {
                assert(seq![kids[i as int]].drop_first() =~= Seq::<TreeV>::empty());
            }
        }
        kid_inos.push(next);
        let c = match count_nodes(&t.children[i]) {
            Ok(c) => c,
            Err(_) => {
                proof {
                    assert(tree_count(kids[i as int]) <= forest_count(kids));
                    assert(false);
                }
                vstd::pervasive::unreached()
            },
        };
        proof {
            assert(spec_kid_inos(kids.skip(i as int), next0) == seq![next0 as u64]
                + spec_kid_inos(kids.skip(i as int + 1), next0 + tree_count(kids[i as int])));
            assert(old_kid_inos + (seq![next0 as u64] + spec_kid_inos(
                kids.skip(i as int + 1),
                next0 + tree_count(kids[i as int]),
            )) =~= kid_inos@ + spec_kid_inos(
                kids.skip(i as int + 1),
                next0 + tree_count(kids[i as int]),
            ));
        }
        next = next + c;
        i = i + 1;
    }
    proof {
        assert(kids.take(n as int) =~= kids);
        assert(kids.skip(n as int) =~= Seq::<TreeV>::empty());
        assert(spec_kid_inos(Seq::<TreeV>::empty(), next as int) =~= Seq::<u64>::empty());
        assert(kid_inos@ + Seq::<u64>::empty() =~= kid_inos@);
        assert(kid_inos@ == spec_kid_inos(kids, ino + 1));
    }
    // Emit this node's record.
    let name = crate::node::clone_bytes(t.node.name());
    let rec = crate::bootstrap::InodeRecord {
        ino,
        parent,
        name,
        mode: t.node.mode,
        uid: t.node.uid,
        gid: t.node.gid,
        mtime: if repeatable {
            0
        } else {
            t.node.mtime
        },
        nlink: t.node.nlink,
        size: t.node.size,
        rdev: t.node.rdev,
        symlink: crate::node::clone_opt_bytes(&t.node.symlink),
        xattrs: crate::node::clone_xattrs(&t.node.xattrs),
        children: kid_inos,
        chunks: crate::node::clone_chunks(&t.node.chunks),
    };
    let ghost recv = rec_of_node(
        t@.node,
        ino as int,
        parent as int,
        spec_kid_inos(kids, ino + 1),
        repeatable,
    );
    proof {
        assert(rec@ =~= recv);
    }
    let ghost base = out.deep_view();
    out.push(rec);
    proof {
        assert(out.deep_view() =~= base + seq![recv]);
    }
    // Emit the subtrees.
    let ghost base1 = out.deep_view();
    let mut next2: u64 = ino + 1;
    let mut j: usize = 0;
    proof {
        assert(kids.take(0) =~= Seq::<TreeV>::empty());
        assert(forest_count(kids.take(0)) == 0);
        assert(spec_emit_forest(kids.take(0), ino + 1, ino as int, repeatable) =~= Seq::<
            crate::bootstrap::InodeRecordV,
        >::empty());
        assert(base1 + Seq::<crate::bootstrap::InodeRecordV>::empty() =~= base1);
    }
    while j < n
        invariant
            j <= n,
            n == t.children@.len(),
            kids == t@.children,
            kids.len() == n,
            1 <= ino,
            next2 == ino + 1 + forest_count(kids.take(j as int)),
            ino + 1 + forest_count(kids) <= MAX_INODES + 1,
            forall|q: int| 0 <= q < kids.len() ==> tree_min_wf(#[trigger] kids[q]),
            out.deep_view() == base1 + spec_emit_forest(
                kids.take(j as int),
                ino + 1,
                ino as int,
                repeatable,
            ),
            base1 == old(out).deep_view() + seq![recv],
        decreases n - j,
    {
        proof {
            assert(t@.children[j as int] == tree_view(t.children@[j as int]));
            lemma_forest_count_split(kids, j as int);
            lemma_forest_count_split(kids, j as int + 1);
            lemma_forest_count_split(kids.take(j as int + 1), j as int);
            assert(kids.take(j as int + 1).take(j as int) =~= kids.take(j as int));
            assert(kids.take(j as int + 1).skip(j as int) =~= seq![kids[j as int]]);
            assert(forest_count(seq![kids[j as int]]) == tree_count(kids[j as int])) by {
                assert(seq![kids[j as int]].drop_first() =~= Seq::<TreeV>::empty());
            }
            assert(tree_min_wf(kids[j as int]));
        }
        emit_tree(&t.children[j], next2, ino, repeatable, out);
        let c = match count_nodes(&t.children[j]) {
            Ok(c) => c,
            Err(_) => {
                proof {
                    assert(tree_count(kids[j as int]) <= forest_count(kids));
                    assert(false);
                }
                vstd::pervasive::unreached()
            },
        };
        proof {
            lemma_emit_forest_snoc(kids, j as int, ino + 1, ino as int, repeatable);
        }
        next2 = next2 + c;
        j = j + 1;
    }
    proof {
        assert(kids.take(n as int) =~= kids);
        assert(out.deep_view() =~= old(out).deep_view() + spec_emit(
            t@,
            ino as int,
            parent as int,
            repeatable,
        ));
    }
}

proof fn lemma_emit_forest_snoc(s: Seq<TreeV>, j: int, next0: int, parent: int, rep: bool)
    requires
        0 <= j < s.len(),
    ensures
        spec_emit_forest(s.take(j + 1), next0, parent, rep) == spec_emit_forest(
            s.take(j),
            next0,
            parent,
            rep,
        ) + spec_emit(s[j], next0 + forest_count(s.take(j)), parent, rep),
    decreases j,
{
    if j == 0 {
        assert(s.take(0) =~= Seq::<TreeV>::empty());
        assert(s.take(1) =~= seq![s[0]]);
        assert(seq![s[0]].drop_first() =~= Seq::<TreeV>::empty());
        assert(seq![s[0]][0] == s[0]);
        assert(forest_count(s.take(0)) == 0);
        assert(spec_emit_forest(Seq::<TreeV>::empty(), next0 + tree_count(s[0]), parent, rep)
            =~= Seq::<crate::bootstrap::InodeRecordV>::empty());
        assert(spec_emit_forest(seq![s[0]], next0, parent, rep) == spec_emit(
            s[0],
            next0,
            parent,
            rep,
        ) + spec_emit_forest(Seq::<TreeV>::empty(), next0 + tree_count(s[0]), parent, rep));
        assert(spec_emit_forest(s.take(1), next0, parent, rep) =~= spec_emit_forest(
            s.take(0),
            next0,
            parent,
            rep,
        ) + spec_emit(s[0], next0, parent, rep));
    } else {
        lemma_emit_forest_snoc(s.drop_first(), j - 1, next0 + tree_count(s[0]), parent, rep);
        assert(s.take(j + 1).drop_first() =~= s.drop_first().take(j));
        assert(s.take(j).drop_first() =~= s.drop_first().take(j - 1));
        assert(s.take(j + 1)[0] == s[0]);
        assert(s.take(j)[0] == s[0]);
        assert(s.drop_first()[j - 1] == s[j]);
        assert(forest_count(s.take(j)) == tree_count(s[0]) + forest_count(
            s.drop_first().take(j - 1),
        )) by {
            assert(s.take(j)[0] == s[0]);
            assert(s.take(j).drop_first() =~= s.drop_first().take(j - 1));
        }
        assert(spec_emit_forest(s.take(j + 1), next0, parent, rep) =~= spec_emit_forest(
            s.take(j),
            next0,
            parent,
            rep,
        ) + spec_emit(s[j], next0 + forest_count(s.take(j)), parent, rep));
    }
}

/// Serialize a merged tree as a bootstrap: number the inodes depth first
/// with the root at one, emit one record per node, and attach the blob and
/// prefetch tables.  A tree with more than `MAX_INODES` nodes is refused.
pub fn build_bootstrap(
    tree: &Tree,
    version: crate::config::RafsVersion,
    compressor: Compressor,
    digester: Digester,
    explicit_uidgid: bool,
    chunk_size: u32,
    repeatable: bool,
    blobs: Vec<crate::blob::BlobEntry>,
    prefetch: Vec<u64>,
) -> (r: RafsResult<crate::bootstrap::RafsSuper>)
    requires
        tree_min_wf(tree@),
    ensures
        match r {
            Ok(sup) => {
                &&& sup@.inodes == spec_emit(tree@, 1, 1, repeatable)
                &&& sup@.version == version
                &&& sup@.compressor == compressor
                &&& sup@.digester == digester
                &&& sup@.explicit_uidgid == explicit_uidgid
                &&& sup@.chunk_size == chunk_size
                &&& sup@.blobs == blobs.deep_view()
                &&& sup@.prefetch == prefetch@
            },
            Err(_) => tree_count(tree@) > MAX_INODES,
        },
{
    let count = match count_nodes(tree) {
        Ok(c) => c,
        Err(e) => {
            return Err(e);
        },
    };
    proof {
        assert(count == tree_count(tree@) && count <= MAX_INODES);
    }
    let mut inodes: Vec<crate::bootstrap::InodeRecord> = Vec::new();
    emit_tree(tree, 1, 1, repeatable, &mut inodes);
    proof {
        assert(inodes.deep_view() =~= spec_emit(tree@, 1, 1, repeatable));
    }
    let meta = crate::bootstrap::RafsSuperMeta {
        version,
        compressor,
        digester,
        explicit_uidgid,
        chunk_size,
        inodes_hint: inodes.len() as u64,
        blobs_hint: blobs.len() as u64,
        prefetch_hint: prefetch.len() as u64,
    };
    Ok(crate::bootstrap::RafsSuper { meta, inodes, blobs, prefetch })
}

/// Determinism of the build: the pipeline is a function of the source bytes
/// and options alone, so two builds of equal sources produce equal chunk
/// tables, equal blob bytes and, through the serializer, byte-identical
/// bootstraps.
pub proof fn lemma_build_deterministic(
    d: Seq<ChunkV>,
    b: BlobCtxV,
    data1: Seq<u8>,
    data2: Seq<u8>,
    chunk_size: u32,
    alg: Digester,
    c: Compressor,
    m1: crate::bootstrap::SuperV,
    m2: crate::bootstrap::SuperV,
)
    requires
        data1 == data2,
        m1 == m2,
    ensures
        spec_chunk_file(d, b, data1, chunk_size, alg, c, 0) == spec_chunk_file(
            d,
            b,
            data2,
            chunk_size,
            alg,
            c,
            0,
        ),
        crate::bootstrap::enc_bootstrap(m1) == crate::bootstrap::enc_bootstrap(m2),
{
}

} // verus!
