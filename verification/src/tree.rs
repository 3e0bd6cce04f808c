//! An in-memory tree of filesystem nodes and the overlay engine that applies
//! an upper layer onto a lower one.
//!
//! Building the first layer of an image: build the upper tree from the source
//! directory and traverse it to dump the bootstrap and the data blobs.
//! Building a following layer: build the upper tree, load the lower tree from
//! the parent bootstrap, and merge by applying every upper node to the lower
//! tree, honoring the whiteout conventions (deletions and opaque
//! directories); whiteout entries themselves are consumed and never
//! serialized.

use vstd::prelude::*;

use crate::bootstrap::{spec_get_inode, InodeRecord, InodeRecordV, RafsSuper, SuperV};
use crate::chunk::{dict_lookup, ChunkDict};
use crate::node::{
    bytes_eq, is_dir_mode, is_reg_mode, is_symlink_mode, oci_opaque_name, oci_whiteout_prefix,
    ChunkV, Node, NodeV, Overlay, WhiteoutSpec, WhiteoutType,
};
use crate::{RafsError, RafsResult};

verus! {

/// An in-memory tree of filesystem nodes.
pub struct Tree {
    /// The filesystem node at this position.
    pub node: Node,
    /// The subtrees of its children.
    pub children: Vec<Tree>,
}

/// Mathematical model of a tree of nodes.
#[verifier::ext_equal]
pub ghost struct TreeV {
    pub node: NodeV,
    pub children: Seq<TreeV>,
}

/// The model of an in-memory tree.
pub open spec fn tree_view(t: Tree) -> TreeV
    decreases t,
{
    TreeV {
        node: t.node@,
        children: Seq::new(
            t.children@.len(),
            |i: int|
                if 0 <= i < t.children@.len() {
                    tree_view(t.children@[i])
                } else {
                    arbitrary()
                },
        ),
    }
}

impl View for Tree {
    type V = TreeV;

    open spec fn view(&self) -> TreeV {
        tree_view(*self)
    }
}

/// Every node of the tree carries at least the root path component, so that
/// path depths can be compared.
pub open spec fn tree_min_wf(t: TreeV) -> bool
    decreases t,
{
    t.node.wf() && forall|i: int|
        0 <= i < t.children.len() ==> tree_min_wf(#[trigger] t.children[i])
}

/// `n` as the upper layer's replacement of a lower node.
pub open spec fn as_modification(n: NodeV) -> NodeV {
    NodeV { overlay: Overlay::UpperModification, ..n }
}

/// `n` as an addition from the upper layer.
pub open spec fn as_addition(n: NodeV) -> NodeV {
    NodeV { overlay: Overlay::UpperAddition, ..n }
}

/// `n` marked opaque: its lower children are hidden.
pub open spec fn as_opaque(n: NodeV) -> NodeV {
    NodeV { overlay: Overlay::UpperOpaque, ..n }
}

/// One step of the overlay walk: place `target` into the tree `t` as a root
/// modification, a modification of a matching child, or an addition under its
/// parent.  `None` means no matching position was found and the tree is left
/// unchanged.
pub open spec fn spec_apply_walk(t: TreeV, target: NodeV) -> Option<TreeV>
    decreases t,
{
    let tlen = target.target_vec.len() as int;
    let depth = t.node.target_vec.len() as int;
    if tlen == 1 {
        // The upper node is the root itself: replace the root node, keep its
        // children.
        Some(TreeV { node: as_modification(target), children: t.children })
    } else {
        let scanned = if depth < tlen {
            spec_walk_children(t.children, target, depth, tlen)
        } else {
            None
        };
        match scanned {
            Some(cs) => Some(TreeV { node: t.node, children: cs }),
            None => {
                if depth == tlen - 1 && target.target_vec[depth - 1] == t.node.name() {
                    Some(
                        TreeV {
                            node: t.node,
                            children: t.children.push(
                                TreeV { node: as_addition(target), children: Seq::empty() },
                            ),
                        },
                    )
                } else {
                    None
                }
            },
        }
    }
}

/// The walk over a children list: the first child whose name matches the
/// next path component is replaced (at the final component) or descended
/// into; children before the match are kept as they are.
pub open spec fn spec_walk_children(cs: Seq<TreeV>, target: NodeV, depth: int, tlen: int) -> Option<
    Seq<TreeV>,
>
    decreases cs,
{
    if cs.len() == 0 {
        None
    } else {
        let c = cs[0];
        let rest_scan = spec_walk_children(cs.drop_first(), target, depth, tlen);
        let keep_scanning = match rest_scan {
            Some(rest) => Some(seq![c] + rest),
            None => None,
        };
        if target.target_vec[depth] == c.node.name() {
            if depth == tlen - 1 {
                Some(seq![TreeV { node: as_modification(target), children: c.children }]
                    + cs.drop_first())
            } else if is_dir_mode(c.node.mode) {
                match spec_apply_walk(c, target) {
                    Some(c2) => Some(seq![c2] + cs.drop_first()),
                    None => keep_scanning,
                }
            } else {
                keep_scanning
            }
        } else {
            keep_scanning
        }
    }
}

/// The removal walk a whiteout performs: delete the named lower entry, or
/// mark the named directory opaque and drop its children.  `None` means
/// nothing matched and the tree is left unchanged.
pub open spec fn spec_remove(
    t: TreeV,
    target: NodeV,
    wt: WhiteoutType,
    origin_name: Option<Seq<u8>>,
    parent_name: Option<Seq<u8>>,
) -> Option<TreeV>
    decreases t,
{
    let tlen = target.target_vec.len() as int;
    let depth = t.node.target_vec.len() as int;
    if depth >= tlen || t.node.target_vec[depth - 1] != target.target_vec[depth - 1] {
        None
    } else if depth == 1 && ((wt == WhiteoutType::OciOpaque && tlen == 2) || (wt
        == WhiteoutType::OverlayFsOpaque && tlen == 1)) {
        // The opaque marker names the root: the root keeps its node, marked
        // opaque, and loses all lower children.
        Some(TreeV { node: as_opaque(t.node), children: Seq::empty() })
    } else {
        match spec_remove_children(t.children, target, wt, origin_name, parent_name, depth, tlen) {
            Some(cs) => Some(TreeV { node: t.node, children: cs }),
            None => None,
        }
    }
}

/// The removal walk over a children list.
pub open spec fn spec_remove_children(
    cs: Seq<TreeV>,
    target: NodeV,
    wt: WhiteoutType,
    origin_name: Option<Seq<u8>>,
    parent_name: Option<Seq<u8>>,
    depth: int,
    tlen: int,
) -> Option<Seq<TreeV>>
    decreases cs,
{
    if cs.len() == 0 {
        None
    } else {
        let c = cs[0];
        let rest_scan = spec_remove_children(
            cs.drop_first(),
            target,
            wt,
            origin_name,
            parent_name,
            depth,
            tlen,
        );
        let keep_scanning = match rest_scan {
            Some(rest) => Some(seq![c] + rest),
            None => None,
        };
        if depth == tlen - 1 && wt.spec_is_removal() && origin_name == Some(c.node.name()) {
            // A removal whiteout: the whole lower entry goes.
            Some(cs.drop_first())
        } else if wt == WhiteoutType::OciOpaque && tlen >= 2 && depth == tlen - 2 && parent_name
            == Some(c.node.name()) {
            // The opaque marker sits inside this child: mark it opaque and
            // drop its lower children.
            Some(seq![TreeV { node: as_opaque(c.node), children: Seq::empty() }]
                + cs.drop_first())
        } else if wt == WhiteoutType::OverlayFsOpaque && depth == tlen - 1 && target.name()
            == c.node.name() {
            Some(seq![TreeV { node: as_opaque(c.node), children: Seq::empty() }]
                + cs.drop_first())
        } else if is_dir_mode(c.node.mode) {
            match spec_remove(c, target, wt, origin_name, parent_name) {
                Some(c2) => Some(seq![c2] + cs.drop_first()),
                None => keep_scanning,
            }
        } else {
            keep_scanning
        }
    }
}

/// Applying an upper node to a lower tree: whiteouts remove or hide lower
/// entries; other nodes modify or extend the tree.  Returns the merged tree
/// and whether anything matched.
pub open spec fn spec_apply(t: TreeV, target: NodeV, handle_whiteout: bool, ws: WhiteoutSpec) -> (
    TreeV,
    bool,
) {
    let wt_opt = if handle_whiteout {
        target.spec_whiteout_type(ws)
    } else {
        None
    };
    match wt_opt {
        Some(wt) => {
            let origin_name = target.spec_origin_name(wt);
            let parent_name = target.spec_parent_name();
            if wt == WhiteoutType::OverlayFsOpaque {
                // An OverlayFS opaque directory first deletes the lower
                // entry, then replays the upper node in its place.
                let t1 = match spec_remove(t, target, wt, origin_name, parent_name) {
                    Some(x) => x,
                    None => t,
                };
                match spec_apply_walk(t1, target) {
                    Some(t2) => (t2, true),
                    None => (t1, false),
                }
            } else {
                match spec_remove(t, target, wt, origin_name, parent_name) {
                    Some(t1) => (t1, true),
                    None => (t, false),
                }
            }
        },
        None => match spec_apply_walk(t, target) {
            Some(t2) => (t2, true),
            None => (t, false),
        },
    }
}

/// The nodes of the tree in depth-first pre-order.
pub open spec fn spec_preorder(t: TreeV) -> Seq<NodeV>
    decreases t,
{
    seq![t.node] + spec_preorder_seq(t.children)
}

/// The nodes of a forest in depth-first pre-order.
pub open spec fn spec_preorder_seq(s: Seq<TreeV>) -> Seq<NodeV>
    decreases s,
{
    if s.len() == 0 {
        Seq::empty()
    } else {
        spec_preorder(s[0]) + spec_preorder_seq(s.drop_first())
    }
}

proof fn lemma_preorder_seq_push(s: Seq<TreeV>, x: TreeV)
    ensures
        spec_preorder_seq(s.push(x)) == spec_preorder_seq(s) + spec_preorder(x),
    decreases s.len(),
{
    let sp = s.push(x);
    if s.len() == 0 {
        assert(sp[0] == x);
        assert(sp.drop_first() =~= Seq::<TreeV>::empty());
        assert(spec_preorder_seq(sp) == spec_preorder(x) + spec_preorder_seq(
            Seq::<TreeV>::empty(),
        ));
        assert(spec_preorder_seq(s) =~= Seq::<NodeV>::empty());
        assert(spec_preorder_seq(sp) =~= spec_preorder_seq(s) + spec_preorder(x));
    } else {
        lemma_preorder_seq_push(s.drop_first(), x);
        assert(sp.drop_first() =~= s.drop_first().push(x));
        assert(sp[0] == s[0]);
        assert(spec_preorder_seq(sp) == spec_preorder(s[0]) + spec_preorder_seq(
            s.drop_first().push(x),
        ));
        assert(spec_preorder_seq(sp) =~= spec_preorder_seq(s) + spec_preorder(x));
    }
}


/// Height of a tree model: one more than its tallest child.
pub open spec fn tv_height(t: TreeV) -> nat
    decreases t,
{
    1 + forest_height(t.children)
}

/// Height of the tallest tree in a forest.
pub open spec fn forest_height(s: Seq<TreeV>) -> nat
    decreases s,
{
    if s.len() == 0 {
        0
    } else if tv_height(s[0]) >= forest_height(s.drop_first()) {
        tv_height(s[0])
    } else {
        forest_height(s.drop_first())
    }
}

proof fn lemma_forest_height(s: Seq<TreeV>, i: int)
    requires
        0 <= i < s.len(),
    ensures
        tv_height(s[i]) <= forest_height(s),
    decreases s.len(),
{
    if i > 0 {
        lemma_forest_height(s.drop_first(), i - 1);
    }
}

/// The branch of the removal walk that child `c` triggers, if any.
pub open spec fn rc_hit(
    c: TreeV,
    target: NodeV,
    wt: WhiteoutType,
    origin_name: Option<Seq<u8>>,
    parent_name: Option<Seq<u8>>,
    depth: int,
    tlen: int,
) -> bool {
    ||| (depth == tlen - 1 && wt.spec_is_removal() && origin_name == Some(c.node.name()))
    ||| (wt == WhiteoutType::OciOpaque && tlen >= 2 && depth == tlen - 2 && parent_name == Some(
        c.node.name(),
    ))
    ||| (wt == WhiteoutType::OverlayFsOpaque && depth == tlen - 1 && target.name() == c.node.name())
    ||| (is_dir_mode(c.node.mode) && spec_remove(c, target, wt, origin_name, parent_name) is Some)
}


proof fn lemma_walk_children_no_match(cs: Seq<TreeV>, target: NodeV, depth: int, tlen: int)
    requires
        forall|j: int| 0 <= j < cs.len() ==> (#[trigger] cs[j]).node.name() != target.target_vec[depth],
    ensures
        spec_walk_children(cs, target, depth, tlen) is None,
    decreases cs,
{
    if cs.len() > 0 {
        lemma_walk_children_no_match(cs.drop_first(), target, depth, tlen);
    }
}

proof fn lemma_remove_children_no_hit(
    cs: Seq<TreeV>,
    target: NodeV,
    wt: WhiteoutType,
    origin_name: Option<Seq<u8>>,
    parent_name: Option<Seq<u8>>,
    depth: int,
    tlen: int,
)
    requires
        forall|j: int| 0 <= j < cs.len() ==> !rc_hit(
            #[trigger] cs[j],
            target,
            wt,
            origin_name,
            parent_name,
            depth,
            tlen,
        ),
    ensures
        spec_remove_children(cs, target, wt, origin_name, parent_name, depth, tlen) is None,
    decreases cs,
{
    if cs.len() > 0 {
        lemma_remove_children_no_hit(
            cs.drop_first(),
            target,
            wt,
            origin_name,
            parent_name,
            depth,
            tlen,
        );
    }
}

/// Overlay law, additions: applying an upper node whose parent is the root
/// and whose name matches no lower entry appends it, as an addition, after
/// the existing children; everything else is kept.
pub proof fn lemma_apply_addition(t: TreeV, target: NodeV, ws: WhiteoutSpec)
    requires
        t.node.wf(),
        t.node.target_vec.len() == 1,
        target.target_vec.len() == 2,
        target.target_vec[0] == t.node.name(),
        target.spec_whiteout_type(ws) is None,
        forall|j: int| 0 <= j < t.children.len() ==> (#[trigger] t.children[j]).node.name()
            != target.name(),
    ensures
        spec_apply(t, target, true, ws) == (
            TreeV {
                node: t.node,
                children: t.children.push(
                    TreeV { node: as_addition(target), children: Seq::empty() },
                ),
            },
            true,
        ),
{
    assert(target.target_vec[1] == target.name());
    lemma_walk_children_no_match(t.children, target, 1, 2);
}

/// Overlay law, modifications: applying an upper node that names an existing
/// lower entry replaces that entry's node and keeps its children; all other
/// children are untouched.
pub proof fn lemma_apply_modification(t: TreeV, target: NodeV, ws: WhiteoutSpec, i: int)
    requires
        t.node.wf(),
        t.node.target_vec.len() == 1,
        target.target_vec.len() == 2,
        target.spec_whiteout_type(ws) is None,
        0 <= i < t.children.len(),
        t.children[i].node.name() == target.name(),
        forall|j: int| 0 <= j < i ==> (#[trigger] t.children[j]).node.name() != target.name(),
    ensures
        spec_apply(t, target, true, ws) == (
            TreeV {
                node: t.node,
                children: t.children.update(
                    i,
                    TreeV { node: as_modification(target), children: t.children[i].children },
                ),
            },
            true,
        ),
{
    assert(target.target_vec[1] == target.name());
    lemma_walk_children_first_match(t.children, target, i);
    let cs = t.children;
    assert(cs.take(i) + (seq![TreeV {
        node: as_modification(target),
        children: cs[i].children,
    }] + cs.skip(i + 1)) =~= cs.update(
        i,
        TreeV { node: as_modification(target), children: cs[i].children },
    ));
}

proof fn lemma_walk_children_first_match(cs: Seq<TreeV>, target: NodeV, i: int)
    requires
        target.target_vec.len() == 2,
        0 <= i < cs.len(),
        cs[i].node.name() == target.target_vec[1],
        forall|j: int| 0 <= j < i ==> (#[trigger] cs[j]).node.name() != target.target_vec[1],
    ensures
        spec_walk_children(cs, target, 1, 2) == Some(
            cs.take(i) + (seq![TreeV {
                node: as_modification(target),
                children: cs[i].children,
            }] + cs.skip(i + 1)),
        ),
    decreases i,
{
    if i == 0 {
        assert(cs.take(0) =~= Seq::<TreeV>::empty());
        assert(cs.drop_first() =~= cs.skip(1));
        assert(cs.take(0) + (seq![TreeV {
            node: as_modification(target),
            children: cs[0].children,
        }] + cs.skip(1)) =~= seq![TreeV {
            node: as_modification(target),
            children: cs[0].children,
        }] + cs.drop_first());
    } else {
        assert(cs.drop_first()[i - 1] == cs[i]);
        assert(forall|j: int| 0 <= j < i - 1 ==> (#[trigger] cs.drop_first()[j]).node.name()
            != target.target_vec[1]);
        lemma_walk_children_first_match(cs.drop_first(), target, i - 1);
        assert(cs.take(i) =~= seq![cs[0]] + cs.drop_first().take(i - 1));
        assert(cs.skip(i + 1) =~= cs.drop_first().skip(i));
        assert(cs.take(i) + (seq![TreeV {
            node: as_modification(target),
            children: cs[i].children,
        }] + cs.skip(i + 1)) =~= seq![cs[0]] + (cs.drop_first().take(i - 1) + (seq![TreeV {
            node: as_modification(target),
            children: cs.drop_first()[i - 1].children,
        }] + cs.drop_first().skip(i))));
    }
}

/// Overlay law, removal whiteouts: an upper entry named `.wh.<x>` in the
/// root directory deletes the lower entry named `x` and nothing else, and is
/// not itself placed in the tree.
pub proof fn lemma_apply_oci_removal(t: TreeV, target: NodeV, i: int)
    requires
        t.node.wf(),
        t.node.target_vec.len() == 1,
        target.target_vec.len() == 2,
        target.target_vec[0] == t.node.target_vec[0],
        target.overlay != Overlay::Lower,
        target.name().len() >= 4,
        target.name().take(4) == oci_whiteout_prefix(),
        target.name() != oci_opaque_name(),
        0 <= i < t.children.len(),
        t.children[i].node.name() == target.name().skip(4),
        forall|j: int| 0 <= j < i ==> (#[trigger] t.children[j]).node.name()
            != target.name().skip(4),
        forall|j: int| 0 <= j < t.children.len() ==> (#[trigger] t.children[j]).node.depth() >= 2,
    ensures
        spec_apply(t, target, true, WhiteoutSpec::Oci) == (
            TreeV { node: t.node, children: t.children.remove(i) },
            true,
        ),
{
    let wt = WhiteoutType::OciRemoval;
    assert(target.spec_whiteout_type(WhiteoutSpec::Oci) == Some(wt));
    let origin = target.spec_origin_name(wt);
    let parent = target.spec_parent_name();
    assert(origin == Some(target.name().skip(4)));
    assert(parent is None);
    lemma_remove_children_first_removal(t.children, target, wt, origin, parent, i);
    assert(t.children.take(i) + t.children.skip(i + 1) =~= t.children.remove(i));
    assert(spec_remove(t, target, wt, origin, parent) == Some(
        TreeV { node: t.node, children: t.children.remove(i) },
    ));
}

proof fn lemma_remove_children_first_removal(
    cs: Seq<TreeV>,
    target: NodeV,
    wt: WhiteoutType,
    origin_name: Option<Seq<u8>>,
    parent_name: Option<Seq<u8>>,
    i: int,
)
    requires
        target.target_vec.len() == 2,
        wt == WhiteoutType::OciRemoval,
        parent_name is None,
        0 <= i < cs.len(),
        origin_name == Some(cs[i].node.name()),
        forall|j: int| 0 <= j < i ==> Some((#[trigger] cs[j]).node.name()) != origin_name,
        forall|j: int| 0 <= j < cs.len() ==> (#[trigger] cs[j]).node.depth() >= 2,
    ensures
        spec_remove_children(cs, target, wt, origin_name, parent_name, 1, 2) == Some(
            cs.take(i) + cs.skip(i + 1),
        ),
    decreases i,
{
    if i == 0 {
        assert(cs.take(0) =~= Seq::<TreeV>::empty());
        assert(cs.drop_first() =~= cs.skip(1));
        assert(cs.take(0) + cs.skip(1) =~= cs.drop_first());
    } else {
        let c = cs[0];
        assert(Some(c.node.name()) != origin_name);
        if is_dir_mode(c.node.mode) {
            assert(c.node.depth() >= 2);
            assert(spec_remove(c, target, wt, origin_name, parent_name) is None);
        }
        assert(cs.drop_first()[i - 1] == cs[i]);
        lemma_remove_children_first_removal(
            cs.drop_first(),
            target,
            wt,
            origin_name,
            parent_name,
            i - 1,
        );
        assert(cs.take(i) =~= seq![cs[0]] + cs.drop_first().take(i - 1));
        assert(cs.skip(i + 1) =~= cs.drop_first().skip(i));
        assert(cs.take(i) + cs.skip(i + 1) =~= seq![cs[0]] + (cs.drop_first().take(i - 1)
            + cs.drop_first().skip(i)));
    }
}

/// Overlay law, opaque whiteouts: an upper entry named `.wh..wh..opq` inside
/// a directory of the root marks that directory opaque and empties its lower
/// children, keeping the directory itself and its siblings; children the
/// upper layer adds afterwards are appended by later applications.
pub proof fn lemma_apply_oci_opaque(t: TreeV, target: NodeV, i: int)
    requires
        t.node.wf(),
        t.node.target_vec.len() == 1,
        target.target_vec.len() == 3,
        target.target_vec[0] == t.node.target_vec[0],
        target.overlay != Overlay::Lower,
        target.name() == oci_opaque_name(),
        target.spec_parent_name() == Some(target.target_vec[1]),
        0 <= i < t.children.len(),
        t.children[i].node.name() == target.target_vec[1],
        forall|j: int| 0 <= j < i ==> (#[trigger] t.children[j]).node.name()
            != target.target_vec[1],
        forall|j: int| 0 <= j < t.children.len() ==> (#[trigger] t.children[j]).node.depth() == 2
            && (#[trigger] t.children[j]).node.name() == t.children[j].node.target_vec[1],
    ensures
        spec_apply(t, target, true, WhiteoutSpec::Oci) == (
            TreeV {
                node: t.node,
                children: t.children.update(
                    i,
                    TreeV { node: as_opaque(t.children[i].node), children: Seq::empty() },
                ),
            },
            true,
        ),
{
    let wt = WhiteoutType::OciOpaque;
    assert(target.spec_whiteout_type(WhiteoutSpec::Oci) == Some(wt));
    let origin = target.spec_origin_name(wt);
    let parent = target.spec_parent_name();
    assert(origin is None);
    lemma_remove_children_first_opaque(t.children, target, wt, origin, parent, i);
    let cs = t.children;
    assert(cs.take(i) + (seq![TreeV { node: as_opaque(cs[i].node), children: Seq::empty() }]
        + cs.skip(i + 1)) =~= cs.update(
        i,
        TreeV { node: as_opaque(cs[i].node), children: Seq::empty() },
    ));
    assert(spec_remove(t, target, wt, origin, parent) == Some(
        TreeV {
            node: t.node,
            children: cs.update(
                i,
                TreeV { node: as_opaque(cs[i].node), children: Seq::empty() },
            ),
        },
    ));
}

proof fn lemma_remove_children_first_opaque(
    cs: Seq<TreeV>,
    target: NodeV,
    wt: WhiteoutType,
    origin_name: Option<Seq<u8>>,
    parent_name: Option<Seq<u8>>,
    i: int,
)
    requires
        target.target_vec.len() == 3,
        wt == WhiteoutType::OciOpaque,
        origin_name is None,
        parent_name == Some(target.target_vec[1]),
        0 <= i < cs.len(),
        cs[i].node.name() == target.target_vec[1],
        forall|j: int| 0 <= j < i ==> (#[trigger] cs[j]).node.name() != target.target_vec[1],
        forall|j: int| 0 <= j < cs.len() ==> (#[trigger] cs[j]).node.depth() == 2 && (
        #[trigger] cs[j]).node.name() == cs[j].node.target_vec[1],
    ensures
        spec_remove_children(cs, target, wt, origin_name, parent_name, 1, 3) == Some(
            cs.take(i) + (seq![TreeV { node: as_opaque(cs[i].node), children: Seq::empty() }]
                + cs.skip(i + 1)),
        ),
    decreases i,
{
    if i == 0 {
        assert(cs.take(0) =~= Seq::<TreeV>::empty());
        assert(cs.drop_first() =~= cs.skip(1));
        assert(cs.take(0) + (seq![TreeV { node: as_opaque(cs[0].node), children: Seq::empty() }]
            + cs.skip(1)) =~= seq![TreeV { node: as_opaque(cs[0].node), children: Seq::empty() }]
            + cs.drop_first());
    } else {
        let c = cs[0];
        if is_dir_mode(c.node.mode) {
            assert(c.node.depth() == 2);
            assert(c.node.target_vec[1] == c.node.name());
            assert(c.node.target_vec[1] != target.target_vec[1]);
            assert(spec_remove(c, target, wt, origin_name, parent_name) is None);
        }
        assert(cs.drop_first()[i - 1] == cs[i]);
        lemma_remove_children_first_opaque(
            cs.drop_first(),
            target,
            wt,
            origin_name,
            parent_name,
            i - 1,
        );
        assert(cs.take(i) =~= seq![cs[0]] + cs.drop_first().take(i - 1));
        assert(cs.skip(i + 1) =~= cs.drop_first().skip(i));
        assert(cs.take(i) + (seq![TreeV { node: as_opaque(cs[i].node), children: Seq::empty() }]
            + cs.skip(i + 1)) =~= seq![cs[0]] + (cs.drop_first().take(i - 1) + (seq![TreeV {
            node: as_opaque(cs.drop_first()[i - 1].node),
            children: Seq::empty(),
        }] + cs.drop_first().skip(i))));
    }
}


/// A dictionary after one descriptor is recorded: first insertion wins.
pub open spec fn spec_dict_add(d: Seq<ChunkV>, c: ChunkV) -> Seq<ChunkV> {
    if dict_lookup(d, c.digest) is Some {
        d
    } else {
        d.push(c)
    }
}

/// A dictionary after a run of descriptors is recorded in order.
pub open spec fn spec_dict_add_all(d: Seq<ChunkV>, cs: Seq<ChunkV>) -> Seq<ChunkV>
    decreases cs,
{
    if cs.len() == 0 {
        d
    } else {
        spec_dict_add_all(spec_dict_add(d, cs[0]), cs.drop_first())
    }
}

/// The in-memory node a stored inode becomes when a bootstrap is loaded:
/// marked as coming from the lower layer, with the source device invalidated
/// so hardlink detection never pairs it with a scanned file.
pub open spec fn spec_parse_node(sup: SuperV, rec: InodeRecordV, tv: Seq<Seq<u8>>) -> NodeV {
    NodeV {
        ino: rec.ino,
        src_ino: rec.ino,
        src_dev: u64::MAX,
        rdev: rec.rdev,
        mode: rec.mode,
        uid: rec.uid,
        gid: rec.gid,
        mtime: rec.mtime,
        nlink: rec.nlink,
        size: rec.size,
        overlay: Overlay::Lower,
        explicit_uidgid: sup.explicit_uidgid,
        target_vec: tv,
        symlink: if is_symlink_mode(rec.mode) {
            rec.symlink
        } else {
            None
        },
        xattrs: rec.xattrs,
        chunks: if is_reg_mode(rec.mode) {
            rec.chunks
        } else {
            Seq::empty()
        },
    }
}

/// The subtrees under directory `ino`, rebuilt from the stored records, and
/// the dictionary after every regular file's chunks are recorded.  `None`
/// reports a structurally broken bootstrap: an inode number out of range, a
/// record with the wrong number, or nesting deeper than the inode count
/// allows.
pub open spec fn spec_load_children(
    sup: SuperV,
    ino: u64,
    parent_tv: Seq<Seq<u8>>,
    dict: Seq<ChunkV>,
    validate: bool,
    limit: nat,
) -> Option<(Seq<TreeV>, Seq<ChunkV>)>
    decreases limit, 0nat,
{
    match spec_get_inode(sup, ino, validate) {
        Some(rec) => {
            if !is_dir_mode(rec.mode) {
                Some((Seq::empty(), dict))
            } else if limit == 0 {
                None
            } else {
                spec_load_kids(sup, rec.children, parent_tv, dict, validate, (limit - 1) as nat, 0)
            }
        },
        None => None,
    }
}

/// The subtrees for the children `kids[i..]`, processed in order.
pub open spec fn spec_load_kids(
    sup: SuperV,
    kids: Seq<u64>,
    parent_tv: Seq<Seq<u8>>,
    dict: Seq<ChunkV>,
    validate: bool,
    limit: nat,
    i: int,
) -> Option<(Seq<TreeV>, Seq<ChunkV>)>
    decreases limit, 1nat, kids.len() - i,
{
    if i < 0 || i >= kids.len() {
        Some((Seq::empty(), dict))
    } else {
        match spec_get_inode(sup, kids[i], validate) {
            Some(rec) => {
                let ctv = parent_tv.push(rec.name);
                let node = spec_parse_node(sup, rec, ctv);
                let dict1 = if is_reg_mode(rec.mode) {
                    spec_dict_add_all(dict, rec.chunks)
                } else {
                    dict
                };
                let sub = if is_dir_mode(rec.mode) {
                    spec_load_children(sup, kids[i], ctv, dict1, validate, limit)
                } else {
                    Some((Seq::<TreeV>::empty(), dict1))
                };
                match sub {
                    Some((children, dict2)) => {
                        match spec_load_kids(sup, kids, parent_tv, dict2, validate, limit, i + 1) {
                            Some((rest, dict3)) => Some(
                                (seq![TreeV { node: node, children: children }] + rest, dict3),
                            ),
                            None => None,
                        }
                    },
                    None => None,
                }
            },
            None => None,
        }
    }
}

/// Rebuilds an in-memory tree from a loaded bootstrap.
pub struct MetadataTreeBuilder<'a> {
    /// The loaded bootstrap the tree is rebuilt from.
    pub rs: &'a RafsSuper,
}

impl<'a> MetadataTreeBuilder<'a> {
    /// A builder over the loaded bootstrap `rs`.
    pub fn new(rs: &'a RafsSuper) -> (b: MetadataTreeBuilder<'a>)
        ensures
            b.rs == rs,
    {
        MetadataTreeBuilder { rs }
    }

    /// Convert a stored inode into an in-memory node at path `tv`.
    pub fn parse_node(&self, rec: &InodeRecord, tv: Vec<Vec<u8>>) -> (n: Node)
        ensures
            n@ == spec_parse_node(self.rs@, rec@, tv.deep_view()),
    {
        let symlink = if rec.is_symlink() {
            crate::node::clone_opt_bytes(&rec.symlink)
        } else {
            None
        };
        let chunks = if rec.is_reg() {
            crate::node::clone_chunks(&rec.chunks)
        } else {
            Vec::new()
        };
        let n = Node {
            ino: rec.ino,
            src_ino: rec.ino,
            src_dev: u64::MAX,
            rdev: rec.rdev,
            mode: rec.mode,
            uid: rec.uid,
            gid: rec.gid,
            mtime: rec.mtime,
            nlink: rec.nlink,
            size: rec.size,
            overlay: Overlay::Lower,
            explicit_uidgid: self.rs.meta.explicit_uidgid,
            target_vec: tv,
            symlink,
            xattrs: crate::node::clone_xattrs(&rec.xattrs),
            chunks,
        };
        proof {
            assert(n@ =~= spec_parse_node(self.rs@, rec@, n.target_vec.deep_view()));
        }
        n
    }

    /// Rebuild the subtrees under directory `ino`, registering every regular
    /// file's chunks into the dictionary, so that a later build deduplicates
    /// against this image.
    #[verifier::rlimit(100)]
    #[verifier::loop_isolation(false)]
    pub fn load_children(
        &self,
        ino: u64,
        parent_tv: &Vec<Vec<u8>>,
        chunk_dict: &mut ChunkDict,
        validate_digest: bool,
        limit: u64,
    ) -> (r: RafsResult<Vec<Tree>>)
        ensures
            match spec_load_children(
                self.rs@,
                ino,
                parent_tv.deep_view(),
                old(chunk_dict)@,
                validate_digest,
                limit as nat,
            ) {
                Some(pr) => {
                    &&& r matches Ok(v)
                    &&& forest_view_of(v@) == pr.0
                    &&& final(chunk_dict)@ == pr.1
                },
                None => r is Err,
            },
        decreases limit,
    {
        let rec = match self.rs.get_inode(ino, validate_digest) {
            Ok(x) => x,
            Err(e) => {
                return Err(e);
            },
        };
        if !rec.is_dir() {
            proof {
                assert(forest_view_of(Seq::<Tree>::empty()) =~= Seq::<TreeV>::empty());
            }
            return Ok(Vec::new());
        }
        if limit == 0 {
            return Err(RafsError::Corruption("directory nesting too deep".to_string()));
        }
        let ghost dict0 = chunk_dict@;
        let ghost kids = rec@.children;
        let ghost lim = (limit - 1) as nat;
        let n = rec.get_child_count();
        let mut out: Vec<Tree> = Vec::new();
        let mut i: usize = 0;
        proof {
            match spec_load_kids(self.rs@, kids, parent_tv.deep_view(), dict0, validate_digest, lim, 0) {
                Some(pr) => {
                    assert(forest_view_of(out@) + pr.0 =~= pr.0);
                },
                None => {},
            }
        }
        while i < n
            invariant
                i <= n,
                n == rec@.children.len(),
                out@.len() == i,
                match spec_load_kids(
                    self.rs@,
                    kids,
                    parent_tv.deep_view(),
                    chunk_dict@,
                    validate_digest,
                    lim,
                    i as int,
                ) {
                    Some(pr) => spec_load_kids(
                        self.rs@,
                        kids,
                        parent_tv.deep_view(),
                        dict0,
                        validate_digest,
                        lim,
                        0,
                    ) == Some((forest_view_of(out@) + pr.0, pr.1)),
                    None => spec_load_kids(
                        self.rs@,
                        kids,
                        parent_tv.deep_view(),
                        dict0,
                        validate_digest,
                        lim,
                        0,
                    ) is None,
                },
            decreases n - i,
        {
            let cino = match rec.get_child_by_index(i) {
                Ok(x) => x,
                Err(e) => {
                    return Err(e);
                },
            };
            proof {
                assert(cino == kids[i as int]);
            }
            let child = match self.rs.get_inode(cino, validate_digest) {
                Ok(x) => x,
                Err(e) => {
                    return Err(e);
                },
            };
            let mut ctv = crate::node::clone_bytes_vec(parent_tv);
            let nm = crate::node::clone_bytes(&child.name);
            proof {
                assert(nm.deep_view() =~= nm@);
            }
            ctv.push(nm);
            proof {
                assert(ctv.deep_view() =~= parent_tv.deep_view().push(child@.name));
            }
            let node = self.parse_node(child, ctv);
            let ghost dpre = chunk_dict@;
            if child.is_reg() {
                let nk = child.chunks.len();
                let mut k: usize = 0;
                proof {
                    assert(child@.chunks.skip(0) =~= child@.chunks);
                }
                while k < nk
                    invariant
                        k <= nk,
                        nk == child.chunks@.len(),
                        spec_dict_add_all(dpre, child@.chunks) == spec_dict_add_all(
                            chunk_dict@,
                            child@.chunks.skip(k as int),
                        ),
                    decreases nk - k,
                {
                    proof {
                        assert(child@.chunks[k as int] == child.chunks@[k as int]@);
                        assert(child@.chunks.skip(k as int)[0] == child@.chunks[k as int]);
                        assert(child@.chunks.skip(k as int).drop_first() =~= child@.chunks.skip(
                            k + 1,
                        ));
                    }
                    chunk_dict.add_chunk(child.chunks[k].duplicate());
                    k = k + 1;
                }
                proof {
                    assert(child@.chunks.skip(nk as int) =~= Seq::<ChunkV>::empty());
                    assert(spec_dict_add_all(chunk_dict@, child@.chunks.skip(nk as int))
                        == chunk_dict@);
                    assert(chunk_dict@ == spec_dict_add_all(dpre, child@.chunks));
                }
            }
            let sub: Vec<Tree> = if child.is_dir() {
                match self.load_children(cino, &node.target_vec, chunk_dict, validate_digest, limit - 1) {
                    Ok(v) => v,
                    Err(e) => {
                        return Err(e);
                    },
                }
            } else {
                Vec::new()
            };
            proof {
                assert(node.target_vec.deep_view() =~= parent_tv.deep_view().push(child@.name));
                assert(forest_view_of(Seq::<Tree>::empty()) =~= Seq::<TreeV>::empty());
            }
            let ghost tv_t = TreeV {
                node: spec_parse_node(self.rs@, child@, parent_tv.deep_view().push(child@.name)),
                children: forest_view_of(sub@),
            };
            let t = Tree { node, children: sub };
            proof {
                assert(tree_view(t).node == tv_t.node);
                assert(tree_view(t).children =~= tv_t.children);
                assert(tree_view(t) =~~= tv_t);
            }
            out.push(t);
            proof {
                assert(forest_view_of(out@) =~= forest_view_of(out@.drop_last()).push(
                    tree_view(out@.last()),
                ));
                match spec_load_kids(
                    self.rs@,
                    kids,
                    parent_tv.deep_view(),
                    chunk_dict@,
                    validate_digest,
                    lim,
                    i as int + 1,
                ) {
                    Some(pr2) => {
                        assert(forest_view_of(out@.drop_last()).push(tree_view(out@.last())) + pr2.0
                            =~= forest_view_of(out@.drop_last()) + (seq![tree_view(out@.last())]
                            + pr2.0));
                    },
                    None => {},
                }
            }
            i = i + 1;
        }
        proof {
            assert(spec_load_kids(
                self.rs@,
                kids,
                parent_tv.deep_view(),
                chunk_dict@,
                validate_digest,
                lim,
                n as int,
            ) == Some((Seq::<TreeV>::empty(), chunk_dict@)));
            assert(forest_view_of(out@) + Seq::<TreeV>::empty() =~= forest_view_of(out@));
        }
        Ok(out)
    }
}

/// The models of a list of trees.
pub open spec fn forest_view_of(s: Seq<Tree>) -> Seq<TreeV> {
    Seq::new(s.len(), |i: int| if 0 <= i < s.len() {
        tree_view(s[i])
    } else {
        arbitrary()
    })
}

impl Tree {
    /// A leaf tree around one node.
    pub fn new(node: Node) -> (t: Tree)
        ensures
            t@.node == node@,
            t@.children == Seq::<TreeV>::empty(),
    {
        let t = Tree { node, children: Vec::new() };
        proof {
            assert(t@.children =~= Seq::<TreeV>::empty());
        }
        t
    }


    /// Delete or hide the lower entry a whiteout names.  Returns whether
    /// anything matched; an unmatched whiteout leaves the tree unchanged.
    #[verifier::rlimit(100)]
    fn remove(
        &mut self,
        target: &Node,
        wt: WhiteoutType,
        origin_name: &Option<Vec<u8>>,
        parent_name: &Option<Vec<u8>>,
    ) -> (removed: bool)
        requires
            tree_min_wf(old(self)@),
            target@.wf(),
        ensures
            match spec_remove(
                old(self)@,
                target@,
                wt,
                origin_name.deep_view(),
                parent_name.deep_view(),
            ) {
                Some(t2) => final(self)@ == t2 && removed,
                None => final(self)@ == old(self)@ && !removed,
            },
            tree_min_wf(final(self)@),
        decreases tv_height(old(self)@),
    {
        let ghost g_origin = origin_name.deep_view();
        let ghost g_parent = parent_name.deep_view();
        let tlen = target.target_vec.len();
        let depth = self.node.target_vec.len();
        proof {
            assert(self@.node.target_vec[depth - 1] == self.node.target_vec@[depth - 1]@);
            assert(target@.target_vec.len() >= 1);
            if depth < tlen {
                assert(target@.target_vec[depth - 1] == target.target_vec@[depth - 1]@);
            }
        }
        if depth >= tlen || !bytes_eq(
            self.node.target_vec[depth - 1].as_slice(),
            target.target_vec[depth - 1].as_slice(),
        ) {
            return false;
        }
        if depth == 1 && (wt == WhiteoutType::OciOpaque && tlen == 2 || wt
            == WhiteoutType::OverlayFsOpaque && tlen == 1) {
            self.node.overlay = Overlay::UpperOpaque;
            self.children = Vec::new();
            proof {
                assert(self@.children =~= Seq::<TreeV>::empty());
                assert(self@.node =~= as_opaque(old(self)@.node));
                assert(self@ =~= TreeV {
                    node: as_opaque(old(self)@.node),
                    children: Seq::empty(),
                });
            }
            return true;
        }
        let ghost cs0 = old(self)@.children;
        let ghost d = depth as int;
        let ghost tl = tlen as int;
        let n = self.children.len();
        let mut idx: usize = 0;
        proof {
            assert(cs0.skip(0) =~= cs0);
            assert(cs0.take(0) + cs0 =~= cs0);
            assert(old(self)@.node.target_vec[d - 1] == target@.target_vec[d - 1]);
        }
        while idx < n
            invariant
                idx <= n,
                self@ == old(self)@,
                n == self.children@.len(),
                tree_min_wf(old(self)@),
                target@.wf(),
                cs0 == old(self)@.children,
                d == old(self)@.node.target_vec.len() as int,
                tl == target@.target_vec.len() as int,
                depth == d,
                tlen == tl,
                1 <= d < tl,
                old(self)@.node.target_vec[d - 1] == target@.target_vec[d - 1],
                !(d == 1 && ((wt == WhiteoutType::OciOpaque && tl == 2) || (wt
                    == WhiteoutType::OverlayFsOpaque && tl == 1))),
                g_origin == origin_name.deep_view(),
                g_parent == parent_name.deep_view(),
                wt == WhiteoutType::OciRemoval || wt == WhiteoutType::OciOpaque || wt
                    == WhiteoutType::OverlayFsRemoval || wt == WhiteoutType::OverlayFsOpaque,
                match spec_remove_children(cs0.skip(idx as int), target@, wt, g_origin, g_parent, d, tl) {
                    Some(rest) => spec_remove_children(cs0, target@, wt, g_origin, g_parent, d, tl)
                        == Some(cs0.take(idx as int) + rest),
                    None => spec_remove_children(cs0, target@, wt, g_origin, g_parent, d, tl)
                        is None,
                },
            decreases n - idx,
        {
            let ghost vc = self@.children[idx as int];
            proof {
                assert(self@.children == tree_view(*self).children);
                assert(self@.children[idx as int] == tree_view(self.children@[idx as int]));
                assert(tree_view(self.children@[idx as int]).node == self.children@[
                    idx as int
                ].node@);
                assert(vc == cs0[idx as int]);
                assert(cs0.skip(idx as int)[0] == cs0[idx as int]);
                assert(cs0.skip(idx as int).drop_first() =~= cs0.skip(idx as int + 1));
                assert(tree_min_wf(vc)) by {
                    assert(old(self)@.children[idx as int] == vc);
                    assert(tree_min_wf(old(self)@));
                }
                assert(vc.node.wf());
            }
            let name_eq_origin: bool = match origin_name {
                Some(o) => {
                    let eq = bytes_eq(o.as_slice(), self.children[idx].node.name().as_slice());
                    proof {
                        assert(o.deep_view() =~= o@);
                    }
                    eq
                },
                None => false,
            };
            proof {
                assert(name_eq_origin <==> g_origin == Some(vc.node.name()));
            }
            if depth == tlen - 1 && wt.is_removal() && name_eq_origin {
                self.children.remove(idx);
                proof {
                    assert(spec_remove_children(cs0.skip(idx as int), target@, wt, g_origin, g_parent, d, tl)
                        == Some(cs0.skip(idx as int).drop_first()));
                    assert(self@.children =~= cs0.take(idx as int) + cs0.skip(idx as int + 1));
                    assert(self@ =~= TreeV {
                        node: old(self)@.node,
                        children: cs0.take(idx as int) + cs0.skip(idx as int).drop_first(),
                    });
                    assert forall|i: int| 0 <= i < self@.children.len() implies tree_min_wf(
                        #[trigger] self@.children[i],
                    ) by {
                        if i < idx {
                            assert(self@.children[i] == old(self)@.children[i]);
                        } else {
                            assert(self@.children[i] == old(self)@.children[i + 1]);
                        }
                    }
                    assert(tree_min_wf(self@));
                }
                return true;
            }
            let name_eq_parent: bool = match parent_name {
                Some(p) => {
                    let eq = bytes_eq(p.as_slice(), self.children[idx].node.name().as_slice());
                    proof {
                        assert(p.deep_view() =~= p@);
                    }
                    eq
                },
                None => false,
            };
            proof {
                assert(name_eq_parent <==> g_parent == Some(vc.node.name()));
            }
            let oci_opaque_here = wt == WhiteoutType::OciOpaque && tlen >= 2 && depth == tlen - 2
                && name_eq_parent;
            let name_eq_target = bytes_eq(
                target.name().as_slice(),
                self.children[idx].node.name().as_slice(),
            );
            let ovl_opaque_here = wt == WhiteoutType::OverlayFsOpaque && depth == tlen - 1
                && name_eq_target;
            if oci_opaque_here || ovl_opaque_here {
                let mut c = self.children.remove(idx);
                c.node.overlay = Overlay::UpperOpaque;
                c.children = Vec::new();
                let ghost c2 = c@;
                proof {
                    assert(c2.children =~= Seq::<TreeV>::empty());
                    assert(c2 =~= TreeV { node: as_opaque(vc.node), children: Seq::empty() });
                }
                self.children.insert(idx, c);
                proof {
                    assert(spec_remove_children(cs0.skip(idx as int), target@, wt, g_origin, g_parent, d, tl)
                        == Some(seq![TreeV { node: as_opaque(vc.node), children: Seq::empty() }]
                            + cs0.skip(idx as int).drop_first()));
                    assert(self@.children =~= cs0.take(idx as int) + (seq![c2] + cs0.skip(
                        idx as int + 1,
                    )));
                    assert(self@ =~= TreeV {
                        node: old(self)@.node,
                        children: cs0.take(idx as int) + (seq![TreeV {
                            node: as_opaque(vc.node),
                            children: Seq::empty(),
                        }] + cs0.skip(idx as int).drop_first()),
                    });
                    assert forall|i: int| 0 <= i < self@.children.len() implies tree_min_wf(
                        #[trigger] self@.children[i],
                    ) by {
                        if i < idx {
                            assert(self@.children[i] == old(self)@.children[i]);
                        } else if i == idx {
                            assert(self@.children[i] == c2);
                            assert(tree_min_wf(c2));
                        } else {
                            assert(self@.children[i] == old(self)@.children[i]);
                        }
                    }
                    assert(tree_min_wf(self@));
                }
                return true;
            }
            let child_is_dir = self.children[idx].node.is_dir();
            if child_is_dir {
                let mut c = self.children.remove(idx);
                proof {
                    assert(tree_min_wf(vc));
                    lemma_forest_height(old(self)@.children, idx as int);
                    assert(tv_height(c@) < tv_height(old(self)@));
                }
                let found = c.remove(target, wt, origin_name, parent_name);
                let ghost c2 = c@;
                self.children.insert(idx, c);
                proof {
                    assert(self@.children =~= cs0.take(idx as int) + (seq![c2] + cs0.skip(
                        idx as int + 1,
                    )));
                }
                if found {
                    proof {
                        assert(spec_remove(vc, target@, wt, g_origin, g_parent) == Some(c2));
                        assert(spec_remove_children(cs0.skip(idx as int), target@, wt, g_origin, g_parent, d, tl)
                            == Some(seq![c2] + cs0.skip(idx as int).drop_first()));
                        assert(self@ =~= TreeV {
                            node: old(self)@.node,
                            children: cs0.take(idx as int) + (seq![c2] + cs0.skip(
                                idx as int,
                            ).drop_first()),
                        });
                        assert forall|i: int| 0 <= i < self@.children.len() implies tree_min_wf(
                            #[trigger] self@.children[i],
                        ) by {
                            if i < idx {
                                assert(self@.children[i] == old(self)@.children[i]);
                            } else if i == idx {
                                assert(self@.children[i] == c2);
                            } else {
                                assert(self@.children[i] == old(self)@.children[i]);
                            }
                        }
                        assert(tree_min_wf(self@));
                    }
                    return true;
                }
                proof {
                    assert(c2 == vc);
                    assert(self@.children =~= cs0);
                    assert(self@ =~= old(self)@);
                }
            }
            proof {
                assert(!rc_hit(vc, target@, wt, g_origin, g_parent, d, tl));
                assert(cs0.take(idx as int).push(cs0[idx as int]) =~= cs0.take(idx as int + 1));
                match spec_remove_children(cs0.skip(idx as int + 1), target@, wt, g_origin, g_parent, d, tl) {
                    Some(rest) => {
                        assert(spec_remove_children(cs0.skip(idx as int), target@, wt, g_origin, g_parent, d, tl)
                            == Some(seq![vc] + rest));
                        assert(cs0.take(idx as int) + (seq![vc] + rest) =~= cs0.take(idx as int + 1)
                            + rest);
                    },
                    None => {
                        assert(spec_remove_children(cs0.skip(idx as int), target@, wt, g_origin, g_parent, d, tl)
                            is None);
                    },
                }
            }
            idx = idx + 1;
        }
        proof {
            assert(cs0.skip(n as int) =~= Seq::<TreeV>::empty());
        }
        false
    }


    /// Place `target` into the tree as a root modification, a modification
    /// of the matching entry, or an addition under its parent.  Returns
    /// whether a matching position was found; otherwise the tree is left
    /// unchanged.
    #[verifier::rlimit(100)]
    fn apply_walk(&mut self, target: &Node) -> (changed: bool)
        requires
            tree_min_wf(old(self)@),
            target@.wf(),
        ensures
            match spec_apply_walk(old(self)@, target@) {
                Some(t2) => final(self)@ == t2 && changed,
                None => final(self)@ == old(self)@ && !changed,
            },
            tree_min_wf(final(self)@),
        decreases tv_height(old(self)@),
    {
        let tlen = target.target_vec.len();
        if tlen == 1 {
            let mut node = target.duplicate();
            node.overlay = Overlay::UpperModification;
            self.node = node;
            proof {
                assert(self@.node =~= as_modification(target@));
                assert(self@ =~= TreeV {
                    node: as_modification(target@),
                    children: old(self)@.children,
                });
            }
            return true;
        }
        let depth = self.node.target_vec.len();
        let ghost cs0 = old(self)@.children;
        let ghost d = depth as int;
        let ghost tl = tlen as int;
        if depth < tlen {
            let n = self.children.len();
            let mut idx: usize = 0;
            proof {
                assert(cs0.skip(0) =~= cs0);
                assert(cs0.take(0) + cs0 =~= cs0);
            }
            while idx < n
                invariant
                    idx <= n,
                    self@ == old(self)@,
                    n == self.children@.len(),
                    tree_min_wf(old(self)@),
                    target@.wf(),
                    cs0 == old(self)@.children,
                    d == old(self)@.node.target_vec.len() as int,
                    tl == target@.target_vec.len() as int,
                    depth == d,
                    tlen == tl,
                    d < tl,
                    2 <= tl,
                    match spec_walk_children(cs0.skip(idx as int), target@, d, tl) {
                        Some(rest) => spec_walk_children(cs0, target@, d, tl) == Some(
                            cs0.take(idx as int) + rest,
                        ),
                        None => spec_walk_children(cs0, target@, d, tl) is None,
                    },
                decreases n - idx,
            {
                let ghost vc = self@.children[idx as int];
                proof {
                    assert(self@.children[idx as int] == tree_view(self.children@[idx as int]));
                    assert(tree_view(self.children@[idx as int]).node == self.children@[
                        idx as int
                    ].node@);
                    assert(vc == cs0[idx as int]);
                    assert(cs0.skip(idx as int)[0] == cs0[idx as int]);
                    assert(cs0.skip(idx as int).drop_first() =~= cs0.skip(idx as int + 1));
                    assert(tree_min_wf(vc)) by {
                        assert(old(self)@.children[idx as int] == vc);
                        assert(tree_min_wf(old(self)@));
                    }
                    assert(vc.node.wf());
                    assert(target@.target_vec[d] == target.target_vec@[d]@);
                }
                let name_match = bytes_eq(
                    target.target_vec[depth].as_slice(),
                    self.children[idx].node.name().as_slice(),
                );
                proof {
                    assert(name_match <==> target@.target_vec[d] == vc.node.name());
                }
                if name_match && depth == tlen - 1 {
                    // Modification: replace the node, keep the children.
                    let mut node = target.duplicate();
                    node.overlay = Overlay::UpperModification;
                    let mut c = self.children.remove(idx);
                    c.node = node;
                    let ghost c2 = c@;
                    self.children.insert(idx, c);
                    proof {
                        assert(c2 =~= TreeV { node: as_modification(target@), children: vc.children });
                        assert(spec_walk_children(cs0.skip(idx as int), target@, d, tl) == Some(
                            seq![TreeV { node: as_modification(target@), children: vc.children }]
                                + cs0.skip(idx as int).drop_first(),
                        ));
                        assert(self@.children =~= cs0.take(idx as int) + (seq![c2] + cs0.skip(
                            idx as int + 1,
                        )));
                        assert(self@ =~= TreeV {
                            node: old(self)@.node,
                            children: cs0.take(idx as int) + (seq![TreeV {
                                node: as_modification(target@),
                                children: vc.children,
                            }] + cs0.skip(idx as int).drop_first()),
                        });
                        assert forall|i: int| 0 <= i < self@.children.len() implies tree_min_wf(
                            #[trigger] self@.children[i],
                        ) by {
                            if i < idx {
                                assert(self@.children[i] == old(self)@.children[i]);
                            } else if i == idx {
                                assert(self@.children[i] == c2);
                                assert(tree_min_wf(vc));
                                assert(forall|j: int|
                                    0 <= j < vc.children.len() ==> tree_min_wf(
                                        #[trigger] vc.children[j],
                                    ));
                                assert(tree_min_wf(c2));
                            } else {
                                assert(self@.children[i] == old(self)@.children[i]);
                            }
                        }
                        assert(tree_min_wf(self@));
                    }
                    return true;
                }
                let child_is_dir = self.children[idx].node.is_dir();
                if name_match && child_is_dir {
                    let mut c = self.children.remove(idx);
                    proof {
                        lemma_forest_height(old(self)@.children, idx as int);
                        assert(tv_height(c@) < tv_height(old(self)@));
                    }
                    let found = c.apply_walk(target);
                    let ghost c2 = c@;
                    self.children.insert(idx, c);
                    proof {
                        assert(self@.children =~= cs0.take(idx as int) + (seq![c2] + cs0.skip(
                            idx as int + 1,
                        )));
                    }
                    if found {
                        proof {
                            assert(spec_apply_walk(vc, target@) == Some(c2));
                            assert(spec_walk_children(cs0.skip(idx as int), target@, d, tl)
                                == Some(seq![c2] + cs0.skip(idx as int).drop_first()));
                            assert(self@ =~= TreeV {
                                node: old(self)@.node,
                                children: cs0.take(idx as int) + (seq![c2] + cs0.skip(
                                    idx as int,
                                ).drop_first()),
                            });
                            assert forall|i: int| 0 <= i < self@.children.len() implies tree_min_wf(
                                #[trigger] self@.children[i],
                            ) by {
                                if i < idx {
                                    assert(self@.children[i] == old(self)@.children[i]);
                                } else if i == idx {
                                    assert(self@.children[i] == c2);
                                } else {
                                    assert(self@.children[i] == old(self)@.children[i]);
                                }
                            }
                            assert(tree_min_wf(self@));
                        }
                        return true;
                    }
                    proof {
                        assert(c2 == vc);
                        assert(self@.children =~= cs0);
                        assert(self@ =~= old(self)@);
                    }
                }
                proof {
                    assert(cs0.take(idx as int).push(cs0[idx as int]) =~= cs0.take(idx as int + 1));
                    match spec_walk_children(cs0.skip(idx as int + 1), target@, d, tl) {
                        Some(rest) => {
                            assert(spec_walk_children(cs0.skip(idx as int), target@, d, tl)
                                == Some(seq![vc] + rest));
                            assert(cs0.take(idx as int) + (seq![vc] + rest) =~= cs0.take(
                                idx as int + 1,
                            ) + rest);
                        },
                        None => {
                            assert(spec_walk_children(cs0.skip(idx as int), target@, d, tl)
                                is None);
                        },
                    }
                }
                idx = idx + 1;
            }
            proof {
                assert(cs0.skip(n as int) =~= Seq::<TreeV>::empty());
            }
        }
        proof {
            assert(self@.node.target_vec[d - 1] == self.node.target_vec@[d - 1]@);
        }
        // Addition: append the new node under its parent.
        if depth == tlen - 1 {
            proof {
                assert(target@.target_vec[d - 1] == target.target_vec@[d - 1]@);
            }
            if bytes_eq(
                target.target_vec[depth - 1].as_slice(),
                self.node.name().as_slice(),
            ) {
                let mut node = target.duplicate();
                node.overlay = Overlay::UpperAddition;
                let leaf = Tree::new(node);
                let ghost leafv = leaf@;
                self.children.push(leaf);
                proof {
                    assert(leafv =~= TreeV { node: as_addition(target@), children: Seq::empty() });
                    assert(self@.children =~= old(self)@.children.push(leafv));
                    assert(self@ =~= TreeV {
                        node: old(self)@.node,
                        children: old(self)@.children.push(
                            TreeV { node: as_addition(target@), children: Seq::empty() },
                        ),
                    });
                    assert forall|i: int| 0 <= i < self@.children.len() implies tree_min_wf(
                        #[trigger] self@.children[i],
                    ) by {
                        if i < old(self)@.children.len() {
                            assert(self@.children[i] == old(self)@.children[i]);
                        } else {
                            assert(self@.children[i] == leafv);
                        }
                    }
                    assert(tree_min_wf(self@));
                }
                return true;
            }
        }
        false
    }

    /// Apply an upper-layer node to this lower-layer tree, as the OCI image
    /// layer specification defines overlays: additions appear, modifications
    /// replace the matching entry, whiteouts delete lower entries, opaque
    /// markers hide a directory's lower children.  Whiteout files are
    /// consumed here and never placed in the tree.  Returns whether the tree
    /// changed; an upper node with no matching position leaves it unchanged.
    pub fn apply(
        &mut self,
        target: &Node,
        handle_whiteout: bool,
        whiteout_spec: WhiteoutSpec,
    ) -> (changed: bool)
        requires
            tree_min_wf(old(self)@),
            target@.wf(),
        ensures
            ({
                let (t2, ch) = spec_apply(old(self)@, target@, handle_whiteout, whiteout_spec);
                final(self)@ == t2 && changed == ch
            }),
            tree_min_wf(final(self)@),
    {
        if handle_whiteout {
            if let Some(wt) = target.whiteout_type(whiteout_spec) {
                proof {
                    if wt == WhiteoutType::OciRemoval {
                        assert(target@.name().len() >= 4);
                    }
                }
                let origin_name = target.origin_name(wt);
                let parent_name = target.parent_name();
                if wt == WhiteoutType::OverlayFsOpaque {
                    let _ = self.remove(target, wt, &origin_name, &parent_name);
                    return self.apply_walk(target);
                }
                return self.remove(target, wt, &origin_name, &parent_name);
            }
        }
        self.apply_walk(target)
    }


    /// Load a tree from a parsed bootstrap, registering every chunk into the
    /// dictionary: the lower layer a following build merges into and
    /// deduplicates against.
    pub fn from_bootstrap(rs: &RafsSuper, chunk_dict: &mut ChunkDict) -> (r: RafsResult<Tree>)
        ensures
            match spec_get_inode(rs@, 1, true) {
                Some(rootrec) => match spec_load_children(
                    rs@,
                    1,
                    seq![seq![47u8]],
                    old(chunk_dict)@,
                    true,
                    rs@.inodes.len() as nat,
                ) {
                    Some(pr) => {
                        &&& r matches Ok(t)
                        &&& t@.node == spec_parse_node(rs@, rootrec, seq![seq![47u8]])
                        &&& t@.children == pr.0
                        &&& final(chunk_dict)@ == pr.1
                    },
                    None => r is Err,
                },
                None => r is Err,
            },
    {
        let root = match rs.get_inode(1, true) {
            Ok(x) => x,
            Err(e) => {
                return Err(e);
            },
        };
        let mut root_tv: Vec<Vec<u8>> = Vec::new();
        let mut slash: Vec<u8> = Vec::new();
        slash.push(47u8);
        proof {
            assert(slash@ =~= seq![47u8]);
            assert(slash.deep_view() =~= slash@);
        }
        root_tv.push(slash);
        proof {
            assert(root_tv.deep_view() =~= seq![seq![47u8]]);
        }
        let builder = MetadataTreeBuilder::new(rs);
        let root_tv2 = crate::node::clone_bytes_vec(&root_tv);
        let root_node = builder.parse_node(root, root_tv2);
        let limit = rs.inodes.len() as u64;
        let children = match builder.load_children(1, &root_tv, chunk_dict, true, limit) {
            Ok(v) => v,
            Err(e) => {
                return Err(e);
            },
        };
        let t = Tree { node: root_node, children };
        proof {
            assert(t@.children =~= forest_view_of(t.children@));
        }
        Ok(t)
    }

    /// All nodes of the tree, in depth-first pre-order.
    pub fn iterate(&self) -> (v: Vec<Node>)
        ensures
            v.deep_view() == spec_preorder(self@),
        decreases *self,
    {
        let mut v: Vec<Node> = Vec::new();
        v.push(self.node.duplicate());
        assert(v.deep_view() =~= seq![self@.node] + spec_preorder_seq(self@.children.take(0)));
        let n = self.children.len();
        let mut i: usize = 0;
        while i < n
            invariant
                i <= n,
                n == self.children@.len(),
                self@ == tree_view(*self),
                v.deep_view() == seq![self@.node] + spec_preorder_seq(self@.children.take(i as int)),
            decreases n - i,
        {
            proof {
                assert(self@.children[i as int] == tree_view(self.children@[i as int]));
            }
            let mut sub = self.children[i].iterate();
            let ghost old_v = v.deep_view();
            let ghost sub_v = sub.deep_view();
            v.append(&mut sub);
            proof {
                assert(v.deep_view() =~= old_v + sub_v);
                assert(self@.children.take(i + 1).drop_last() =~= self@.children.take(i as int));
                lemma_preorder_seq_push(self@.children.take(i as int), self@.children[i as int]);
                assert(self@.children.take(i as int).push(self@.children[i as int]) =~= self@.children.take(i + 1));
            }
            i = i + 1;
        }
        proof {
            assert(self@.children.take(n as int) =~= self@.children);
        }
        v
    }
}

} // verus!
