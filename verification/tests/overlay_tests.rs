use rafs::node::{ChunkWrapper, HardlinkMap, Node, Overlay, WhiteoutSpec, WhiteoutType, XAttr};
use rafs::tree::Tree;

const DIR: u32 = 0o040755;
const REG: u32 = 0o100644;
const CHR: u32 = 0o020644;

fn path(components: &[&str]) -> Vec<Vec<u8>> {
    let mut v: Vec<Vec<u8>> = vec![b"/".to_vec()];
    for c in components {
        v.push(c.as_bytes().to_vec());
    }
    v
}

fn make_node(components: &[&str], mode: u32, overlay: Overlay) -> Node {
    Node {
        ino: 0,
        src_ino: 0,
        src_dev: 0,
        rdev: 0,
        mode,
        uid: 0,
        gid: 0,
        mtime: 0,
        nlink: 1,
        size: 0,
        overlay,
        explicit_uidgid: true,
        target_vec: path(components),
        symlink: None,
        xattrs: Vec::new(),
        chunks: Vec::new(),
    }
}

fn lower_tree() -> Tree {
    // { /x: "one", /d/y: "two" }
    let mut root = Tree::new(make_node(&[], DIR, Overlay::Lower));
    let x = Tree::new(make_node(&["x"], REG, Overlay::Lower));
    let mut d = Tree::new(make_node(&["d"], DIR, Overlay::Lower));
    d.children.push(Tree::new(make_node(&["d", "y"], REG, Overlay::Lower)));
    root.children.push(x);
    root.children.push(d);
    root
}

fn names(t: &Tree) -> Vec<Vec<u8>> {
    t.children.iter().map(|c| c.node.name().clone()).collect()
}

#[test]
fn oci_whiteout_scenario() {
    // Upper layer adds `.wh.x` and `/d/.wh..wh..opq`: the merged tree loses
    // /x, and /d is opaque with no children left.
    let mut tree = lower_tree();

    let wh_x = make_node(&[".wh.x"], REG, Overlay::UpperAddition);
    assert_eq!(
        wh_x.whiteout_type(WhiteoutSpec::Oci),
        Some(WhiteoutType::OciRemoval)
    );
    assert!(tree.apply(&wh_x, true, WhiteoutSpec::Oci));

    let opq = make_node(&["d", ".wh..wh..opq"], REG, Overlay::UpperAddition);
    assert_eq!(
        opq.whiteout_type(WhiteoutSpec::Oci),
        Some(WhiteoutType::OciOpaque)
    );
    assert!(tree.apply(&opq, true, WhiteoutSpec::Oci));

    let ns = names(&tree);
    assert_eq!(ns, vec![b"d".to_vec()]);
    let d = &tree.children[0];
    assert!(matches!(d.node.overlay, Overlay::UpperOpaque));
    assert!(d.children.is_empty());

    // A later upper addition under the opaque directory still lands.
    let z = make_node(&["d", "z"], REG, Overlay::UpperAddition);
    assert!(tree.apply(&z, true, WhiteoutSpec::Oci));
    assert_eq!(tree.children[0].children.len(), 1);
    assert_eq!(tree.children[0].children[0].node.name(), &b"z".to_vec());
}

#[test]
fn addition_appears_after_existing_children() {
    let mut tree = lower_tree();
    let add = make_node(&["new"], REG, Overlay::Lower);
    let mut add = add;
    add.overlay = Overlay::UpperAddition;
    assert!(tree.apply(&add, true, WhiteoutSpec::Oci));
    let ns = names(&tree);
    assert_eq!(ns, vec![b"x".to_vec(), b"d".to_vec(), b"new".to_vec()]);
    assert!(matches!(
        tree.children[2].node.overlay,
        Overlay::UpperAddition
    ));
}

#[test]
fn modification_replaces_node_and_keeps_children() {
    let mut tree = lower_tree();
    let mut upper_d = make_node(&["d"], DIR, Overlay::UpperAddition);
    upper_d.uid = 42;
    assert!(tree.apply(&upper_d, true, WhiteoutSpec::Oci));
    let d = &tree.children[1];
    assert!(matches!(d.node.overlay, Overlay::UpperModification));
    assert_eq!(d.node.uid, 42);
    // The lower child /d/y is kept by a modification.
    assert_eq!(d.children.len(), 1);
    assert_eq!(d.children[0].node.name(), &b"y".to_vec());
}

#[test]
fn unmatched_position_changes_nothing() {
    let mut tree = lower_tree();
    let stray = make_node(&["no", "such", "dir", "f"], REG, Overlay::UpperAddition);
    assert!(!tree.apply(&stray, true, WhiteoutSpec::Oci));
    assert_eq!(names(&tree), vec![b"x".to_vec(), b"d".to_vec()]);
}

#[test]
fn overlayfs_whiteout_char_device() {
    let mut tree = lower_tree();
    let mut wh = make_node(&["x"], CHR, Overlay::UpperAddition);
    wh.rdev = 0;
    assert_eq!(
        wh.whiteout_type(WhiteoutSpec::Overlayfs),
        Some(WhiteoutType::OverlayFsRemoval)
    );
    assert!(tree.apply(&wh, true, WhiteoutSpec::Overlayfs));
    assert_eq!(names(&tree), vec![b"d".to_vec()]);
}

#[test]
fn overlayfs_opaque_xattr() {
    let mut tree = lower_tree();
    let mut upper_d = make_node(&["d"], DIR, Overlay::UpperAddition);
    upper_d.xattrs.push(XAttr {
        name: b"trusted.overlay.opaque".to_vec(),
        value: b"y".to_vec(),
    });
    assert_eq!(
        upper_d.whiteout_type(WhiteoutSpec::Overlayfs),
        Some(WhiteoutType::OverlayFsOpaque)
    );
    // The opaque directive first empties the lower directory, then replays
    // the upper node in its place.
    assert!(tree.apply(&upper_d, true, WhiteoutSpec::Overlayfs));
    let d = &tree.children[1];
    assert!(d.children.is_empty());
    assert!(matches!(d.node.overlay, Overlay::UpperModification));
}

#[test]
fn lower_nodes_are_never_whiteouts() {
    let wh = make_node(&[".wh.x"], REG, Overlay::Lower);
    assert_eq!(wh.whiteout_type(WhiteoutSpec::Oci), None);
}

#[test]
fn iterate_lists_nodes_depth_first() {
    let tree = lower_tree();
    let nodes = tree.iterate();
    let names: Vec<Vec<u8>> = nodes
        .iter()
        .map(|n| n.target_vec.last().unwrap().clone())
        .collect();
    assert_eq!(
        names,
        vec![b"/".to_vec(), b"x".to_vec(), b"d".to_vec(), b"y".to_vec()]
    );
}

#[test]
fn hardlink_index_shares_first_links_chunks() {
    let mut m = HardlinkMap::new();
    assert!(m.get(8, 100).is_none());
    let c = ChunkWrapper {
        digest: vec![1u8; 32],
        blob_index: 0,
        chunk_index: 7,
        compressed_offset: 0,
        compressed_size: 10,
        uncompressed_offset: 0,
        uncompressed_size: 20,
        file_offset: 0,
        flags: 0,
    };
    m.insert(8, 100, vec![c], 20);
    let (chunks, size) = m.get(8, 100).unwrap();
    assert_eq!(chunks.len(), 1);
    assert_eq!(chunks[0].chunk_index, 7);
    assert_eq!(size, 20);
    // The first insertion wins: a second link never replaces the entry.
    m.insert(8, 100, Vec::new(), 0);
    let (chunks2, size2) = m.get(8, 100).unwrap();
    assert_eq!(chunks2.len(), 1);
    assert_eq!(size2, 20);
    // A different identity is separate.
    assert!(m.get(9, 100).is_none());
}
