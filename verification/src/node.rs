//! Filesystem nodes as held by the builder: POSIX metadata, extended
//! attributes, chunk descriptors and the overlay status used while merging
//! layers, together with the whiteout conventions of OCI image layers and of
//! OverlayFS.

use vstd::prelude::*;

verus! {

/// POSIX file-type mask within `mode`.
pub const S_IFMT: u32 = 0o170000;

/// Directory file type.
pub const S_IFDIR: u32 = 0o040000;

/// Regular-file file type.
pub const S_IFREG: u32 = 0o100000;

/// Symbolic-link file type.
pub const S_IFLNK: u32 = 0o120000;

/// Character-device file type.
pub const S_IFCHR: u32 = 0o020000;

/// Chunk flag: the stored bytes are compressed.
pub const CHUNK_FLAG_COMPRESSED: u32 = 1;

/// Chunk flag: the chunk has a hole.
pub const CHUNK_FLAG_HOLECHUNK: u32 = 2;

/// Chunk flag: the chunk payload is aligned to 4 KiB in the blob.
pub const CHUNK_FLAG_ALIGNED_4K: u32 = 4;

/// Overlay status of a node while layers are merged.
#[derive(PartialEq, Eq, Structural, Clone, Copy, Debug)]
pub enum Overlay {
    /// Comes from the lower layer (an existing bootstrap).
    Lower,
    /// Added by the upper layer.
    UpperAddition,
    /// Marked opaque by the upper layer: lower children are hidden.
    UpperOpaque,
    /// Removed by the upper layer.
    UpperRemoval,
    /// Replaced by the upper layer.
    UpperModification,
}

/// Which whiteout convention an upper layer uses.
#[derive(PartialEq, Eq, Structural, Clone, Copy, Debug)]
pub enum WhiteoutSpec {
    /// OCI image layer spec: `.wh.<name>` files and `.wh..wh..opq`.
    Oci,
    /// OverlayFS: rdev-0 character devices and `trusted.overlay.opaque`.
    Overlayfs,
}

/// The kind of whiteout a node encodes.
#[derive(PartialEq, Eq, Structural, Clone, Copy, Debug)]
pub enum WhiteoutType {
    OciOpaque,
    OciRemoval,
    OverlayFsOpaque,
    OverlayFsRemoval,
}

impl WhiteoutType {
    /// True for the whiteout kinds that delete a lower entry.
    pub open spec fn spec_is_removal(self) -> bool {
        self == WhiteoutType::OciRemoval || self == WhiteoutType::OverlayFsRemoval
    }

    /// True for the whiteout kinds that delete a lower entry.
    pub fn is_removal(&self) -> (r: bool)
        ensures
            r == self.spec_is_removal(),
    {
        *self == WhiteoutType::OciRemoval || *self == WhiteoutType::OverlayFsRemoval
    }
}

/// The OCI whiteout file-name prefix `.wh.`.
pub open spec fn oci_whiteout_prefix() -> Seq<u8> {
    seq![46u8, 119u8, 104u8, 46u8]
}

/// The OCI opaque-directory marker file name `.wh..wh..opq`.
pub open spec fn oci_opaque_name() -> Seq<u8> {
    seq![46u8, 119u8, 104u8, 46u8, 46u8, 119u8, 104u8, 46u8, 46u8, 111u8, 112u8, 113u8]
}

/// The OverlayFS opaque-directory xattr name `trusted.overlay.opaque`.
pub open spec fn overlayfs_opaque_xattr() -> Seq<u8> {
    seq![
        116u8, 114u8, 117u8, 115u8, 116u8, 101u8, 100u8, 46u8, 111u8, 118u8, 101u8, 114u8, 108u8,
        97u8, 121u8, 46u8, 111u8, 112u8, 97u8, 113u8, 117u8, 101u8,
    ]
}

/// The OverlayFS opaque xattr value `y`.
pub open spec fn overlayfs_opaque_value() -> Seq<u8> {
    seq![121u8]
}

/// One extended attribute: a name and a value, both raw bytes.
pub struct XAttr {
    pub name: Vec<u8>,
    pub value: Vec<u8>,
}

/// Mathematical model of an extended attribute.
#[verifier::ext_equal]
pub ghost struct XAttrV {
    pub name: Seq<u8>,
    pub value: Seq<u8>,
}

impl View for XAttr {
    type V = XAttrV;

    open spec fn view(&self) -> XAttrV {
        XAttrV { name: self.name@, value: self.value@ }
    }
}

impl DeepView for XAttr {
    type V = XAttrV;

    open spec fn deep_view(&self) -> XAttrV {
        self@
    }
}

/// Descriptor of one content-addressed chunk of a regular file.
///
/// `uncompressed_size` never exceeds the image chunk size; every chunk of a
/// file except possibly the last is exactly the chunk size long.
pub struct ChunkWrapper {
    /// Digest of the uncompressed chunk bytes.
    pub digest: Vec<u8>,
    /// Which blob holds the chunk.
    pub blob_index: u32,
    /// Position of the chunk in that blob's chunk table.
    pub chunk_index: u32,
    /// Offset of the stored (possibly compressed) bytes inside the blob.
    pub compressed_offset: u64,
    /// Length of the stored bytes.
    pub compressed_size: u32,
    /// Offset of the chunk in the uncompressed view of the blob.
    pub uncompressed_offset: u64,
    /// Length of the chunk's uncompressed bytes.
    pub uncompressed_size: u32,
    /// Position of the chunk within its file.
    pub file_offset: u64,
    /// Bitset over `CHUNK_FLAG_*`.
    pub flags: u32,
}

/// Mathematical model of a chunk descriptor.
#[verifier::ext_equal]
pub ghost struct ChunkV {
    pub digest: Seq<u8>,
    pub blob_index: u32,
    pub chunk_index: u32,
    pub compressed_offset: u64,
    pub compressed_size: u32,
    pub uncompressed_offset: u64,
    pub uncompressed_size: u32,
    pub file_offset: u64,
    pub flags: u32,
}

impl View for ChunkWrapper {
    type V = ChunkV;

    open spec fn view(&self) -> ChunkV {
        ChunkV {
            digest: self.digest@,
            blob_index: self.blob_index,
            chunk_index: self.chunk_index,
            compressed_offset: self.compressed_offset,
            compressed_size: self.compressed_size,
            uncompressed_offset: self.uncompressed_offset,
            uncompressed_size: self.uncompressed_size,
            file_offset: self.file_offset,
            flags: self.flags,
        }
    }
}

impl ChunkWrapper {
    /// Copy the descriptor.
    pub fn duplicate(&self) -> (r: ChunkWrapper)
        ensures
            r@ == self@,
    {
        ChunkWrapper {
            digest: clone_bytes(&self.digest),
            blob_index: self.blob_index,
            chunk_index: self.chunk_index,
            compressed_offset: self.compressed_offset,
            compressed_size: self.compressed_size,
            uncompressed_offset: self.uncompressed_offset,
            uncompressed_size: self.uncompressed_size,
            file_offset: self.file_offset,
            flags: self.flags,
        }
    }
}

impl DeepView for ChunkWrapper {
    type V = ChunkV;

    open spec fn deep_view(&self) -> ChunkV {
        self@
    }
}

/// A filesystem entry as the builder holds it in memory.
///
/// `target_vec` is the absolute path split into components; its first
/// component is always `/` and the last one is the entry's name (`/` again
/// for the root).  Names are raw bytes: UTF-8 is not assumed.
pub struct Node {
    /// Inode number, dense in `[1, N]` once assigned; root is 1.
    pub ino: u64,
    /// Inode number on the build source, for hardlink detection.
    pub src_ino: u64,
    /// Device of the build source, for hardlink detection.
    pub src_dev: u64,
    /// Device number for device nodes.
    pub rdev: u64,
    /// POSIX file type and permission bits.
    pub mode: u32,
    pub uid: u32,
    pub gid: u32,
    pub mtime: u64,
    pub nlink: u32,
    /// File size in bytes (for directories: ignored).
    pub size: u64,
    /// Overlay status while merging layers.
    pub overlay: Overlay,
    /// Whether uid/gid are recorded explicitly in the image.
    pub explicit_uidgid: bool,
    /// Absolute path components; first is `/`.
    pub target_vec: Vec<Vec<u8>>,
    /// Symlink target, for symlinks only.
    pub symlink: Option<Vec<u8>>,
    /// Extended attributes, names unique.
    pub xattrs: Vec<XAttr>,
    /// Chunk descriptors, for regular files only.
    pub chunks: Vec<ChunkWrapper>,
}

/// Mathematical model of a node.
#[verifier::ext_equal]
pub ghost struct NodeV {
    pub ino: u64,
    pub src_ino: u64,
    pub src_dev: u64,
    pub rdev: u64,
    pub mode: u32,
    pub uid: u32,
    pub gid: u32,
    pub mtime: u64,
    pub nlink: u32,
    pub size: u64,
    pub overlay: Overlay,
    pub explicit_uidgid: bool,
    pub target_vec: Seq<Seq<u8>>,
    pub symlink: Option<Seq<u8>>,
    pub xattrs: Seq<XAttrV>,
    pub chunks: Seq<ChunkV>,
}

impl View for Node {
    type V = NodeV;

    open spec fn view(&self) -> NodeV {
        NodeV {
            ino: self.ino,
            src_ino: self.src_ino,
            src_dev: self.src_dev,
            rdev: self.rdev,
            mode: self.mode,
            uid: self.uid,
            gid: self.gid,
            mtime: self.mtime,
            nlink: self.nlink,
            size: self.size,
            overlay: self.overlay,
            explicit_uidgid: self.explicit_uidgid,
            target_vec: self.target_vec.deep_view(),
            symlink: self.symlink.deep_view(),
            xattrs: self.xattrs.deep_view(),
            chunks: self.chunks.deep_view(),
        }
    }
}

impl DeepView for Node {
    type V = NodeV;

    open spec fn deep_view(&self) -> NodeV {
        self@
    }
}

/// True if `mode` encodes a directory.
pub open spec fn is_dir_mode(mode: u32) -> bool {
    mode & S_IFMT == S_IFDIR
}

/// True if `mode` encodes a regular file.
pub open spec fn is_reg_mode(mode: u32) -> bool {
    mode & S_IFMT == S_IFREG
}

/// True if `mode` encodes a symbolic link.
pub open spec fn is_symlink_mode(mode: u32) -> bool {
    mode & S_IFMT == S_IFLNK
}

/// True if `mode` encodes a character device.
pub open spec fn is_chrdev_mode(mode: u32) -> bool {
    mode & S_IFMT == S_IFCHR
}

impl NodeV {
    /// The entry's name: the last path component.
    pub open spec fn name(self) -> Seq<u8> {
        self.target_vec.last()
    }

    /// Number of path components, root counted.
    pub open spec fn depth(self) -> int {
        self.target_vec.len() as int
    }

    /// A node is minimally well formed when it has at least the root path
    /// component.
    pub open spec fn wf(self) -> bool {
        self.target_vec.len() >= 1
    }

    /// True if some xattr marks the entry as an OverlayFS opaque directory.
    pub open spec fn has_overlayfs_opaque_xattr(self) -> bool {
        exists|i: int|
            0 <= i < self.xattrs.len() && self.xattrs[i].name == overlayfs_opaque_xattr()
                && self.xattrs[i].value == overlayfs_opaque_value()
    }

    /// The whiteout kind this node encodes under `ws`, if any.  Nodes taken
    /// from the lower layer are never whiteouts.
    pub open spec fn spec_whiteout_type(self, ws: WhiteoutSpec) -> Option<WhiteoutType> {
        if self.overlay == Overlay::Lower {
            None
        } else {
            match ws {
                WhiteoutSpec::Oci => {
                    if self.name() == oci_opaque_name() {
                        Some(WhiteoutType::OciOpaque)
                    } else if self.name().len() >= 4 && self.name().take(4) == oci_whiteout_prefix() {
                        Some(WhiteoutType::OciRemoval)
                    } else {
                        None
                    }
                },
                WhiteoutSpec::Overlayfs => {
                    if is_chrdev_mode(self.mode) && self.rdev == 0 {
                        Some(WhiteoutType::OverlayFsRemoval)
                    } else if is_dir_mode(self.mode) && self.has_overlayfs_opaque_xattr() {
                        Some(WhiteoutType::OverlayFsOpaque)
                    } else {
                        None
                    }
                },
            }
        }
    }

    /// The name of the lower entry a whiteout deletes: for an OCI removal
    /// the name with the `.wh.` prefix stripped, for an OverlayFS removal
    /// the node's own name, nothing for opaque markers.
    pub open spec fn spec_origin_name(self, wt: WhiteoutType) -> Option<Seq<u8>> {
        if wt == WhiteoutType::OverlayFsRemoval {
            Some(self.name())
        } else if wt == WhiteoutType::OciRemoval {
            Some(self.name().skip(4))
        } else {
            None
        }
    }

    /// The name of the directory holding the whiteout entry, if the path is
    /// deep enough to have a named parent.
    pub open spec fn spec_parent_name(self) -> Option<Seq<u8>> {
        if self.target_vec.len() >= 3 {
            Some(self.target_vec[self.target_vec.len() - 2])
        } else {
            None
        }
    }
}


/// Strict bytewise lexicographic order on byte strings.
pub open spec fn bytes_lt(a: Seq<u8>, b: Seq<u8>) -> bool
    decreases a.len(),
{
    if b.len() == 0 {
        false
    } else if a.len() == 0 {
        true
    } else if a[0] < b[0] {
        true
    } else if a[0] > b[0] {
        false
    } else {
        bytes_lt(a.drop_first(), b.drop_first())
    }
}

/// Compare two byte strings bytewise: true exactly when `a` sorts strictly
/// before `b`.
#[verifier::loop_isolation(false)]
pub fn bytes_less(a: &[u8], b: &[u8]) -> (r: bool)
    ensures
        r == bytes_lt(a@, b@),
{
    let na = a.len();
    let nb = b.len();
    let mut i: usize = 0;
    proof {
        assert(a@.skip(0) =~= a@);
        assert(b@.skip(0) =~= b@);
    }
    while i < na && i < nb
        invariant
            i <= na,
            i <= nb,
            bytes_lt(a@, b@) == bytes_lt(a@.skip(i as int), b@.skip(i as int)),
        decreases na - i,
    {
        proof {
            assert(a@.skip(i as int)[0] == a@[i as int]);
            assert(b@.skip(i as int)[0] == b@[i as int]);
            assert(a@.skip(i as int).drop_first() =~= a@.skip(i as int + 1));
            assert(b@.skip(i as int).drop_first() =~= b@.skip(i as int + 1));
        }
        if a[i] < b[i] {
            return true;
        }
        if a[i] > b[i] {
            return false;
        }
        i = i + 1;
    }
    proof {
        if i >= na {
            assert(a@.skip(i as int).len() == 0);
        } else {
            assert(b@.skip(i as int).len() == 0);
        }
    }
    i >= na && i < nb
}

/// Compare two byte strings for equality.
pub fn bytes_eq(a: &[u8], b: &[u8]) -> (r: bool)
    ensures
        r <==> a@ == b@,
{
    if a.len() != b.len() {
        return false;
    }
    let n = a.len();
    let mut i: usize = 0;
    while i < n
        invariant
            i <= n,
            n == a@.len() == b@.len(),
            forall|j: int| 0 <= j < i ==> a@[j] == b@[j],
        decreases n - i,
    {
        if a[i] != b[i] {
            return false;
        }
        i = i + 1;
    }
    proof {
        assert(a@ =~= b@);
    }
    true
}

/// Copy a byte string.
pub fn clone_bytes(v: &Vec<u8>) -> (r: Vec<u8>)
    ensures
        r@ == v@,
{
    let mut r: Vec<u8> = Vec::new();
    let n = v.len();
    let mut i: usize = 0;
    while i < n
        invariant
            i <= n,
            n == v@.len(),
            r@ == v@.take(i as int),
        decreases n - i,
    {
        r.push(v[i]);
        assert(r@ =~= v@.take(i + 1));
        i = i + 1;
    }
    assert(v@.take(n as int) =~= v@);
    r
}


/// Copy a byte slice into a fresh vector.
pub fn clone_slice(v: &[u8]) -> (r: Vec<u8>)
    ensures
        r@ == v@,
{
    let mut r: Vec<u8> = Vec::new();
    let n = v.len();
    let mut i: usize = 0;
    while i < n
        invariant
            i <= n,
            n == v@.len(),
            r@ == v@.take(i as int),
        decreases n - i,
    {
        r.push(v[i]);
        assert(r@ =~= v@.take(i + 1));
        i = i + 1;
    }
    assert(v@.take(n as int) =~= v@);
    r
}

/// Copy a list of path components.
pub fn clone_bytes_vec(v: &Vec<Vec<u8>>) -> (r: Vec<Vec<u8>>)
    ensures
        r.deep_view() == v.deep_view(),
{
    let mut r: Vec<Vec<u8>> = Vec::new();
    let n = v.len();
    let mut i: usize = 0;
    while i < n
        invariant
            i <= n,
            n == v@.len(),
            r@.len() == i,
            forall|j: int| 0 <= j < i ==> r@[j]@ == v@[j]@,
        decreases n - i,
    {
        r.push(clone_bytes(&v[i]));
        i = i + 1;
    }
    assert(r.deep_view() =~= v.deep_view());
    r
}

/// Copy an optional byte string.
pub fn clone_opt_bytes(v: &Option<Vec<u8>>) -> (r: Option<Vec<u8>>)
    ensures
        r.deep_view() == v.deep_view(),
{
    match v {
        Some(b) => Some(clone_bytes(b)),
        None => None,
    }
}

/// Copy a list of extended attributes.
pub fn clone_xattrs(v: &Vec<XAttr>) -> (r: Vec<XAttr>)
    ensures
        r.deep_view() == v.deep_view(),
{
    let mut r: Vec<XAttr> = Vec::new();
    let n = v.len();
    let mut i: usize = 0;
    while i < n
        invariant
            i <= n,
            n == v@.len(),
            r@.len() == i,
            forall|j: int| 0 <= j < i ==> r@[j]@ == v@[j]@,
        decreases n - i,
    {
        let x = &v[i];
        r.push(XAttr { name: clone_bytes(&x.name), value: clone_bytes(&x.value) });
        i = i + 1;
    }
    assert(r.deep_view() =~= v.deep_view());
    r
}

/// Copy a list of chunk descriptors.
pub fn clone_chunks(v: &Vec<ChunkWrapper>) -> (r: Vec<ChunkWrapper>)
    ensures
        r.deep_view() == v.deep_view(),
{
    let mut r: Vec<ChunkWrapper> = Vec::new();
    let n = v.len();
    let mut i: usize = 0;
    while i < n
        invariant
            i <= n,
            n == v@.len(),
            r@.len() == i,
            forall|j: int| 0 <= j < i ==> r@[j]@ == v@[j]@,
        decreases n - i,
    {
        let c = &v[i];
        r.push(
            ChunkWrapper {
                digest: clone_bytes(&c.digest),
                blob_index: c.blob_index,
                chunk_index: c.chunk_index,
                compressed_offset: c.compressed_offset,
                compressed_size: c.compressed_size,
                uncompressed_offset: c.uncompressed_offset,
                uncompressed_size: c.uncompressed_size,
                file_offset: c.file_offset,
                flags: c.flags,
            },
        );
        i = i + 1;
    }
    assert(r.deep_view() =~= v.deep_view());
    r
}


/// The build-time hardlink index: maps a source `(device, inode)` pair to
/// the chunks and size of the first file seen with that identity, so that
/// later links to the same file share its chunks and no content is stored
/// twice.  The first insertion wins.
pub struct HardlinkMap {
    entries: Vec<(u64, u64, Vec<ChunkWrapper>, u64)>,
}

/// Mathematical model of one hardlink entry.
#[verifier::ext_equal]
pub ghost struct HardlinkV {
    pub dev: u64,
    pub ino: u64,
    pub chunks: Seq<ChunkV>,
    pub size: u64,
}

/// The first entry recorded for a `(device, inode)` pair.
pub open spec fn hardlink_lookup(s: Seq<HardlinkV>, dev: u64, ino: u64) -> Option<HardlinkV>
    decreases s,
{
    if s.len() == 0 {
        None
    } else if s[0].dev == dev && s[0].ino == ino {
        Some(s[0])
    } else {
        hardlink_lookup(s.drop_first(), dev, ino)
    }
}

impl View for HardlinkMap {
    type V = Seq<HardlinkV>;

    closed spec fn view(&self) -> Seq<HardlinkV> {
        Seq::new(self.entries@.len(), |i: int| if 0 <= i < self.entries@.len() {
            HardlinkV {
                dev: self.entries@[i].0,
                ino: self.entries@[i].1,
                chunks: self.entries@[i].2.deep_view(),
                size: self.entries@[i].3,
            }
        } else {
            arbitrary()
        })
    }
}

impl HardlinkMap {
    /// An empty index.
    pub fn new() -> (m: HardlinkMap)
        ensures
            m@ == Seq::<HardlinkV>::empty(),
    {
        let m = HardlinkMap { entries: Vec::new() };
        proof {
            assert(m@ =~= Seq::<HardlinkV>::empty());
        }
        m
    }

    /// The chunks and size the `(device, inode)` pair was first seen with,
    /// if any.
    #[verifier::loop_isolation(false)]
    pub fn get(&self, dev: u64, ino: u64) -> (r: Option<(Vec<ChunkWrapper>, u64)>)
        ensures
            match hardlink_lookup(self@, dev, ino) {
                Some(e) => r matches Some(p) && p.0.deep_view() == e.chunks && p.1 == e.size,
                None => r is None,
            },
    {
        let n = self.entries.len();
        let mut i: usize = 0;
        proof {
            assert(self@.skip(0) =~= self@);
        }
        while i < n
            invariant
                i <= n,
                n == self.entries@.len(),
                self@.len() == n,
                hardlink_lookup(self@, dev, ino) == hardlink_lookup(
                    self@.skip(i as int),
                    dev,
                    ino,
                ),
            decreases n - i,
        {
            proof {
                assert(self@.skip(i as int)[0] == self@[i as int]);
                assert(self@.skip(i as int).drop_first() =~= self@.skip(i as int + 1));
            }
            let e = &self.entries[i];
            if e.0 == dev && e.1 == ino {
                return Some((clone_chunks(&e.2), e.3));
            }
            i = i + 1;
        }
        proof {
            assert(self@.skip(n as int) =~= Seq::<HardlinkV>::empty());
        }
        None
    }

    /// Record the chunks and size of the first file seen with this
    /// `(device, inode)` pair; an already-known pair keeps its entry.
    pub fn insert(&mut self, dev: u64, ino: u64, chunks: Vec<ChunkWrapper>, size: u64)
        ensures
            final(self)@ == if hardlink_lookup(old(self)@, dev, ino) is Some {
                old(self)@
            } else {
                old(self)@.push(
                    HardlinkV { dev, ino, chunks: chunks.deep_view(), size },
                )
            },
    {
        let known = self.get(dev, ino).is_some();
        if !known {
            let ghost c = chunks.deep_view();
            self.entries.push((dev, ino, chunks, size));
            proof {
                assert(self@ =~= old(self)@.push(HardlinkV { dev, ino, chunks: c, size }));
            }
        }
    }
}

impl Node {

    /// Copy the node.
    pub fn duplicate(&self) -> (r: Node)
        ensures
            r@ == self@,
    {
        let r = Node {
            ino: self.ino,
            src_ino: self.src_ino,
            src_dev: self.src_dev,
            rdev: self.rdev,
            mode: self.mode,
            uid: self.uid,
            gid: self.gid,
            mtime: self.mtime,
            nlink: self.nlink,
            size: self.size,
            overlay: self.overlay,
            explicit_uidgid: self.explicit_uidgid,
            target_vec: clone_bytes_vec(&self.target_vec),
            symlink: clone_opt_bytes(&self.symlink),
            xattrs: clone_xattrs(&self.xattrs),
            chunks: clone_chunks(&self.chunks),
        };
        assert(r@ =~= self@);
        r
    }

    /// The entry's name: the last path component.
    pub fn name(&self) -> (r: &Vec<u8>)
        requires
            self@.wf(),
        ensures
            r@ == self@.name(),
    {
        &self.target_vec[self.target_vec.len() - 1]
    }

    /// True if the node is a directory.
    pub fn is_dir(&self) -> (r: bool)
        ensures
            r == is_dir_mode(self@.mode),
    {
        self.mode & S_IFMT == S_IFDIR
    }

    /// True if the node is a regular file.
    pub fn is_reg(&self) -> (r: bool)
        ensures
            r == is_reg_mode(self@.mode),
    {
        self.mode & S_IFMT == S_IFREG
    }

    /// True if the node is a symbolic link.
    pub fn is_symlink(&self) -> (r: bool)
        ensures
            r == is_symlink_mode(self@.mode),
    {
        self.mode & S_IFMT == S_IFLNK
    }

    /// True if the node is a character device.
    pub fn is_chrdev(&self) -> (r: bool)
        ensures
            r == is_chrdev_mode(self@.mode),
    {
        self.mode & S_IFMT == S_IFCHR
    }

    /// The whiteout kind this node encodes under `ws`, if any.
    pub fn whiteout_type(&self, ws: WhiteoutSpec) -> (r: Option<WhiteoutType>)
        requires
            self@.wf(),
        ensures
            r == self@.spec_whiteout_type(ws),
    {
        if self.overlay == Overlay::Lower {
            return None;
        }
        match ws {
            WhiteoutSpec::Oci => {
                let name = self.name();
                let opq: [u8; 12] = [
                    46u8, 119u8, 104u8, 46u8, 46u8, 119u8, 104u8, 46u8, 46u8, 111u8, 112u8, 113u8,
                ];
                if bytes_eq(name.as_slice(), opq.as_slice()) {
                    proof {
                        assert(opq@ =~= oci_opaque_name());
                    }
                    return Some(WhiteoutType::OciOpaque);
                }
                proof {
                    assert(opq@ =~= oci_opaque_name());
                }
                if name.len() >= 4 && name[0] == 46 && name[1] == 119 && name[2] == 104 && name[3]
                    == 46 {
                    proof {
                        assert(self@.name().take(4) =~= oci_whiteout_prefix());
                    }
                    return Some(WhiteoutType::OciRemoval);
                }
                proof {
                    if self@.name().len() >= 4 && self@.name().take(4) == oci_whiteout_prefix() {
                        assert(self@.name()[0] == 46 && self@.name()[1] == 119 && self@.name()[2]
                            == 104 && self@.name()[3] == 46);
                    }
                }
                None
            },
            WhiteoutSpec::Overlayfs => {
                if self.is_chrdev() && self.rdev == 0 {
                    return Some(WhiteoutType::OverlayFsRemoval);
                }
                if self.is_dir() && self.has_opaque_xattr() {
                    return Some(WhiteoutType::OverlayFsOpaque);
                }
                None
            },
        }
    }

    /// True if some xattr marks the entry as an OverlayFS opaque directory.
    pub fn has_opaque_xattr(&self) -> (r: bool)
        ensures
            r == self@.has_overlayfs_opaque_xattr(),
    {
        let key: [u8; 22] = [
            116u8, 114u8, 117u8, 115u8, 116u8, 101u8, 100u8, 46u8, 111u8, 118u8, 101u8, 114u8,
            108u8, 97u8, 121u8, 46u8, 111u8, 112u8, 97u8, 113u8, 117u8, 101u8,
        ];
        let yes: [u8; 1] = [121u8];
        proof {
            assert(key@ =~= overlayfs_opaque_xattr());
            assert(yes@ =~= overlayfs_opaque_value());
        }
        let n = self.xattrs.len();
        let mut i: usize = 0;
        while i < n
            invariant
                i <= n,
                n == self.xattrs@.len(),
                key@ == overlayfs_opaque_xattr(),
                yes@ == overlayfs_opaque_value(),
                forall|j: int|
                    0 <= j < i ==> !(self@.xattrs[j].name == overlayfs_opaque_xattr()
                        && self@.xattrs[j].value == overlayfs_opaque_value()),
            decreases n - i,
        {
            let x = &self.xattrs[i];
            let hit = bytes_eq(x.name.as_slice(), key.as_slice()) && bytes_eq(
                x.value.as_slice(),
                yes.as_slice(),
            );
            proof {
                assert(self@.xattrs[i as int] == self.xattrs@[i as int]@);
            }
            if hit {
                return true;
            }
            i = i + 1;
        }
        false
    }

    /// The name of the lower entry a whiteout deletes, if the whiteout kind
    /// is a removal.
    pub fn origin_name(&self, wt: WhiteoutType) -> (r: Option<Vec<u8>>)
        requires
            self@.wf(),
            wt == WhiteoutType::OciRemoval ==> self@.name().len() >= 4,
        ensures
            r.deep_view() == self@.spec_origin_name(wt),
    {
        match wt {
            WhiteoutType::OverlayFsRemoval => Some(clone_bytes(self.name())),
            WhiteoutType::OciRemoval => {
                let name = self.name();
                let mut r: Vec<u8> = Vec::new();
                let n = name.len();
                let mut i: usize = 4;
                while i < n
                    invariant
                        4 <= i <= n,
                        n == self@.name().len(),
                        name@ == self@.name(),
                        r@ == self@.name().subrange(4, i as int),
                    decreases n - i,
                {
                    r.push(name[i]);
                    assert(r@ =~= self@.name().subrange(4, i + 1));
                    i = i + 1;
                }
                assert(r@ =~= self@.name().skip(4));
                Some(r)
            },
            _ => None,
        }
    }

    /// The name of the directory holding this entry, if the path is deep
    /// enough to have a named parent.
    pub fn parent_name(&self) -> (r: Option<Vec<u8>>)
        ensures
            r.deep_view() == self@.spec_parent_name(),
    {
        if self.target_vec.len() >= 3 {
            Some(clone_bytes(&self.target_vec[self.target_vec.len() - 2]))
        } else {
            None
        }
    }
}

} // verus!
