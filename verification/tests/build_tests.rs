use rafs::blob::BlobContext;
use rafs::bootstrap::{encode_bootstrap, parse_bootstrap};
use rafs::builder::{build_bootstrap, chunk_file};
use rafs::chunk::ChunkDict;
use rafs::compress::Compressor;
use rafs::config::RafsVersion;
use rafs::digest::{digest, validate_chunk_data, Digester};
use rafs::node::{Node, Overlay};
use rafs::stat::{stat_image, ImageStat};
use rafs::tree::Tree;
use rafs::validator::Validator;

const DIR: u32 = 0o040755;
const REG: u32 = 0o100644;

fn path(components: &[&str]) -> Vec<Vec<u8>> {
    let mut v: Vec<Vec<u8>> = vec![b"/".to_vec()];
    for c in components {
        v.push(c.as_bytes().to_vec());
    }
    v
}

fn make_node(components: &[&str], mode: u32, size: u64) -> Node {
    Node {
        ino: 0,
        src_ino: 0,
        src_dev: 0,
        rdev: 0,
        mode,
        uid: 0,
        gid: 0,
        mtime: 7,
        nlink: 1,
        size,
        overlay: Overlay::UpperAddition,
        explicit_uidgid: true,
        target_vec: path(components),
        symlink: None,
        xattrs: Vec::new(),
        chunks: Vec::new(),
    }
}

/// One file of 1,048,577 zero bytes with a 1 MiB chunk size splits into two
/// chunks of different digests, and an LZ4 blob of it stays tiny.
#[test]
fn single_large_zero_file() {
    let mut dict = ChunkDict::new();
    let mut blob = BlobContext::new(0);
    let data = vec![0u8; 0x100001];
    let chunks = chunk_file(
        &mut dict,
        &mut blob,
        &data,
        0x100000,
        Digester::Blake3,
        Compressor::Lz4Block,
    )
    .unwrap();
    assert_eq!(chunks.len(), 2);
    assert_eq!(chunks[0].uncompressed_size, 0x100000);
    assert_eq!(chunks[1].uncompressed_size, 1);
    assert_eq!(chunks[0].file_offset, 0);
    assert_eq!(chunks[1].file_offset, 0x100000);
    // The two chunks differ in content length, so their digests differ.
    assert_ne!(chunks[0].digest, chunks[1].digest);
    // Both stored compressed forms of zeros stay below twice the compressed
    // size of one MiB of zeros.
    let one_mib = lz4_flex::block::compress(&vec![0u8; 0x100000]);
    assert!(blob.data.len() <= 2 * one_mib.len());
}

/// Two identical 4 KiB files produce one stored chunk; both files point at
/// the same chunk index.
#[test]
fn identical_files_share_chunks() {
    let mut dict = ChunkDict::new();
    let mut blob = BlobContext::new(0);
    let content = vec![0xabu8; 4096];
    let a = chunk_file(
        &mut dict,
        &mut blob,
        &content,
        4096,
        Digester::Blake3,
        Compressor::Lz4Block,
    )
    .unwrap();
    let b = chunk_file(
        &mut dict,
        &mut blob,
        &content,
        4096,
        Digester::Blake3,
        Compressor::Lz4Block,
    )
    .unwrap();
    assert_eq!(blob.chunk_count(), 1);
    assert_eq!(a[0].chunk_index, b[0].chunk_index);
    assert_eq!(a[0].compressed_offset, b[0].compressed_offset);
    assert_eq!(a[0].digest, b[0].digest);
}

fn build_ten_file_tree(dict: &mut ChunkDict, blob: &mut BlobContext) -> Tree {
    let mut root = Tree::new(make_node(&[], DIR, 0));
    for i in 0..10u8 {
        let name = format!("f{}", i);
        let content = vec![i; 1000 + i as usize];
        let chunks = chunk_file(
            dict,
            blob,
            &content,
            4096,
            Digester::Sha256,
            Compressor::Lz4Block,
        )
        .unwrap();
        let mut n = make_node(&[&name], REG, content.len() as u64);
        n.chunks = chunks;
        root.children.push(Tree { node: n, children: Vec::new() });
    }
    root
}

fn build_image(version: RafsVersion) -> (Vec<u8>, Vec<u8>) {
    let mut dict = ChunkDict::new();
    let mut blob = BlobContext::new(0);
    let tree = build_ten_file_tree(&mut dict, &mut blob);
    let entry = blob.seal(Digester::Sha256);
    let sup = build_bootstrap(
        &tree,
        version,
        Compressor::Lz4Block,
        Digester::Sha256,
        false,
        4096,
        true,
        vec![entry],
        Vec::new(),
    )
    .unwrap();
    (encode_bootstrap(&sup), blob.data)
}

/// A repeatable build of the same ten-file tree twice is byte-identical, in
/// the bootstrap and in the blob.
#[test]
fn repeatable_build_is_byte_identical() {
    let (boot1, blob1) = build_image(RafsVersion::V5);
    let (boot2, blob2) = build_image(RafsVersion::V5);
    let h1 = <sha2::Sha256 as sha2::Digest>::digest(&boot1);
    let h2 = <sha2::Sha256 as sha2::Digest>::digest(&boot2);
    assert_eq!(h1, h2);
    assert_eq!(blob1, blob2);
}

/// Building, loading and enumerating preserves names, modes, sizes and chunk
/// digests; rebuilding the loaded tree under the other layout preserves them
/// again.
#[test]
fn cross_version_round_trip() {
    let (boot_v5, _blob) = build_image(RafsVersion::V5);
    let sup5 = parse_bootstrap(&boot_v5).unwrap();
    assert_eq!(sup5.inodes.len(), 11);

    // Reload as a tree and write it back under the padded layout.
    let mut dict2 = ChunkDict::new();
    let tree2 = Tree::from_bootstrap(&sup5, &mut dict2).unwrap();
    let blobs2: Vec<rafs::blob::BlobEntry> = sup5.blobs.iter().map(|b| b.duplicate()).collect();
    let sup6in = build_bootstrap(
        &tree2,
        RafsVersion::V6,
        Compressor::Lz4Block,
        Digester::Sha256,
        false,
        4096,
        true,
        blobs2,
        Vec::new(),
    )
    .unwrap();
    let boot_v6 = encode_bootstrap(&sup6in);
    assert_eq!(&boot_v6[0..8], &[0u8; 8]);
    let sup6 = parse_bootstrap(&boot_v6).unwrap();

    // Both loaders enumerate identical file sets with identical metadata.
    assert_eq!(sup5.inodes.len(), sup6.inodes.len());
    for (a, b) in sup5.inodes.iter().zip(sup6.inodes.iter()) {
        assert_eq!(a.name, b.name);
        assert_eq!(a.mode, b.mode);
        assert_eq!(a.size, b.size);
        assert_eq!(a.children, b.children);
        assert_eq!(a.chunks.len(), b.chunks.len());
        for (ca, cb) in a.chunks.iter().zip(b.chunks.iter()) {
            assert_eq!(ca.digest, cb.digest);
            assert_eq!(ca.file_offset, cb.file_offset);
        }
    }
    // The dictionary was fed every chunk of the loaded image.
    assert_eq!(dict2.len(), 10);
}

/// A corrupt data-blob byte leaves the bootstrap loadable, but validating
/// the affected chunk's digest reports corruption.
#[test]
fn corrupt_blob_byte_fails_digest_validation() {
    let mut dict = ChunkDict::new();
    let mut blob = BlobContext::new(0);
    let content = b"hello chunked world".to_vec();
    let chunks = chunk_file(
        &mut dict,
        &mut blob,
        &content,
        4096,
        Digester::Blake3,
        Compressor::Plain,
    )
    .unwrap();
    let mut tree = Tree::new(make_node(&[], DIR, 0));
    let mut n = make_node(&["a"], REG, content.len() as u64);
    n.chunks = chunks;
    tree.children.push(Tree { node: n, children: Vec::new() });
    let entry = blob.seal(Digester::Blake3);
    let sup = build_bootstrap(
        &tree,
        RafsVersion::V5,
        Compressor::Plain,
        Digester::Blake3,
        false,
        4096,
        false,
        vec![entry],
        Vec::new(),
    )
    .unwrap();
    let boot = encode_bootstrap(&sup);

    // Corrupt one byte of the data blob.
    let mut blob_bytes = blob.data.clone();
    blob_bytes[3] ^= 0xff;

    // The bootstrap still loads.
    let sup2 = parse_bootstrap(&boot).unwrap();
    let rec = sup2.get_inode(2, true).unwrap();
    let ck = rec.get_chunk_info(0).unwrap();

    // Reading the affected chunk and validating its digest fails.
    let r = rafs::blob::read_chunk(&blob_bytes, ck, Compressor::Plain, Digester::Blake3);
    assert!(matches!(r, Err(rafs::RafsError::Corruption(_))));
    let start = ck.compressed_offset as usize;
    let end = start + ck.compressed_size as usize;
    let read_back = blob_bytes[start..end].to_vec();
    let r2 = validate_chunk_data(&read_back, &ck.digest, Digester::Blake3);
    assert!(matches!(r2, Err(rafs::RafsError::Corruption(_))));

    // The pristine bytes still read back whole.
    let pristine = rafs::blob::read_chunk(&blob.data, ck, Compressor::Plain, Digester::Blake3)
        .unwrap();
    assert_eq!(pristine, content);
}

/// The validator accepts a freshly built image and rejects a tampered one.
#[test]
fn validator_accepts_fresh_and_rejects_tampered() {
    let (boot, _blob) = build_image(RafsVersion::V5);
    let v = Validator::new(&boot).unwrap();
    let ids = v.check().unwrap();
    assert_eq!(ids.len(), 1);
    // The blob id is the hex digest of the blob contents: 64 hex digits.
    assert_eq!(ids[0].len(), 64);

    let mut v2 = Validator::new(&boot).unwrap();
    // Point a chunk out of its blob's range.
    v2.sup.inodes[1].chunks[0].chunk_index = 9999;
    assert!(v2.check().is_err());

    let mut v3 = Validator::new(&boot).unwrap();
    // Break the tiling of a file.
    v3.sup.inodes[1].chunks[0].file_offset = 17;
    assert!(v3.check().is_err());
}

/// A flipped bit in the superblock fails its checksum and the parse.
#[test]
fn superblock_checksum_detects_damage() {
    let (mut boot, _blob) = build_image(RafsVersion::V5);
    boot[9] ^= 1;
    assert!(matches!(
        parse_bootstrap(&boot),
        Err(rafs::RafsError::FillSuperblock(_))
    ));
}

/// A compressed chunk reads back as its original uncompressed bytes.
#[test]
fn compressed_chunk_reads_back() {
    let mut dict = ChunkDict::new();
    let mut blob = BlobContext::new(0);
    let content = vec![0x5au8; 8192];
    let chunks = chunk_file(
        &mut dict,
        &mut blob,
        &content,
        4096,
        Digester::Sha256,
        Compressor::Lz4Block,
    )
    .unwrap();
    let back0 = rafs::blob::read_chunk(&blob.data, &chunks[0], Compressor::Lz4Block, Digester::Sha256)
        .unwrap();
    assert_eq!(back0, content[0..4096].to_vec());
}

/// The digest of a chunk is the digest of its uncompressed bytes.
#[test]
fn chunk_digest_covers_uncompressed_bytes() {
    let mut dict = ChunkDict::new();
    let mut blob = BlobContext::new(0);
    let content = vec![7u8; 5000];
    let chunks = chunk_file(
        &mut dict,
        &mut blob,
        &content,
        4096,
        Digester::Sha256,
        Compressor::Lz4Block,
    )
    .unwrap();
    assert_eq!(chunks[0].digest, digest(Digester::Sha256, &content[0..4096]));
    assert_eq!(chunks[1].digest, digest(Digester::Sha256, &content[4096..5000]));
    // The wrapper really hashes: the digest is 32 bytes, not the input.
    assert_eq!(chunks[0].digest.len(), 32);
    assert_ne!(chunks[0].digest[..], content[0..32]);
}

/// The validator rejects directory entries that are not sorted by name.
#[test]
fn validator_rejects_unsorted_children() {
    let (boot, _blob) = build_image(RafsVersion::V5);
    let mut v = Validator::new(&boot).unwrap();
    assert!(v.check().is_ok());
    // Swap two entries of the root directory: f1 before f0.
    v.sup.inodes[0].children.swap(0, 1);
    assert!(v.check().is_err());
}

/// The validator rejects a symbolic link that stores no target.
#[test]
fn validator_rejects_symlink_without_target() {
    let (boot, _blob) = build_image(RafsVersion::V5);
    let mut v = Validator::new(&boot).unwrap();
    v.sup.inodes[1].mode = 0o120777;
    v.sup.inodes[1].chunks.clear();
    v.sup.inodes[1].size = 0;
    v.sup.inodes[1].symlink = None;
    assert!(v.check().is_err());
    v.sup.inodes[1].symlink = Some(b"target".to_vec());
    assert!(v.check().is_ok());
}

/// A chunk whose stored range lies outside its blob is reported as
/// corruption by the read path.
#[test]
fn read_chunk_rejects_out_of_range() {
    let mut dict = ChunkDict::new();
    let mut blob = BlobContext::new(0);
    let content = vec![1u8; 100];
    let chunks = chunk_file(
        &mut dict,
        &mut blob,
        &content,
        4096,
        Digester::Blake3,
        Compressor::Plain,
    )
    .unwrap();
    let mut c = chunks[0].duplicate();
    c.compressed_offset = blob.data.len() as u64;
    assert!(matches!(
        rafs::blob::read_chunk(&blob.data, &c, Compressor::Plain, Digester::Blake3),
        Err(rafs::RafsError::Corruption(_))
    ));
}

/// Statistics over two images: every regular file counts, and with
/// deduplication a chunk digest shared between the images counts once.
#[test]
fn stat_counts_files_and_new_chunks() {
    let (boot, _blob) = build_image(RafsVersion::V5);
    let sup_a = parse_bootstrap(&boot).unwrap();
    // A second image sharing one file's content with the first: its chunk
    // digests repeat one of the first image's digests.
    let mut dict_b = ChunkDict::new();
    let mut blob_b = BlobContext::new(0);
    let tree_b = {
        let mut root = Tree::new(make_node(&[], DIR, 0));
        // Same bytes as f3 of the first image, plus one new file.
        for (name, byte, len) in [("same", 3u8, 1003usize), ("other", 99u8, 50usize)] {
            let content = vec![byte; len];
            let chunks = chunk_file(
                &mut dict_b,
                &mut blob_b,
                &content,
                4096,
                Digester::Sha256,
                Compressor::Lz4Block,
            )
            .unwrap();
            let mut n = make_node(&[name], REG, content.len() as u64);
            n.chunks = chunks;
            root.children.push(Tree { node: n, children: Vec::new() });
        }
        root
    };
    let entry_b = blob_b.seal(Digester::Sha256);
    let sup_b = build_bootstrap(
        &tree_b,
        RafsVersion::V5,
        Compressor::Lz4Block,
        Digester::Sha256,
        false,
        4096,
        true,
        vec![entry_b],
        Vec::new(),
    )
    .unwrap();

    // With deduplication, the shared digest counts once across the group.
    let mut acc = ImageStat::new();
    let mut dict = ChunkDict::new();
    stat_image(&mut acc, &sup_a, &mut dict, true);
    assert_eq!(acc.files, 10);
    assert_eq!(acc.chunks, 10);
    stat_image(&mut acc, &sup_b, &mut dict, true);
    assert_eq!(acc.files, 12);
    assert_eq!(acc.chunks, 11);

    // Without deduplication every chunk counts.
    let mut acc2 = ImageStat::new();
    let mut dict2 = ChunkDict::new();
    stat_image(&mut acc2, &sup_a, &mut dict2, false);
    stat_image(&mut acc2, &sup_b, &mut dict2, false);
    assert_eq!(acc2.files, 12);
    assert_eq!(acc2.chunks, 12);
}

/// The validator rejects an inode that no directory lists and accepts the
/// intact parent links.
#[test]
fn validator_rejects_broken_parent_link() {
    let (boot, _blob) = build_image(RafsVersion::V5);
    let mut v = Validator::new(&boot).unwrap();
    // Point a file's parent at itself: its recorded parent no longer lists it.
    v.sup.inodes[4].parent = 5;
    assert!(v.check().is_err());
}

/// The padded serializer writes whole 4 KiB blocks and the parser ignores
/// the trailing padding.
#[test]
fn save_bootstrap_pads_to_4k() {
    let (boot, _blob) = build_image(RafsVersion::V5);
    let sup = parse_bootstrap(&boot).unwrap();
    let mut w = rafs::io::MemWriter::new();
    rafs::bootstrap::save_bootstrap(&sup, &mut w).unwrap();
    let padded = w.into_inner();
    assert_eq!(padded.len() % 4096, 0);
    assert!(padded.len() >= boot.len());
    assert_eq!(&padded[0..boot.len()], &boot[..]);
    let sup2 = parse_bootstrap(&padded).unwrap();
    assert_eq!(sup2.inodes.len(), sup.inodes.len());
}

/// Paths resolve to inode numbers by descending the directory entries; the
/// resolved inodes are what a prefetch table lists.
#[test]
fn resolve_path_finds_inodes() {
    let (boot, _blob) = build_image(RafsVersion::V5);
    let sup = parse_bootstrap(&boot).unwrap();
    let ino = sup.resolve_path(&vec![b"f3".to_vec()]).unwrap();
    let rec = sup.get_inode(ino, true).unwrap();
    assert_eq!(rec.name(), &b"f3".to_vec());
    assert!(sup.resolve_path(&vec![b"missing".to_vec()]).is_none());
    assert!(sup
        .resolve_path(&vec![b"f3".to_vec(), b"deeper".to_vec()])
        .is_none());
    // The empty path is the root.
    assert_eq!(sup.resolve_path(&Vec::new()).unwrap(), 1);
}
