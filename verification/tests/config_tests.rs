use rafs::blob::hex_encode;
use rafs::compress::{gzip_decompress, lz4_decompress, Compressor};
use rafs::config::{
    default_rlimit_nofile, get_blob_id, get_blob_storage, get_chunk_size, get_fs_version,
    resolve_build_config, ArtifactStorage, RafsVersion, SourceType,
};
use rafs::daemon::{daemon_transition, DaemonAction, DaemonEvent, DaemonState};
use rafs::prefetch::{plan_prefetch, PrefetchPolicy};
use rafs::digest::Digester;
use rafs::node::WhiteoutSpec;

#[test]
fn chunk_size_parses_hex_with_markers() {
    assert_eq!(get_chunk_size(None).unwrap(), 0x100000);
    assert_eq!(get_chunk_size(Some(&b"0x100000".to_vec())).unwrap(), 0x100000);
    assert_eq!(get_chunk_size(Some(&b"0x1000".to_vec())).unwrap(), 0x1000);
    assert_eq!(get_chunk_size(Some(&b"8000".to_vec())).unwrap(), 0x8000);
    // Not a power of two.
    assert!(get_chunk_size(Some(&b"0x999".to_vec())).is_err());
    // Below 4 KiB.
    assert!(get_chunk_size(Some(&b"0x800".to_vec())).is_err());
    // Above 1 MiB.
    assert!(get_chunk_size(Some(&b"0x200000".to_vec())).is_err());
    // Not hex.
    assert!(get_chunk_size(Some(&b"zz".to_vec())).is_err());
    assert!(get_chunk_size(Some(&b"".to_vec())).is_err());
}

#[test]
fn fs_version_accepts_five_and_six() {
    assert_eq!(get_fs_version(None).unwrap(), RafsVersion::V6);
    assert_eq!(get_fs_version(Some(5)).unwrap(), RafsVersion::V5);
    assert_eq!(get_fs_version(Some(6)).unwrap(), RafsVersion::V6);
    assert!(get_fs_version(Some(7)).is_err());
}

#[test]
fn blob_id_limited_to_255_bytes() {
    assert_eq!(get_blob_id(None).unwrap(), Vec::<u8>::new());
    assert_eq!(get_blob_id(Some(&b"abc".to_vec())).unwrap(), b"abc".to_vec());
    let long = vec![b'a'; 256];
    assert!(get_blob_id(Some(&long)).is_err());
    let edge = vec![b'a'; 255];
    assert_eq!(get_blob_id(Some(&edge)).unwrap().len(), 255);
}

#[test]
fn blob_storage_selection() {
    // An explicit blob file wins.
    match get_blob_storage(
        SourceType::Directory,
        Some(b"/b".to_vec()),
        Some(b"/d".to_vec()),
        None,
    )
    .unwrap()
    {
        Some(ArtifactStorage::SingleFile(p)) => assert_eq!(p, b"/b".to_vec()),
        _ => panic!("expected a single file"),
    }
    // Then a blob directory.
    match get_blob_storage(SourceType::Diff, None, Some(b"/d".to_vec()), None).unwrap() {
        Some(ArtifactStorage::FileDir(p)) => assert_eq!(p, b"/d".to_vec()),
        _ => panic!("expected a directory"),
    }
    // Then the legacy backend configuration's blob file.
    match get_blob_storage(SourceType::Directory, None, None, Some(b"/f".to_vec())).unwrap() {
        Some(ArtifactStorage::SingleFile(p)) => assert_eq!(p, b"/f".to_vec()),
        _ => panic!("expected a single file"),
    }
    // Nothing given: refused.
    assert!(get_blob_storage(SourceType::Directory, None, None, None).is_err());
    // A stargz index emits no blob.
    assert!(get_blob_storage(SourceType::StargzIndex, Some(b"/b".to_vec()), None, None)
        .unwrap()
        .is_none());
}

#[test]
fn stargz_forces_gzip_and_sha256() {
    let c = resolve_build_config(
        SourceType::StargzIndex,
        b"id".to_vec(),
        0x100000,
        Compressor::Lz4Block,
        Digester::Blake3,
        RafsVersion::V5,
        false,
        false,
        WhiteoutSpec::Oci,
    )
    .unwrap();
    assert_eq!(c.compressor, Compressor::Gzip);
    assert_eq!(c.digester, Digester::Sha256);
    // A stargz build without a blob id is refused.
    assert!(resolve_build_config(
        SourceType::StargzIndex,
        Vec::new(),
        0x100000,
        Compressor::Gzip,
        Digester::Sha256,
        RafsVersion::V5,
        false,
        false,
        WhiteoutSpec::Oci,
    )
    .is_err());
}

#[test]
fn v6_enforces_aligned_chunks_and_repeatable_drops_uidgid() {
    let c = resolve_build_config(
        SourceType::Directory,
        Vec::new(),
        0x1000,
        Compressor::Plain,
        Digester::Blake3,
        RafsVersion::V6,
        false,
        true,
        WhiteoutSpec::Oci,
    )
    .unwrap();
    assert!(c.aligned_chunk);
    assert!(!c.explicit_uidgid);
    assert!(c.repeatable);
}

#[test]
fn rlimit_target_computation() {
    // A very low system maximum is refused.
    assert!(default_rlimit_nofile(20000, 0).is_err());
    // Reduced below the system maximum, leaving 16384 free.
    assert_eq!(default_rlimit_nofile(100000, 0).unwrap(), 100000 - 16384);
    // Capped at a million.
    assert_eq!(default_rlimit_nofile(5_000_000, 0).unwrap(), 1_000_000);
    // A current limit already at the target leaves it unchanged.
    assert_eq!(default_rlimit_nofile(5_000_000, 1_000_000).unwrap(), 0);
}

#[test]
fn hex_encoding_is_lower_case_two_digits() {
    assert_eq!(hex_encode(&[0xab, 0x01, 0xf0]), b"ab01f0".to_vec());
    assert_eq!(hex_encode(&[]), Vec::<u8>::new());
}

#[test]
fn compressors_round_trip() {
    let data = b"some repetitive data some repetitive data some repetitive data".to_vec();
    let (lz4, lz4_compressed) = rafs::compress::compress(Compressor::Lz4Block, &data);
    assert!(lz4_compressed);
    assert_ne!(lz4, data);
    assert_eq!(lz4_decompress(&lz4, data.len()).unwrap(), data);

    let (gz, gz_compressed) = rafs::compress::compress(Compressor::Gzip, &data);
    assert!(gz_compressed);
    assert_eq!(gzip_decompress(&gz).unwrap(), data);

    // Incompressible input is stored plain with the flag cleared.
    let noise: Vec<u8> = (0..64u32).map(|i| (i * 37 % 251) as u8).collect();
    let (stored, compressed) = rafs::compress::compress(Compressor::Lz4Block, &noise);
    assert!(!compressed);
    assert_eq!(stored, noise);
}

#[test]
fn prefetch_spans_coalesce() {
    let spans = vec![(0u32, 0u64, 10u32), (0, 10, 5), (1, 20, 5), (1, 30, 5)];
    let merged = rafs::prefetch::coalesce_spans(&spans);
    assert_eq!(merged, vec![(0, 0, 15), (1, 20, 25), (1, 30, 35)]);
}

#[test]
fn split_chunks_tiles_exactly() {
    let spans = rafs::chunk::split_chunks(10, 4);
    assert_eq!(spans, vec![(0, 4), (4, 4), (8, 2)]);
    assert_eq!(rafs::chunk::split_chunks(0, 4096), vec![]);
    assert_eq!(rafs::chunk::split_chunks(4096, 4096), vec![(0, 4096)]);
}

#[test]
fn daemon_lifecycle_transitions() {
    let (s, a) = daemon_transition(DaemonState::Init, DaemonEvent::Mount);
    assert_eq!(s, DaemonState::Ready);
    assert_eq!(a, DaemonAction::Idle);
    let (s, a) = daemon_transition(s, DaemonEvent::Start);
    assert_eq!(s, DaemonState::Running);
    assert_eq!(a, DaemonAction::StartService);
    let (s, a) = daemon_transition(s, DaemonEvent::Stop);
    assert_eq!(s, DaemonState::Interrupted);
    assert_eq!(a, DaemonAction::Umount);
    let (s, a) = daemon_transition(s, DaemonEvent::Exit);
    assert_eq!(s, DaemonState::Stopped);
    assert_eq!(a, DaemonAction::TriggerExit);
    // A stopped daemon ignores further events.
    let (s, a) = daemon_transition(s, DaemonEvent::Start);
    assert_eq!(s, DaemonState::Stopped);
    assert_eq!(a, DaemonAction::Idle);
    // An event that does not apply is rejected, keeping the state.
    let (s, a) = daemon_transition(DaemonState::Ready, DaemonEvent::Exit);
    assert_eq!(s, DaemonState::Ready);
    assert_eq!(a, DaemonAction::Reject);
    // Virtio queue selection: the two queues, nothing else.
    assert_eq!(rafs::daemon::select_queue(0).unwrap(), 0);
    assert_eq!(rafs::daemon::select_queue(1).unwrap(), 1);
    assert!(rafs::daemon::select_queue(2).is_err());
}

#[test]
fn prefetch_plan_honors_policy() {
    let spans = vec![(0u32, 0u64, 10u32), (0, 10, 5)];
    assert_eq!(plan_prefetch(PrefetchPolicy::Disabled, &spans), vec![]);
    assert_eq!(plan_prefetch(PrefetchPolicy::Fs, &spans), vec![(0, 0, 15)]);
    assert_eq!(plan_prefetch(PrefetchPolicy::Blob, &spans), vec![(0, 0, 15)]);
}
