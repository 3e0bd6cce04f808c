//! Core of a content-addressed, chunk-deduplicated, read-only filesystem
//! image builder and loader.
//!
//! An image consists of one metadata blob (a "bootstrap" describing the
//! directory tree, inodes, extended attributes and chunk maps) plus zero or
//! more data blobs holding compressed, content-addressed chunks.  Chunks are
//! deduplicated globally by cryptographic digest.

use vstd::prelude::*;

pub mod blob;
pub mod builder;
pub mod bootstrap;
pub mod chunk;
pub mod compress;
pub mod config;
pub mod daemon;
pub mod digest;
pub mod io;
pub mod node;
pub mod prefetch;
pub mod stat;
pub mod tree;
pub mod validator;

verus! {

/// Error kinds for filesystem image operations.
///
/// Parse and I/O failures carry a human-readable context string instead of
/// the underlying error object, so that callers can match on the kind.
#[derive(Debug)]
pub enum RafsError {
    /// A feature request the current version cannot honor.
    Unsupported,
    /// Operation before mount/open.
    Uninitialized,
    /// Duplicate mount.
    AlreadyMounted,
    /// Bootstrap parse failure; fatal to the operation.
    ReadMetadata(String),
    /// Configuration could not be loaded.
    LoadConfig(String),
    /// Configuration could not be parsed.
    ParseConfig(String),
    /// Transport setup failure while swapping the storage backend.
    SwapBackend(String),
    /// Superblock could not be filled in from the bootstrap.
    FillSuperblock(String),
    /// Transport device creation failure.
    CreateDevice(String),
    /// Non-fatal prefetch failure; the prefetch step is skipped.
    Prefetch(String),
    /// Configuration validation failure.
    Configure(String),
    /// Digest mismatch, chunk out of range, unreachable inode or unaligned
    /// write; fatal.
    Corruption(String),
    /// Underlying I/O error, propagated with context.
    Io(String),
}

/// Specialized `Result` for filesystem image operations.
pub type RafsResult<T> = Result<T, RafsError>;

} // verus!
