//! Build configuration: the decisions the image builder takes on its
//! options before any file is touched.  The host front end parses the
//! command line and hands plain values in; everything here is the validation
//! and defaulting logic.

use vstd::prelude::*;

use crate::chunk::{RAFS_DEFAULT_CHUNK_SIZE, RAFS_MIN_CHUNK_SIZE};
use crate::compress::Compressor;
use crate::digest::Digester;
use crate::io::pow2_spec;
use crate::node::WhiteoutSpec;
use crate::{RafsError, RafsResult};

verus! {

/// Longest accepted blob identifier, in bytes.
pub const BLOB_ID_MAXIMUM_LENGTH: usize = 255;

/// The two on-disk versions of the bootstrap this crate speaks.
#[derive(PartialEq, Eq, Structural, Clone, Copy, Debug)]
pub enum RafsVersion {
    V5,
    V6,
}

impl RafsVersion {
    /// True for the padded layout of the later version.
    pub fn is_v6(&self) -> (r: bool)
        ensures
            r == (*self == RafsVersion::V6),
    {
        *self == RafsVersion::V6
    }
}

/// What kind of source a build reads.
#[derive(PartialEq, Eq, Structural, Clone, Copy, Debug)]
pub enum SourceType {
    /// A POSIX directory tree.
    Directory,
    /// A stargz index over a gzipped tar.
    StargzIndex,
    /// An ordered list of OverlayFS upper directories.
    Diff,
}

/// Where build artifacts are stored: a single file, or a directory that
/// receives one file per artifact.
pub enum ArtifactStorage {
    SingleFile(Vec<u8>),
    FileDir(Vec<u8>),
}

/// The numeric value of an ASCII hex digit.
pub open spec fn hex_val(c: u8) -> Option<u8> {
    if 48 <= c <= 57 {
        Some((c - 48) as u8)
    } else if 97 <= c <= 102 {
        Some((c - 87) as u8)
    } else if 65 <= c <= 70 {
        Some((c - 55) as u8)
    } else {
        None
    }
}

/// The value of a hex digit string, read left to right; `None` when a
/// character is no hex digit, the string is empty, or the value does not fit
/// 32 bits.
pub open spec fn spec_hex_u32(s: Seq<u8>) -> Option<u32>
    decreases s.len(),
{
    if s.len() == 0 {
        None
    } else if s.len() == 1 {
        match hex_val(s[0]) {
            Some(v) => Some(v as u32),
            None => None,
        }
    } else {
        match spec_hex_u32(s.drop_last()) {
            Some(hi) => match hex_val(s.last()) {
                Some(v) => if hi <= 0x0fff_ffff {
                    Some((hi * 16 + v) as u32)
                } else {
                    None
                },
                None => None,
            },
            None => None,
        }
    }
}

/// Read a hex digit string into a 32-bit value.
pub fn parse_hex_u32(s: &[u8]) -> (r: Option<u32>)
    ensures
        r == spec_hex_u32(s@),
{
    let n = s.len();
    if n == 0 {
        return None;
    }
    let mut i: usize = 0;
    let mut acc: u32 = 0;
    let mut ok = true;
    while i < n
        invariant
            i <= n,
            n == s@.len(),
            1 <= n,
            i > 0 ==> (if ok {
                spec_hex_u32(s@.take(i as int)) == Some(acc)
            } else {
                spec_hex_u32(s@.take(i as int)) is None
            }),
            i == 0 ==> ok && acc == 0,
        decreases n - i,
    {
        let c = s[i];
        let d: Option<u8> = if 48 <= c && c <= 57 {
            Some(c - 48)
        } else if 97 <= c && c <= 102 {
            Some(c - 87)
        } else if 65 <= c && c <= 70 {
            Some(c - 55)
        } else {
            None
        };
        proof {
            assert(d == hex_val(s@[i as int]));
            assert(s@.take(i + 1).drop_last() =~= s@.take(i as int));
            assert(s@.take(i + 1).last() == s@[i as int]);
            if i == 0 {
                assert(s@.take(1).len() == 1);
            }
        }
        match d {
            Some(v) => {
                if i == 0 {
                    acc = v as u32;
                } else if ok && acc <= 0x0fff_ffff {
                    acc = acc * 16 + v as u32;
                } else {
                    ok = false;
                }
            },
            None => {
                ok = false;
            },
        }
        i = i + 1;
    }
    proof {
        assert(s@.take(n as int) =~= s@);
    }
    if ok {
        Some(acc)
    } else {
        None
    }
}

/// True if `n` is a power of two.
pub fn is_power_of_two_u32(n: u32) -> (r: bool)
    ensures
        r == pow2_spec(n as int),
{
    if n == 0 {
        proof {
            reveal(vstd::arithmetic::power2::is_pow2);
        }
        return false;
    }
    let mut m = n;
    while m % 2 == 0
        invariant
            1 <= m <= n,
            pow2_spec(n as int) == pow2_spec(m as int),
        decreases m,
    {
        proof {
            reveal(vstd::arithmetic::power2::is_pow2);
        }
        m = m / 2;
    }
    proof {
        reveal(vstd::arithmetic::power2::is_pow2);
    }
    m == 1
}

/// The leading `0x` markers stripped from a chunk-size argument, then the
/// trailing `0X` markers, as the builder's front end accepts both spellings.
pub open spec fn spec_strip_hex_marks(s: Seq<u8>) -> Seq<u8>
    decreases s.len(),
{
    if s.len() >= 2 && s[0] == 48 && s[1] == 120 {
        spec_strip_hex_marks(s.skip(2))
    } else if s.len() >= 2 && s[s.len() - 2] == 48 && s[s.len() - 1] == 88 {
        spec_strip_hex_marks(s.take(s.len() - 2))
    } else {
        s
    }
}

/// Strip `0x` prefixes and `0X` suffixes from a chunk-size argument.
pub fn strip_hex_marks(s: &[u8]) -> (r: Vec<u8>)
    ensures
        r@ == spec_strip_hex_marks(s@),
    decreases s@.len(),
{
    let n = s.len();
    if n >= 2 && s[0] == 48 && s[1] == 120 {
        let rest = crate::node::clone_slice(s);
        let mut sub: Vec<u8> = Vec::new();
        let mut i: usize = 2;
        while i < n
            invariant
                2 <= i <= n,
                n == s@.len(),
                rest@ == s@,
                sub@ == s@.subrange(2, i as int),
            decreases n - i,
        {
            sub.push(rest[i]);
            assert(sub@ =~= s@.subrange(2, i + 1));
            i = i + 1;
        }
        assert(sub@ =~= s@.skip(2));
        strip_hex_marks(sub.as_slice())
    } else if n >= 2 && s[n - 2] == 48 && s[n - 1] == 88 {
        let mut sub: Vec<u8> = Vec::new();
        let mut i: usize = 0;
        while i < n - 2
            invariant
                i <= n - 2,
                2 <= n == s@.len(),
                sub@ == s@.take(i as int),
            decreases n - 2 - i,
        {
            sub.push(s[i]);
            assert(sub@ =~= s@.take(i + 1));
            i = i + 1;
        }
        assert(sub@ =~= s@.take(n as int - 2));
        strip_hex_marks(sub.as_slice())
    } else {
        crate::node::clone_slice(s)
    }
}

/// The chunk size a chunk-size argument selects: its hex value, accepted
/// only if it is a power of two between 4 KiB and 1 MiB.
pub open spec fn spec_chunk_size_of(s: Seq<u8>) -> Option<u32> {
    match spec_hex_u32(spec_strip_hex_marks(s)) {
        Some(v) => if v as int <= RAFS_DEFAULT_CHUNK_SIZE as int && v >= RAFS_MIN_CHUNK_SIZE
            && pow2_spec(v as int) {
            Some(v)
        } else {
            None
        },
        None => None,
    }
}

/// Read and validate a chunk-size argument such as `0x100000`.  `None`
/// selects the default of 1 MiB; anything but a power of two between 4 KiB
/// and 1 MiB is refused.
pub fn get_chunk_size(arg: Option<&Vec<u8>>) -> (r: RafsResult<u32>)
    ensures
        match arg {
            None => r matches Ok(c) && c == RAFS_DEFAULT_CHUNK_SIZE,
            Some(s) => match spec_chunk_size_of(s@) {
                Some(c) => r matches Ok(x) && x == c,
                None => r is Err,
            },
        },
{
    match arg {
        None => Ok(RAFS_DEFAULT_CHUNK_SIZE),
        Some(s) => {
            let stripped = strip_hex_marks(s.as_slice());
            match parse_hex_u32(stripped.as_slice()) {
                Some(v) => {
                    if v > RAFS_DEFAULT_CHUNK_SIZE || v < RAFS_MIN_CHUNK_SIZE
                        || !is_power_of_two_u32(v) {
                        Err(RafsError::Configure("invalid chunk size".to_string()))
                    } else {
                        Ok(v)
                    }
                },
                None => Err(RafsError::Configure("invalid chunk size".to_string())),
            }
        },
    }
}

/// Read a version argument: 5 and 6 name the two bootstrap layouts, nothing
/// else is accepted; a missing argument selects the later one.
pub fn get_fs_version(arg: Option<u32>) -> (r: RafsResult<RafsVersion>)
    ensures
        match arg {
            None => r matches Ok(v) && v == RafsVersion::V6,
            Some(5u32) => r matches Ok(v) && v == RafsVersion::V5,
            Some(6u32) => r matches Ok(v) && v == RafsVersion::V6,
            Some(_) => r is Err,
        },
{
    match arg {
        None => Ok(RafsVersion::V6),
        Some(v) => {
            if v == 5 {
                Ok(RafsVersion::V5)
            } else if v == 6 {
                Ok(RafsVersion::V6)
            } else {
                Err(RafsError::Configure("invalid fs-version".to_string()))
            }
        },
    }
}

/// Accept a blob identifier: absent means empty, longer than 255 bytes is
/// refused.
pub fn get_blob_id(arg: Option<&Vec<u8>>) -> (r: RafsResult<Vec<u8>>)
    ensures
        match arg {
            None => r matches Ok(v) && v@ == Seq::<u8>::empty(),
            Some(s) => if s@.len() > BLOB_ID_MAXIMUM_LENGTH {
                r is Err
            } else {
                r matches Ok(v) && v@ == s@
            },
        },
{
    match arg {
        None => Ok(Vec::new()),
        Some(s) => {
            if s.len() > BLOB_ID_MAXIMUM_LENGTH {
                Err(RafsError::Configure("blob id too long".to_string()))
            } else {
                Ok(crate::node::clone_bytes(s))
            }
        },
    }
}

/// Pick where the data blob goes: an explicit blob file wins, then a blob
/// directory, then the blob file a legacy localfs backend configuration
/// names; sources that emit no blob (a stargz index) get none.  A build that
/// needs a blob but names no place for it is refused.
pub fn get_blob_storage(
    source_type: SourceType,
    blob: Option<Vec<u8>>,
    blob_dir: Option<Vec<u8>>,
    backend_blob_file: Option<Vec<u8>>,
) -> (r: RafsResult<Option<ArtifactStorage>>)
    ensures
        source_type == SourceType::StargzIndex ==> (r matches Ok(o) && o is None),
        source_type != SourceType::StargzIndex ==> match blob {
            Some(b) => (r matches Ok(Some(ArtifactStorage::SingleFile(p))) && p@ == b@),
            None => match blob_dir {
                Some(d) => (r matches Ok(Some(ArtifactStorage::FileDir(p))) && p@ == d@),
                None => match backend_blob_file {
                    Some(f) => (r matches Ok(Some(ArtifactStorage::SingleFile(p))) && p@ == f@),
                    None => r is Err,
                },
            },
        },
{
    if source_type == SourceType::Directory || source_type == SourceType::Diff {
        match blob {
            Some(b) => Ok(Some(ArtifactStorage::SingleFile(b))),
            None => match blob_dir {
                Some(d) => Ok(Some(ArtifactStorage::FileDir(d))),
                None => match backend_blob_file {
                    Some(f) => Ok(Some(ArtifactStorage::SingleFile(f))),
                    None => Err(RafsError::Configure("invalid backend config".to_string())),
                },
            },
        }
    } else {
        Ok(None)
    }
}

/// Everything a build needs to know, validated.
pub struct BuildConfig {
    pub source_type: SourceType,
    pub blob_id: Vec<u8>,
    pub chunk_size: u32,
    pub compressor: Compressor,
    pub digester: Digester,
    pub fs_version: RafsVersion,
    pub explicit_uidgid: bool,
    pub aligned_chunk: bool,
    pub repeatable: bool,
    pub whiteout_spec: WhiteoutSpec,
}

/// Resolve the build options: a stargz source forces the gzip compressor,
/// the SHA-256 digester and a non-empty blob id; the later layout version
/// enforces 4 KiB aligned chunks; `repeatable` gives up explicit uid/gid so
/// that identical inputs give identical images.
pub fn resolve_build_config(
    source_type: SourceType,
    blob_id: Vec<u8>,
    chunk_size: u32,
    compressor: Compressor,
    digester: Digester,
    fs_version: RafsVersion,
    aligned_chunk: bool,
    repeatable: bool,
    whiteout_spec: WhiteoutSpec,
) -> (r: RafsResult<BuildConfig>)
    ensures
        match r {
            Ok(c) => {
                &&& c.source_type == source_type
                &&& c.blob_id@ == blob_id@
                &&& c.chunk_size == chunk_size
                &&& c.compressor == (if source_type == SourceType::StargzIndex {
                    Compressor::Gzip
                } else {
                    compressor
                })
                &&& c.digester == (if source_type == SourceType::StargzIndex {
                    Digester::Sha256
                } else {
                    digester
                })
                &&& c.fs_version == fs_version
                &&& c.aligned_chunk == (fs_version == RafsVersion::V6 || aligned_chunk)
                &&& c.explicit_uidgid == !repeatable
                &&& c.repeatable == repeatable
                &&& c.whiteout_spec == whiteout_spec
                &&& (source_type == SourceType::StargzIndex ==> blob_id@.len() > 0)
            },
            Err(_) => source_type == SourceType::StargzIndex && blob_id@.len() == 0,
        },
{
    let mut compressor = compressor;
    let mut digester = digester;
    if source_type == SourceType::StargzIndex {
        if blob_id.len() == 0 {
            return Err(RafsError::Configure("blob-id can't be empty".to_string()));
        }
        compressor = Compressor::Gzip;
        digester = Digester::Sha256;
    }
    let aligned = if fs_version.is_v6() {
        true
    } else {
        aligned_chunk
    };
    Ok(
        BuildConfig {
            source_type,
            blob_id,
            chunk_size,
            compressor,
            digester,
            fs_version,
            explicit_uidgid: !repeatable,
            aligned_chunk: aligned,
            repeatable,
            whiteout_spec,
        },
    )
}

/// The daemon's open-files target: a million file descriptors, reduced so
/// that at least 16384 stay free below the system-wide maximum; a system
/// maximum too low for that is refused.  A current limit already at or above
/// the target yields zero, meaning the limit is left unchanged.
pub fn default_rlimit_nofile(file_max: u64, current: u64) -> (r: RafsResult<u64>)
    ensures
        file_max < 32768 ==> r is Err,
        file_max >= 32768 ==> {
            let target = if file_max - 16384 < 1000000 {
                (file_max - 16384) as u64
            } else {
                1000000u64
            };
            r matches Ok(v) && v == (if current >= target {
                0u64
            } else {
                target
            })
        },
{
    let reserved_fds: u64 = 16384;
    if file_max < 2 * reserved_fds {
        return Err(
            RafsError::Configure(
                "The fs.file-max sysctl is too low to allow a reasonable number of open files.".to_string(),
            ),
        );
    }
    let max_fds: u64 = if file_max - reserved_fds < 1000000 {
        file_max - reserved_fds
    } else {
        1000000
    };
    if current >= max_fds {
        Ok(0)
    } else {
        Ok(max_fds)
    }
}

} // verus!
