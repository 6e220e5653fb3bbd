//! Codec for sector-aligned game-asset archives in the `IMG`/`DIR` family.
//!
//! Two on-disk layouts are supported: V1 keeps the index (a `dir` stream of
//! 32-byte records) separate from the data (`img`) stream, while V2 combines a
//! magic header, an entry table and the data in a single `img` stream.  All
//! offsets and lengths are counted in whole 2048-byte sectors.
//!
//! The codec works on in-memory byte buffers: callers read the archive bytes
//! from wherever they live, hand them to a reader, and receive an [`read::Archive`]
//! whose entries can be enumerated and streamed; writers build the index and
//! data buffers which callers then persist.

use vstd::prelude::*;

use crate::read::Reader;

pub mod codec;
pub mod error;
pub mod name;
pub mod read;
pub mod sector;
pub mod write;

verus! {

/// The version of an archive, together with its byte buffers: V1 keeps the
/// index (`dir`) and the data (`img`) separate, V2 combines both in one
/// buffer.
pub enum Version {
    /// A V1 archive: a separate index buffer and data buffer.
    V1 { dir: Vec<u8>, img: Vec<u8> },
    /// A V2 archive: one combined buffer.
    V2 { img: Vec<u8> },
}

/// Attempts to read the archive held in the given version's buffers.
///
/// On success the archive holds the parsed entries over the version's data
/// buffer; on failure the error says whether the input ended early or the
/// V2 magic did not match.
pub fn read(version: Version) -> (r: Result<read::Archive, error::ReadError>)
    ensures
        match version {
            Version::V1 { dir, img } => {
                &&& r is Ok <==> codec::v1_ok(dir@)
                &&& match r {
                    Ok(a) => a@.entries == codec::v1_entries(dir@) && a@.data == img@,
                    Err(e) => e == error::ReadError::UnexpectedEof,
                }
            },
            Version::V2 { img } => {
                &&& r is Ok <==> codec::v2_ok(img@)
                &&& match r {
                    Ok(a) => a@.entries == codec::v2_entries(img@) && a@.data == img@,
                    Err(e) => e == if img@.len() >= 4 && !codec::v2_has_magic(img@) {
                        error::ReadError::InvalidHeader
                    } else {
                        error::ReadError::UnexpectedEof
                    },
                }
            },
        },
{
    match version {
        Version::V1 { dir, img } => read::V1Reader::new(dir, img).read(),
        Version::V2 { img } => read::V2Reader::new(img).read(),
    }
}

/// Number of bytes in one sector; every entry's payload is padded to a
/// whole number of sectors.
pub const SECTOR_SIZE: u64 = 2048;

/// Maximum number of content bytes in an encoded entry name, excluding the
/// null terminator.
pub const NAME_SIZE: usize = 23;

/// Terminator byte for encoded entry names.
pub const NULL_TERMINATOR: u8 = 0;

} // verus!
