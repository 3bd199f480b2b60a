//! The errors that depot operations report.
use vstd::prelude::*;

verus! {

/// The broad class of an error, as callers test it.
#[derive(Clone, Copy, Debug, PartialEq, Eq, Structural)]
pub enum ErrorKind {
    NotFound,
    InvalidInput,
    PermissionDenied,
    InvalidData,
}

#[derive(Clone, Debug)]
pub enum DepotError {
    /// A path to add does not exist; it carries the path.
    NotFound(String),
    /// A path to add is a directory or another non-regular entry.
    NotAFile(String),
    /// An entry of that name is already in the depot.
    DuplicateName(String),
    /// A name whose UTF-8 form does not fit a 32-bit length prefix.
    NameTooLong,
    /// The table of contents would count more bytes than 64 bits hold.
    SizeOverflow,
    /// An append on a depot opened for reading only.
    ReadOnly,
    /// The first eight bytes are not the depot magic.
    BadMagic,
    /// A header of a version newer than this library reads.
    UnsupportedVersion(u16),
    /// A header, table of contents or record ends before its last byte.
    Truncated,
    /// The table of contents does not lie between the header and the end:
    /// among other causes, a depot that was never finalized.
    TocOutOfRange(u64),
    /// An entry name that is not valid UTF-8.
    BadName,
    /// Names out of order or repeated in the table of contents.
    Unordered,
    /// An entry record with reserved flag bits set.
    BadFlags,
    /// An entry whose compressed region does not lie within the depot.
    RegionOutOfRange(String),
    /// A table of contents with an entry whose region is not between the
    /// header and the table.
    EntryOutOfBounds,
    /// A table of contents whose total size is not the sum of its non-empty
    /// entries' sizes.
    TotalMismatch,
    /// The compressed region of an entry does not decode.
    Corrupt(String),
    /// The decoded stream does not have the recorded length.
    SizeMismatch { name: String, expected: u64, actual: u64 },
    /// The decoded stream does not have the recorded hash.
    HashMismatch { name: String, expected: u64, actual: u64 },
}

impl DepotError {
    pub open spec fn kind_spec(&self) -> ErrorKind {
        match self {
            DepotError::NotFound(_) => ErrorKind::NotFound,
            DepotError::NotAFile(_) => ErrorKind::InvalidInput,
            DepotError::DuplicateName(_) => ErrorKind::InvalidInput,
            DepotError::NameTooLong => ErrorKind::InvalidInput,
            DepotError::SizeOverflow => ErrorKind::InvalidInput,
            DepotError::ReadOnly => ErrorKind::PermissionDenied,
            _ => ErrorKind::InvalidData,
        }
    }

    #[verifier::when_used_as_spec(kind_spec)]
    pub fn kind(&self) -> (r: ErrorKind)
        ensures
            r == self.kind_spec(),
    {
        match self {
            DepotError::NotFound(_) => ErrorKind::NotFound,
            DepotError::NotAFile(_) => ErrorKind::InvalidInput,
            DepotError::DuplicateName(_) => ErrorKind::InvalidInput,
            DepotError::NameTooLong => ErrorKind::InvalidInput,
            DepotError::SizeOverflow => ErrorKind::InvalidInput,
            DepotError::ReadOnly => ErrorKind::PermissionDenied,
            _ => ErrorKind::InvalidData,
        }
    }
}

} // verus!
