//! Errors of the storage core.

use vstd::prelude::*;

verus! {

/// What can go wrong in the storage core.
#[allow(inconsistent_fields)]
#[derive(Clone, Copy, Debug, PartialEq, Eq, Structural)]
pub enum HummockError {
    /// The last four bytes of a table file's metadata are not the magic number.
    MagicMismatch { expected: u32, found: u32 },
    /// The metadata was written in a format version that is not understood.
    InvalidFormatVersion(u32),
    /// The stored checksum differs from the checksum of the bytes it covers.
    ChecksumMismatch { expected: u64, found: u64 },
    /// The bytes end before the value they encode, or hold a flag that no
    /// value encodes to.
    DecodeError,
    /// The metadata service could not be reached.
    Connectivity,
    /// The metadata service handed out object ids that are empty or lie
    /// before ids it handed out earlier.
    ObjectIdMovesBackwards { expected_at_least: u64, found: u64 },
    /// A request asks for more memory than the limiter can ever grant.
    ResourceExhausted { requested: u64, limit: u64 },
}

impl HummockError {
    /// Whether the error says that a file's bytes are corrupt: a wrong magic
    /// number, format version or checksum.
    pub open spec fn spec_is_format_error(self) -> bool {
        self is MagicMismatch || self is InvalidFormatVersion || self is ChecksumMismatch
    }

    /// Whether the error says that a file's bytes are corrupt: a wrong magic
    /// number, format version or checksum.
    pub fn is_format_error(&self) -> (r: bool)
        ensures
            r == self.spec_is_format_error(),
    {
        match self {
            HummockError::MagicMismatch { .. } => true,
            HummockError::InvalidFormatVersion(_) => true,
            HummockError::ChecksumMismatch { .. } => true,
            _ => false,
        }
    }

    /// What went wrong, in a few words.
    pub fn message(&self) -> (r: &'static str)
        ensures
            r@ == match *self {
                HummockError::MagicMismatch { .. } => "magic mismatch"@,
                HummockError::InvalidFormatVersion(_) => "invalid format version"@,
                HummockError::ChecksumMismatch { .. } => "checksum mismatch"@,
                HummockError::DecodeError => "decode error"@,
                HummockError::Connectivity => "metadata service unreachable"@,
                HummockError::ObjectIdMovesBackwards { .. } => "object id moves backwards"@,
                HummockError::ResourceExhausted { .. } => "memory limit exceeded"@,
            },
    {
        match self {
            HummockError::MagicMismatch { .. } => "magic mismatch",
            HummockError::InvalidFormatVersion(_) => "invalid format version",
            HummockError::ChecksumMismatch { .. } => "checksum mismatch",
            HummockError::DecodeError => "decode error",
            HummockError::Connectivity => "metadata service unreachable",
            HummockError::ObjectIdMovesBackwards { .. } => "object id moves backwards",
            HummockError::ResourceExhausted { .. } => "memory limit exceeded",
        }
    }

    pub fn magic_mismatch(expected: u32, found: u32) -> (r: Self)
        ensures
            r == (HummockError::MagicMismatch { expected, found }),
    {
        HummockError::MagicMismatch { expected, found }
    }

    pub fn invalid_format_version(version: u32) -> (r: Self)
        ensures
            r == HummockError::InvalidFormatVersion(version),
    {
        HummockError::InvalidFormatVersion(version)
    }

    pub fn checksum_mismatch(expected: u64, found: u64) -> (r: Self)
        ensures
            r == (HummockError::ChecksumMismatch { expected, found }),
    {
        HummockError::ChecksumMismatch { expected, found }
    }
}

} // verus!
