//! The ways an operation on a container can fail.
use vstd::prelude::*;

verus! {

/// Why an operation failed.
#[derive(Debug, Clone, Copy, PartialEq, Eq, Structural)]
pub enum MsfError {
    /// The superblock does not start with the format's magic.
    BadMagic,
    /// An overlay was given fewer bytes than it covers.
    ShortSlice,
    /// A page number refers to bytes past the end of the file.
    OutOfRangePfn,
    /// The invalid stream index was passed where a stream is meant.
    InvalidStreamIndex,
    /// A required integer lies past the end of the bytes being read.
    ParseError,
    /// The bytes being written to are too short.
    EncodeError,
}

} // verus!
