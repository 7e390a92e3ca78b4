//! The ways in which decoding and resolving can fail.
use vstd::prelude::*;

verus! {

/// An error met while decoding or resolving plugin data.
#[derive(Debug, Clone, PartialEq, Eq)]
pub enum Error {
    /// A frame declares more bytes than the buffer still holds.
    BufferTooShort,
    /// The buffer starts with the legacy file magic, which is not supported.
    TES3Header,
    /// The buffer starts with no known file magic.
    UnknownFileType,
    /// A group was expected, but these four bytes stand where its tag should be.
    NonGroupSignature(Vec<u8>),
    /// A group label carries a discriminant outside `0..=10`.
    UnknownGroupLabelType(u32),
    /// A compressed record payload is not a valid zlib stream.
    DecompressError,
}

/// The result type of this library.
pub type Result<T> = core::result::Result<T, Error>;

} // verus!
