//! Structural failures of disk operations.

use vstd::prelude::*;

verus! {

/// What went wrong with a request as such. What a disk reports of its own
/// content (CRC errors, missing data marks, sectors not found) travels in the
/// result records instead.
#[derive(Clone, Debug, PartialEq, Eq)]
pub enum DiskImageError {
    /// No track stands at the requested physical cylinder and head.
    SeekError,
    /// A write matched more than one sector.
    UniqueIdError,
    /// A buffer of the wrong size, or a request the track cannot honour.
    ParameterError,
    /// The operation is not offered by this kind of track.
    UnsupportedFormat,
    /// The data could not be read or written.
    DataError,
    /// An input / output failure outside the library, with its message.
    IoError(String),
}

} // verus!
