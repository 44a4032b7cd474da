//! Error taxonomy of the virtual texture subsystem.

use vstd::prelude::*;

verus! {

/// Rejected configuration: a tile size that is not a power of two, or one
/// that no mip level of the texture can hold.
#[derive(Clone, Copy, PartialEq, Eq, Structural, Debug)]
pub enum ConfigError {
    InvalidConfiguration,
}

/// Failure while encoding or decoding a tiled container.
#[derive(Clone, Copy, PartialEq, Eq, Structural, Debug)]
pub enum CodecError {
    /// The byte stream does not start with a well-formed header and tile map.
    CorruptHeader,
    /// A tiled mip level's dimensions are not exact multiples of the tile
    /// size.
    SizeNotTileAligned,
    /// The backing store could not be read.
    IOError,
}

/// Failure of one tile fetch from a virtual texture source.
#[derive(Clone, Copy, PartialEq, Eq, Structural, Debug)]
pub enum FetchError {
    /// The tile index lies outside the source's tile grid.
    OutOfRange,
    /// The backing has no data for this tile.
    NotFound,
    /// The backing store could not be read.
    IOError,
    /// The backing bytes for this tile could not be decoded.
    DecodeError,
}

/// Failure to commit a loaded tile into the physical atlas.
#[derive(Clone, Copy, PartialEq, Eq, Structural, Debug)]
pub enum CommitError {
    /// Every slot is resident and pinned by the current frame's requests.
    CapacityExhausted,
}

impl FetchError {
    /// A short name for logs kept outside the library.
    pub fn describe(&self) -> (r: &'static str)
        ensures
            self is OutOfRange ==> r@ == "out of range"@,
            self is NotFound ==> r@ == "not found"@,
            self is IOError ==> r@ == "io error"@,
            self is DecodeError ==> r@ == "decode error"@,
    {
        match self {
            FetchError::OutOfRange => "out of range",
            FetchError::NotFound => "not found",
            FetchError::IOError => "io error",
            FetchError::DecodeError => "decode error",
        }
    }
}

} // verus!
