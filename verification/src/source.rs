//! Virtual texture sources: the capability of handing out tile pixels
//! and a base size, backed by a decoded container or other producers.

use vstd::prelude::*;

use crate::codec::ImageFile;
use crate::error::FetchError;
use crate::tile::TileIndex;

verus! {

/// A producer of tile pixel data. A source's size never changes once it
/// is shared, and an out-of-range tile index always fails with
/// `OutOfRange` and never panics.
pub trait VirtualTextureSource {
    /// The base (level zero) size this source stays at for its lifetime.
    spec fn spec_size(&self) -> (u32, u32);

    /// Whether a tile index addresses a tile this source could hold.
    spec fn spec_valid_tile(&self, idx: TileIndex) -> bool;

    /// The base size of the source.
    fn size(&self) -> (r: (u32, u32))
        ensures
            r == self.spec_size(),
    ;

    /// The bytes of one tile. An out-of-range index always fails with
    /// `OutOfRange`; an in-range tile may still be absent (`NotFound`)
    /// or fail to read or decode.
    fn fetch_tile(&self, idx: &TileIndex) -> (r: Result<Vec<u8>, FetchError>)
        ensures
            !self.spec_valid_tile(*idx) ==> (r matches Err(e) && e is OutOfRange),
    ;
}

impl VirtualTextureSource for ImageFile {
    /// The dimensions of the container's first mip record; an empty
    /// container has no size.
    open spec fn spec_size(&self) -> (u32, u32) {
        if self.levels@.len() > 0 {
            (self.levels@[0].width, self.levels@[0].height)
        } else {
            (0u32, 0u32)
        }
    }

    /// In range exactly when the index addresses a cell of the tile map.
    open spec fn spec_valid_tile(&self, idx: TileIndex) -> bool {
        self.spec_in_grid(idx)
    }

    fn size(&self) -> (r: (u32, u32)) {
        if self.levels.len() > 0 {
            (self.levels[0].width, self.levels[0].height)
        } else {
            (0, 0)
        }
    }

    fn fetch_tile(&self, idx: &TileIndex) -> (r: Result<Vec<u8>, FetchError>) {
        self.get_tile_bytes(idx)
    }
}

} // verus!
