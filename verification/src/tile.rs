//! Tile addressing: the address of one tile inside a virtual texture's
//! mip pyramid, and the descriptor that fixes the pyramid's shape.

use vstd::prelude::*;

use crate::error::ConfigError;
use crate::misc::{calculate_max_mips, get_mip_level_size, spec_max_mips, spec_mip_level_size};

verus! {

/// The address of one tile: tile column, tile row, and mip level.
#[derive(Clone, Copy, PartialEq, Eq, Structural, Hash, Debug)]
pub struct TileIndex {
    pub x: u32,
    pub y: u32,
    pub mip_level: u32,
}

/// `x` is a power of two.
pub open spec fn spec_is_pow2(x: u32) -> bool
    decreases x,
{
    if x == 0 {
        false
    } else if x == 1 {
        true
    } else {
        x % 2 == 0 && spec_is_pow2(x / 2)
    }
}

/// The bit trick `x & (x - 1) == 0` recognises exactly the powers of two.
proof fn lemma_pow2_bit_trick(x: u32)
    ensures
        (x > 0 && x & ((x - 1) as u32) == 0) == spec_is_pow2(x),
    decreases x,
{
    if x == 1 {
        assert(1u32 & 0u32 == 0) by (bit_vector);
    } else if x > 1 {
        lemma_pow2_bit_trick(x / 2);
        let h = (x / 2) as u32;
        assert((x & ((x - 1) as u32) == 0) == (x % 2 == 0 && h > 0 && h & ((h - 1) as u32)
            == 0)) by (bit_vector)
            requires
                x > 1,
                h == x / 2,
        ;
    }
}

/// Whether `x` is a power of two, by the usual bit trick.
pub fn is_power_of_two(x: u32) -> (r: bool)
    ensures
        r == spec_is_pow2(x),
{
    proof {
        lemma_pow2_bit_trick(x);
    }
    x > 0 && x & (x - 1) == 0
}

/// Shape of one virtual texture: its base size, the tile edge length, and
/// the depth of its mip pyramid.
#[derive(Clone, Copy, PartialEq, Eq, Debug)]
pub struct VirtualTextureDescriptor {
    pub virtual_size: (u32, u32),
    pub tile_size: u32,
    pub mip_count: u32,
}

impl VirtualTextureDescriptor {
    /// The shorter side of the base image.
    pub open spec fn spec_min_dimension(self) -> u32 {
        if self.virtual_size.0 <= self.virtual_size.1 {
            self.virtual_size.0
        } else {
            self.virtual_size.1
        }
    }

    /// A descriptor is well formed when both sides are positive, the tile
    /// size is a power of two no larger than either side, and the mip count
    /// covers the shorter side exactly.
    pub open spec fn wf(self) -> bool {
        &&& self.virtual_size.0 >= 1
        &&& self.virtual_size.1 >= 1
        &&& spec_is_pow2(self.tile_size)
        &&& self.tile_size <= self.spec_min_dimension()
        &&& self.mip_count == spec_max_mips(self.spec_min_dimension())
    }

    /// Levels strictly below this one hold tiles smaller than a slot and
    /// are not paged separately.
    pub open spec fn spec_max_resident_lod(self) -> nat {
        (spec_max_mips(self.spec_min_dimension()) - spec_max_mips(self.tile_size)) as nat
    }

    /// A tile address is valid when its level is paged and its coordinates
    /// lie inside that level's tile grid.
    pub open spec fn spec_valid_tile(self, idx: TileIndex) -> bool {
        &&& idx.mip_level <= self.spec_max_resident_lod()
        &&& idx.x < spec_mip_level_size(self.virtual_size.0, idx.mip_level) / self.tile_size
        &&& idx.y < spec_mip_level_size(self.virtual_size.1, idx.mip_level) / self.tile_size
    }

    /// Builds a descriptor, rejecting a tile size that is not a power of
    /// two or that exceeds a side of the texture.
    pub fn new(virtual_size: (u32, u32), tile_size: u32) -> (r: Result<
        VirtualTextureDescriptor,
        ConfigError,
    >)
        ensures
            match r {
                Ok(d) => {
                    &&& d.virtual_size == virtual_size
                    &&& d.tile_size == tile_size
                    &&& d.wf()
                },
                Err(e) => {
                    &&& e is InvalidConfiguration
                    &&& !(spec_is_pow2(tile_size) && tile_size
                        <= (if virtual_size.0 <= virtual_size.1 {
                        virtual_size.0
                    } else {
                        virtual_size.1
                    }))
                },
            },
            (r is Ok) == (spec_is_pow2(tile_size) && tile_size <= (if virtual_size.0
                <= virtual_size.1 {
                virtual_size.0
            } else {
                virtual_size.1
            })),
    {
        let min_dimension = if virtual_size.0 <= virtual_size.1 {
            virtual_size.0
        } else {
            virtual_size.1
        };
        if !is_power_of_two(tile_size) || tile_size > min_dimension {
            return Err(ConfigError::InvalidConfiguration);
        }
        proof {
            lemma_pow2_positive(tile_size);
        }
        let mip_count = calculate_max_mips(min_dimension);
        Ok(VirtualTextureDescriptor { virtual_size, tile_size, mip_count })
    }

    /// The deepest separately paged mip level:
    /// `max_mips(min_dimension) - log2(tile_size) - 1`.
    pub fn max_resident_lod(&self) -> (r: u32)
        requires
            self.wf(),
        ensures
            r == self.spec_max_resident_lod(),
    {
        proof {
            lemma_max_mips_monotonic(self.tile_size, self.spec_min_dimension());
        }
        let min_dimension = if self.virtual_size.0 <= self.virtual_size.1 {
            self.virtual_size.0
        } else {
            self.virtual_size.1
        };
        calculate_max_mips(min_dimension) - calculate_max_mips(self.tile_size)
    }

    /// Whether a tile address is valid for this texture, per the grid of
    /// its mip level.
    pub fn is_valid_tile(&self, idx: &TileIndex) -> (r: bool)
        requires
            self.wf(),
        ensures
            r == self.spec_valid_tile(*idx),
    {
        proof {
            lemma_pow2_positive(self.tile_size);
        }
        if idx.mip_level > self.max_resident_lod() {
            return false;
        }
        let level_w = get_mip_level_size(self.virtual_size.0, idx.mip_level);
        let level_h = get_mip_level_size(self.virtual_size.1, idx.mip_level);
        idx.x < level_w / self.tile_size && idx.y < level_h / self.tile_size
    }
}

/// A power of two is positive.
pub proof fn lemma_pow2_positive(x: u32)
    ensures
        spec_is_pow2(x) ==> x >= 1,
{
}

/// A longer side never has fewer mip levels.
pub proof fn lemma_max_mips_monotonic(a: u32, b: u32)
    requires
        a <= b,
    ensures
        spec_max_mips(a) <= spec_max_mips(b),
    decreases b,
{
    if a > 0 {
        lemma_max_mips_monotonic(a / 2, b / 2);
    }
}

} // verus!
