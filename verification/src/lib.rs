//! Virtual texture streaming: tile addressing math, a mipmap generator, a
//! tiled container codec, feedback decoding, a page-table manager with
//! eviction, and a streaming scheduler.

pub mod codec;
pub mod data_source;
pub mod endian;
pub mod error;
pub mod feedback;
pub mod file_type;
pub mod foundation;
pub mod handle;
pub mod image;
pub mod mipmap_generator;
pub mod logger;
pub mod misc;
pub mod page_table;
pub mod project;
pub mod scheduler;
pub mod source;
pub mod texture;
pub mod tile;
pub mod video;

use vstd::prelude::*;

verus! {

} // verus!
