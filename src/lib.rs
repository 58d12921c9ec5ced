//! Paletted voxel storage for a 16x16x16 section and the vertical chunk
//! column built from such sections, with the wire encoding of both; block id
//! conversion between protocol versions; and the reader of the tagged
//! message format, the scoreboard and the console region that the server
//! and its tools share.
use vstd::prelude::*;

pub mod bits;
pub mod chunk;
pub mod cli;
pub mod mesh;
pub mod multi;
pub mod pos;
pub mod proto;
pub mod read;
pub mod scoreboard;
pub mod section;
pub mod version;

verus! {

} // verus!
