//! A verified codec for a chunked image container: four-letter chunk
//! identifiers with case-encoded capability bits, length-prefixed and
//! checksummed chunks, and an ordered container bracketed by a fixed
//! signature and a terminal marker chunk.
use vstd::prelude::*;

pub mod args;
pub mod checksum;
pub mod chunk;
pub mod chunk_type;
pub mod commands;
pub mod png;
pub mod text;
pub mod wire;

verus! {

} // verus!
