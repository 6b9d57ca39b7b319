//! Decoder for Content Addressable aRchive (CAR) containers and the UnixFS
//! node schema carried inside their blocks.
//!
//! The crate decodes CARv1/CARv2 archive headers, extracts single
//! length-prefixed blocks from an archive payload, verifies each block's
//! content against the digest embedded in its CID, and classifies the block
//! content as raw leaf data or structured UnixFS metadata.

pub mod block_decoder;
pub mod car_header;
pub mod cid;
pub mod digest;
pub mod error;
pub mod text;
pub mod unixfs;
pub mod varint;

use vstd::prelude::*;

verus! {

} // verus!
