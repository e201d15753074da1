//! A fixed-layout binary container format: a `Table` header followed by a
//! run of fixed-size `Image` records, all integers big-endian.
//!
//! The codec works on complete in-memory buffers: serialization produces a
//! `Vec<u8>` laid out exactly as the format prescribes, and deserialization
//! reads such a buffer back, failing when it runs out of bytes.

use vstd::prelude::*;

mod be;
mod image;
mod table;

pub use image::Image;
pub use table::Table;

verus! {

/// Size in bytes of one serialized `Image` record.
pub const IMAGE_SIZE: usize = 16;

/// Size in bytes of the serialized `Table` header: a 4-byte magic tag,
/// a 2-byte version and a 2-byte record count.
pub const TABLE_HEADER_SIZE: usize = 8;

/// The codec's single error: the input ended before a whole header or
/// record could be read.
#[derive(Debug, Clone, Copy, PartialEq, Eq, Structural)]
pub enum CodecError {
    UnexpectedEnd,
}

} // verus!
