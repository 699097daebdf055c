//! Structural access to PNG containers: a buffer is split into its chunks,
//! each chunk is held to its checksum, and the header chunk is decoded.
//! Nothing is decompressed and no pixel is touched.

use vstd::prelude::*;

pub mod chunk;
pub mod crc;
pub mod endian;
pub mod error;

use chunk::stream::has_signature;
use chunk::starts_with_signature;
use endian::{be_u32, read_be_u32};
use error::{Error, ErrorView, not_a_container};

verus! {

/// The eight bytes that open a PNG container.
pub const PNG: [u8; 8] = [137, 80, 78, 71, 13, 10, 26, 10];

/// What [`png_size`] yields: the two numbers at bytes 16 to 23 of a buffer
/// that starts with the signature and has that many bytes.
pub open spec fn quick_size(bytes: Seq<u8>) -> Result<(u32, u32), ErrorView> {
    if has_signature(bytes) && bytes.len() >= 24 {
        Ok((be_u32(bytes.subrange(16, 20)), be_u32(bytes.subrange(20, 24))))
    } else {
        Err(not_a_container())
    }
}

/// Width and height of an image, read from where a container that starts
/// with the signature keeps them: behind the length and the tag of its
/// first chunk.
///
/// This is a shortcut for buffers of known origin. No chunk is walked, no
/// checksum is tested, and the first chunk is not even asked for its tag:
/// use [`chunk::Chunk::from_bytes`] on anything else.
pub fn png_size(buf: &[u8]) -> (r: Result<(u32, u32), Error>)
    ensures
        match r {
            Ok(size) => quick_size(buf@) == Ok::<(u32, u32), ErrorView>(size),
            Err(e) => quick_size(buf@) == Err::<(u32, u32), ErrorView>(e@),
        },
{
    if !starts_with_signature(buf) || buf.len() < 24 {
        return Err(Error::invalid_data("Invalid PNG!"));
    }
    let width = read_be_u32(buf, 16);
    let height = read_be_u32(buf, 20);
    Ok((width, height))
}

} // verus!
