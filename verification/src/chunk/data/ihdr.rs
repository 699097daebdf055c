//! The payload of the header chunk.

use vstd::prelude::*;
use crate::chunk::FromBytes;
use crate::endian::{be_bytes, be_u32, lemma_be_bytes_of_be_u32, lemma_be_u32_of_be_bytes, read_be_u32};
use crate::error::Error;

verus! {

/// # Header Chunk
/// - Chunk Type: IHDR
/// - Description: the basic facts about the image, in thirteen bytes:
///   width and height as four bytes each, most significant byte first, then
///   one byte each for bit depth, color type, compression method, filter
///   method and interlace method.
///
/// No value is judged here: a bit depth of 3 decodes as well as one of 8.
#[derive(Debug, Clone, PartialEq, Eq)]
pub struct IHDR {
    /// The image's width in pixels (bytes 0 to 3).
    pub width: u32,
    /// The image's height in pixels (bytes 4 to 7).
    pub height: u32,
    /// The number of bits per sample or palette index (byte 8). PNG
    /// defines 1, 2, 4, 8 and 16.
    pub bit_depth: u8,
    /// The color model (byte 9). PNG defines
    /// - 0: grayscale,
    /// - 2: truecolor,
    /// - 3: indexed color with a palette,
    /// - 4: grayscale with alpha,
    /// - 6: truecolor with alpha.
    pub color_type: u8,
    /// How the image data is compressed (byte 10). PNG defines 0, deflate.
    pub compression_method: u8,
    /// How scanlines are filtered before compression (byte 11). PNG
    /// defines 0, adaptive filtering.
    pub filter_method: u8,
    /// The order in which the image data is sent (byte 12). PNG defines
    /// 0 (no interlace) and 1 (Adam7).
    pub interlace_method: u8,
}

impl IHDR {
    /// The thirteen bytes that spell the header.
    pub open spec fn layout(self) -> Seq<u8> {
        be_bytes(self.width) + be_bytes(self.height) + seq![
            self.bit_depth,
            self.color_type,
            self.compression_method,
            self.filter_method,
            self.interlace_method,
        ]
    }

    /// A header read from its own layout is the header again.
    pub proof fn lemma_shape_of_layout(self)
        ensures
            self.layout().len() == 13,
            <IHDR as FromBytes>::shape(self.layout()) == self,
    {
        lemma_be_u32_of_be_bytes(self.width);
        lemma_be_u32_of_be_bytes(self.height);
        let bytes = self.layout();
        assert(bytes.subrange(0, 4) =~= be_bytes(self.width));
        assert(bytes.subrange(4, 8) =~= be_bytes(self.height));
    }

    /// Thirteen bytes are the layout of the header read from them: decoding
    /// keeps every byte, each in the field of its offset.
    pub proof fn lemma_layout_of_shape(bytes: Seq<u8>)
        requires
            bytes.len() == 13,
        ensures
            <IHDR as FromBytes>::shape(bytes).layout() == bytes,
    {
        lemma_be_bytes_of_be_u32(bytes.subrange(0, 4));
        lemma_be_bytes_of_be_u32(bytes.subrange(4, 8));
        assert(<IHDR as FromBytes>::shape(bytes).layout() =~= bytes);
    }
}

impl FromBytes for IHDR {
    open spec fn width() -> nat {
        13
    }

    open spec fn shape(bytes: Seq<u8>) -> IHDR {
        IHDR {
            width: be_u32(bytes.subrange(0, 4)),
            height: be_u32(bytes.subrange(4, 8)),
            bit_depth: bytes[8],
            color_type: bytes[9],
            compression_method: bytes[10],
            filter_method: bytes[11],
            interlace_method: bytes[12],
        }
    }

    fn from_bytes_unchecked(bytes: &[u8]) -> (header: IHDR) {
        IHDR {
            width: read_be_u32(bytes, 0),
            height: read_be_u32(bytes, 4),
            bit_depth: bytes[8],
            color_type: bytes[9],
            compression_method: bytes[10],
            filter_method: bytes[11],
            interlace_method: bytes[12],
        }
    }

    fn from_bytes(bytes: &[u8]) -> (r: Result<IHDR, Error>) {
        if bytes.len() != 13 {
            return Err(Error::InvalidLength);
        }
        Ok(Self::from_bytes_unchecked(bytes))
    }
}

} // verus!
