//! What a buffer means as a sequence of chunks.
//!
//! A chunk is framed as a four-byte length `n`, a four-byte type tag, `n`
//! bytes of payload and a four-byte checksum: `n + 12` bytes in all, with
//! both numbers most significant byte first.

use vstd::prelude::*;
use crate::PNG;
use crate::crc::checksum;
use crate::endian::be_u32;
use crate::error::{ErrorView, header_not_first, missing_terminal};
use super::{CHUNK_IEND, CHUNK_IHDR};

verus! {

/// One chunk as a mathematical value.
pub struct Record {
    /// The declared length of the payload.
    pub len: u32,
    /// The four bytes of the type tag.
    pub type_code: Seq<u8>,
    /// The payload.
    pub data: Seq<u8>,
    /// The four bytes of the stored checksum.
    pub crc: Seq<u8>,
}

impl Record {
    /// The payload is as long as declared, and tag and checksum have four bytes.
    pub open spec fn wf(self) -> bool {
        &&& self.data.len() == self.len
        &&& self.type_code.len() == 4
        &&& self.crc.len() == 4
    }

    /// The stored checksum is the checksum of tag and payload.
    pub open spec fn checksum_ok(self) -> bool {
        checksum(self.type_code + self.data) == be_u32(self.crc)
    }

    /// The number of bytes that the chunk takes in a buffer.
    pub open spec fn span(self) -> int {
        self.len + 12
    }
}

/// The buffer starts with the signature.
pub open spec fn has_signature(bytes: Seq<u8>) -> bool {
    bytes.len() >= 8 && bytes.take(8) == PNG@
}

/// Where the first chunk starts: behind the signature, if there is one.
pub open spec fn first_chunk(bytes: Seq<u8>) -> int {
    if has_signature(bytes) {
        8
    } else {
        0
    }
}

/// The payload length declared by the chunk that starts at `at`.
pub open spec fn declared_len(bytes: Seq<u8>, at: int) -> u32 {
    be_u32(bytes.subrange(at, at + 4))
}

/// A whole chunk lies in the buffer from `at` on.
pub open spec fn fits(bytes: Seq<u8>, at: int) -> bool {
    &&& 0 <= at
    &&& at + 4 <= bytes.len()
    &&& at + declared_len(bytes, at) + 12 <= bytes.len()
}

/// The chunk that starts at `at`.
pub open spec fn record_at(bytes: Seq<u8>, at: int) -> Record
    recommends
        fits(bytes, at),
{
    let len = declared_len(bytes, at);
    Record {
        len,
        type_code: bytes.subrange(at + 4, at + 8),
        data: bytes.subrange(at + 8, at + 8 + len),
        crc: bytes.subrange(at + 8 + len, at + 12 + len),
    }
}

/// Where the chunk behind the one at `at` starts.
pub open spec fn next_chunk(bytes: Seq<u8>, at: int) -> int {
    at + declared_len(bytes, at) + 12
}

/// The chunk at `at`, or why there is none: the chunk must fit and its
/// checksum must hold.
pub open spec fn read_record(bytes: Seq<u8>, at: int) -> Result<Record, ErrorView> {
    if !fits(bytes, at) {
        Err(ErrorView::InvalidLength)
    } else if !record_at(bytes, at).checksum_ok() {
        Err(ErrorView::InvalidCRC)
    } else {
        Ok(record_at(bytes, at))
    }
}

/// `tail` with the chunks of `done` in front of it.
pub open spec fn after(done: Seq<Record>, tail: Result<Seq<Record>, ErrorView>) -> Result<
    Seq<Record>,
    ErrorView,
> {
    match tail {
        Ok(rest) => Ok(done + rest),
        Err(e) => Err(e),
    }
}

/// The chunks from `at` up to and including the first terminal chunk, or
/// the first failure on the way. A chunk other than the terminal one at
/// the very end of the buffer is a failure of its own.
pub open spec fn walk(bytes: Seq<u8>, at: int) -> Result<Seq<Record>, ErrorView>
    decreases bytes.len() - at,
{
    match read_record(bytes, at) {
        Err(e) => Err(e),
        Ok(record) => if record.type_code == CHUNK_IEND@ {
            Ok(seq![record])
        } else if next_chunk(bytes, at) >= bytes.len() {
            Err(missing_terminal())
        } else {
            after(seq![record], walk(bytes, next_chunk(bytes, at)))
        },
    }
}

/// What validated tokenizing yields: the walk from the first chunk, which
/// must be the header chunk.
pub open spec fn parse(bytes: Seq<u8>) -> Result<Seq<Record>, ErrorView> {
    match walk(bytes, first_chunk(bytes)) {
        Err(e) => Err(e),
        Ok(records) => if records[0].type_code == CHUNK_IHDR@ {
            Ok(records)
        } else {
            Err(header_not_first())
        },
    }
}

/// From `at` on the buffer holds whole chunks up to a terminal chunk.
/// Checksums play no part.
pub open spec fn framed(bytes: Seq<u8>, at: int) -> bool
    decreases bytes.len() - at,
{
    if !fits(bytes, at) {
        false
    } else if record_at(bytes, at).type_code == CHUNK_IEND@ {
        true
    } else {
        framed(bytes, next_chunk(bytes, at))
    }
}

/// The chunks of a framed buffer from `at` up to and including the first
/// terminal chunk.
pub open spec fn records(bytes: Seq<u8>, at: int) -> Seq<Record>
    decreases bytes.len() - at,
{
    if !fits(bytes, at) {
        Seq::empty()
    } else if record_at(bytes, at).type_code == CHUNK_IEND@ {
        seq![record_at(bytes, at)]
    } else {
        seq![record_at(bytes, at)] + records(bytes, next_chunk(bytes, at))
    }
}

/// Where the walk from `at` stops: behind the first terminal chunk, or at
/// the first place where no whole chunk lies.
pub open spec fn walk_end(bytes: Seq<u8>, at: int) -> int
    decreases bytes.len() - at,
{
    if !fits(bytes, at) {
        at
    } else if record_at(bytes, at).type_code == CHUNK_IEND@ {
        next_chunk(bytes, at)
    } else {
        walk_end(bytes, next_chunk(bytes, at))
    }
}

/// The byte at `position` belongs to the type tag or the payload of one of
/// the chunks from `at` up to and including the first terminal chunk: it is
/// under that chunk's checksum.
pub open spec fn under_checksum(bytes: Seq<u8>, at: int, position: int) -> bool
    decreases bytes.len() - at,
{
    if !fits(bytes, at) {
        false
    } else if at + 4 <= position < at + 8 + declared_len(bytes, at) {
        true
    } else if record_at(bytes, at).type_code == CHUNK_IEND@ {
        false
    } else {
        under_checksum(bytes, next_chunk(bytes, at), position)
    }
}

} // verus!
