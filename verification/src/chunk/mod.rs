//! Chunks: the records of a container, and the tokenizer that finds them.

use vstd::prelude::*;
use vstd::slice::{slice_subrange, slice_to_vec};
use crate::PNG;
use crate::crc::crc32;
use crate::endian::{be_u32_of, read_be_u32};
use crate::error::{Error, ErrorView};

pub mod data;
pub mod laws;
pub mod stream;

pub use data::ihdr::IHDR;
use laws::{lemma_framed_records, lemma_walk_ok};

use stream::{
    Record, after, first_chunk, fits, framed, has_signature, next_chunk, parse, read_record,
    record_at, records, walk,
};

verus! {

/// The tag of the header chunk, which comes first.
pub const CHUNK_IHDR: [u8; 4] = [73, 72, 68, 82];

/// The tag of the chromaticities chunk.
#[allow(non_upper_case_globals)]
pub const CHUNK_cHRM: [u8; 4] = [99, 72, 82, 77];

/// The tag of the palette chunk.
pub const CHUNK_PLTE: [u8; 4] = [80, 76, 84, 69];

/// The tag of an image data chunk.
pub const CHUNK_IDAT: [u8; 4] = [73, 68, 65, 84];

/// The tag of the terminal chunk, which ends the sequence.
pub const CHUNK_IEND: [u8; 4] = [73, 69, 78, 68];

/// A shape that the payload of a chunk decodes to. Every shape has one
/// width: payloads of that many bytes decode, and no others.
pub trait FromBytes: Sized {
    /// The number of bytes of a payload of this shape.
    spec fn width() -> nat;

    /// The shape that `bytes` spell, for `bytes` of the shape's width.
    spec fn shape(bytes: Seq<u8>) -> Self;

    /// Decodes a payload that is known to have the shape's width, without
    /// testing that it has.
    fn from_bytes_unchecked(bytes: &[u8]) -> (shape: Self)
        requires
            bytes@.len() == Self::width(),
        ensures
            shape == Self::shape(bytes@),
    ;

    /// Decodes a payload: one of the shape's width gives the shape, any
    /// other is rejected with `InvalidLength`.
    fn from_bytes(bytes: &[u8]) -> (r: Result<Self, Error>)
        ensures
            match r {
                Ok(shape) => bytes@.len() == Self::width() && shape == Self::shape(bytes@),
                Err(e) => bytes@.len() != Self::width() && e@ == ErrorView::InvalidLength,
            },
    ;
}

/// What decoding `bytes` as a `T` yields: [`FromBytes::from_bytes`] as a
/// mathematical function.
pub open spec fn decoded<T: FromBytes>(bytes: Seq<u8>) -> Result<T, ErrorView> {
    if bytes.len() == T::width() {
        Ok(T::shape(bytes))
    } else {
        Err(ErrorView::InvalidLength)
    }
}

/// One chunk of a container. `T` is what the payload is held as: the
/// bytes themselves, or a shape decoded from them.
#[derive(Debug)]
pub struct Chunk<T> {
    /// The declared length of the payload in bytes.
    pub len: u32,
    /// The type tag.
    pub type_code: [u8; 4],
    /// The payload.
    pub data: T,
    /// The stored checksum, most significant byte first.
    pub crc: [u8; 4],
}

/// A chunk whose payload is still the bytes found in the buffer.
pub type ChunkBytes = Chunk<Vec<u8>>;

impl View for Chunk<Vec<u8>> {
    type V = Record;

    open spec fn view(&self) -> Record {
        Record { len: self.len, type_code: self.type_code@, data: self.data@, crc: self.crc@ }
    }
}

/// The chunks of a vector as mathematical values, in the same order.
pub open spec fn views(chunks: Seq<Chunk<Vec<u8>>>) -> Seq<Record> {
    chunks.map_values(|c: Chunk<Vec<u8>>| c@)
}

/// Whether two tags are the same four bytes.
pub fn same_tag(a: &[u8; 4], b: &[u8; 4]) -> (same: bool)
    ensures
        same == (a@ == b@),
{
    let same = a[0] == b[0] && a[1] == b[1] && a[2] == b[2] && a[3] == b[3];
    proof {
        if same {
            assert(a@ =~= b@);
        }
    }
    same
}

/// Copies the four bytes of `bytes` that start at `at`.
fn four_bytes(bytes: &[u8], at: usize) -> (out: [u8; 4])
    requires
        at + 4 <= bytes@.len(),
    ensures
        out@ == bytes@.subrange(at as int, at + 4),
{
    let out = [bytes[at], bytes[at + 1], bytes[at + 2], bytes[at + 3]];
    proof {
        assert(out@ =~= bytes@.subrange(at as int, at + 4));
    }
    out
}

/// Lifts the chunk that starts at `at` out of the buffer, checking nothing.
fn chunk_at(bytes: &[u8], at: usize) -> (chunk: Chunk<Vec<u8>>)
    requires
        fits(bytes@, at as int),
    ensures
        chunk@ == record_at(bytes@, at as int),
{
    let total = bytes.len();
    let len = read_be_u32(bytes, at);
    let n = len as usize;
    assert(at + 12 + n <= total);
    let type_code = four_bytes(bytes, at + 4);
    let data = slice_to_vec(slice_subrange(bytes, at + 8, at + 8 + n));
    let crc = four_bytes(bytes, at + 8 + n);
    Chunk { len, type_code, data, crc }
}

/// Whether a whole chunk lies in the buffer from `at` on.
fn chunk_fits(bytes: &[u8], at: usize) -> (ok: bool)
    requires
        at <= bytes@.len(),
    ensures
        ok == fits(bytes@, at as int),
{
    let remaining = bytes.len() - at;
    if remaining < 12 {
        return false;
    }
    let len = read_be_u32(bytes, at);
    len as usize <= remaining - 12
}

/// Reads the chunk that starts at `at`: it must fit, and its checksum must hold.
fn checked_chunk_at(bytes: &[u8], at: usize) -> (r: Result<Chunk<Vec<u8>>, Error>)
    requires
        at <= bytes@.len(),
    ensures
        match r {
            Ok(chunk) => read_record(bytes@, at as int) == Ok::<Record, ErrorView>(chunk@),
            Err(e) => read_record(bytes@, at as int) == Err::<Record, ErrorView>(e@),
        },
{
    if !chunk_fits(bytes, at) {
        return Err(Error::InvalidLength);
    }
    let chunk = chunk_at(bytes, at);
    if crc32(chunk.type_code, chunk.data.as_slice()) != be_u32_of(&chunk.crc) {
        return Err(Error::InvalidCRC);
    }
    Ok(chunk)
}

/// Whether the buffer starts with the signature.
pub fn starts_with_signature(bytes: &[u8]) -> (yes: bool)
    ensures
        yes == has_signature(bytes@),
{
    if bytes.len() < 8 {
        return false;
    }
    let mut i: usize = 0;
    while i < 8
        invariant
            i <= 8,
            bytes@.len() >= 8,
            forall|k: int| 0 <= k < i ==> bytes@[k] == PNG@[k],
        decreases 8 - i,
    {
        if bytes[i] != PNG[i] {
            proof {
                assert(bytes@.take(8)[i as int] != PNG@[i as int]);
            }
            return false;
        }
        i = i + 1;
    }
    proof {
        assert(bytes@.take(8) =~= PNG@);
    }
    true
}

impl Chunk<Vec<u8>> {
    /// The payload is as long as the chunk declares.
    pub open spec fn wf(&self) -> bool {
        self.data@.len() == self.len
    }

    /// Every chunk of the vector is well formed.
    pub open spec fn all_wf(chunks: Seq<Chunk<Vec<u8>>>) -> bool {
        forall|i: int| 0 <= i < chunks.len() ==> (#[trigger] chunks[i]).wf()
    }

    /// The same chunk with its payload decoded as a `T`; the failure of
    /// the decoding, if it fails.
    pub fn try_convert<T: FromBytes>(&self) -> (r: Result<Chunk<T>, Error>)
        ensures
            match r {
                Ok(chunk) => {
                    &&& decoded::<T>(self.data@) == Ok::<T, ErrorView>(chunk.data)
                    &&& chunk.len == self.len
                    &&& chunk.type_code == self.type_code
                    &&& chunk.crc == self.crc
                },
                Err(e) => decoded::<T>(self.data@) == Err::<T, ErrorView>(e@),
            },
    {
        match T::from_bytes(self.data.as_slice()) {
            Ok(data) => Ok(Chunk { data, len: self.len, type_code: self.type_code, crc: self.crc }),
            Err(e) => Err(e),
        }
    }

    /// The same chunk with its payload decoded as a `T`, for a payload
    /// that is known to have the width of a `T`.
    pub fn convert_unchecked<T: FromBytes>(&self) -> (chunk: Chunk<T>)
        requires
            self.data@.len() == T::width(),
        ensures
            chunk.data == T::shape(self.data@),
            chunk.len == self.len,
            chunk.type_code == self.type_code,
            chunk.crc == self.crc,
    {
        Chunk {
            data: T::from_bytes_unchecked(self.data.as_slice()),
            len: self.len,
            type_code: self.type_code,
            crc: self.crc,
        }
    }

    /// Splits a buffer that is known to hold whole chunks up to a terminal
    /// chunk, trusting it: no bound and no checksum is tested. The buffer
    /// may start with the signature.
    ///
    /// The precondition is what keeps every read inside the buffer; a buffer
    /// that [`Chunk::from_bytes`] accepts meets it.
    pub fn from_bytes_unchecked(bytes: &[u8]) -> (chunks: Vec<Chunk<Vec<u8>>>)
        requires
            framed(bytes@, first_chunk(bytes@)),
        ensures
            views(chunks@) == records(bytes@, first_chunk(bytes@)),
            Self::all_wf(chunks@),
    {
        let mut chunks: Vec<Chunk<Vec<u8>>> = Vec::new();
        let mut index: usize = if starts_with_signature(bytes) {
            8
        } else {
            0
        };
        let total = bytes.len();
        loop
            invariant_except_break
                total == bytes@.len(),
                index <= total,
                framed(bytes@, index as int),
                records(bytes@, first_chunk(bytes@)) == views(chunks@) + records(
                    bytes@,
                    index as int,
                ),
            ensures
                views(chunks@) == records(bytes@, first_chunk(bytes@)),
            decreases bytes@.len() - index,
        {
            let ghost before = chunks@;
            let chunk = chunk_at(bytes, index);
            assert(fits(bytes@, index as int) && chunk@ == record_at(bytes@, index as int));
            let step = chunk.len as usize + 12;
            let last = same_tag(&chunk.type_code, &CHUNK_IEND);
            chunks.push(chunk);
            proof {
                assert(views(chunks@) =~= views(before) + seq![record_at(bytes@, index as int)]);
                if !last {
                    assert(views(chunks@) + records(bytes@, next_chunk(bytes@, index as int))
                        =~= views(before) + records(bytes@, index as int));
                }
            }
            index = index + step;
            if last {
                break ;
            }
        }
        proof {
            lemma_framed_records(bytes@, first_chunk(bytes@));
            assert forall|i: int| 0 <= i < chunks@.len() implies (#[trigger] chunks@[i]).wf() by {
                assert(views(chunks@)[i].wf());
            }
        }
        chunks
    }

    /// Splits a buffer into its chunks, up to and including the first
    /// terminal chunk. The buffer may start with the signature.
    ///
    /// Every chunk must lie wholly in the buffer (else `InvalidLength`) and
    /// carry the checksum of its tag and payload (else `InvalidCRC`); a
    /// buffer that ends behind a chunk other than the terminal one lacks its
    /// terminal chunk, and the first chunk must be the header chunk (else
    /// `InvalidData`, each with its own message). The first failure met in
    /// this order, chunk by chunk, is the one returned.
    pub fn from_bytes(bytes: &[u8]) -> (r: Result<Vec<Chunk<Vec<u8>>>, Error>)
        ensures
            match r {
                Ok(chunks) => {
                    &&& parse(bytes@) == Ok::<Seq<Record>, ErrorView>(views(chunks@))
                    &&& Self::all_wf(chunks@)
                },
                Err(e) => parse(bytes@) == Err::<Seq<Record>, ErrorView>(e@),
            },
    {
        let mut chunks: Vec<Chunk<Vec<u8>>> = Vec::new();
        let mut index: usize = if starts_with_signature(bytes) {
            8
        } else {
            0
        };
        let total = bytes.len();
        loop
            invariant_except_break
                total == bytes@.len(),
                index <= total,
                walk(bytes@, first_chunk(bytes@)) == after(
                    views(chunks@),
                    walk(bytes@, index as int),
                ),
            ensures
                chunks@.len() > 0,
                walk(bytes@, first_chunk(bytes@)) == Ok::<Seq<Record>, ErrorView>(views(chunks@)),
            decreases bytes@.len() - index,
        {
            let ghost before = chunks@;
            let chunk = match checked_chunk_at(bytes, index) {
                Ok(chunk) => chunk,
                Err(e) => {
                    return Err(e);
                },
            };
            assert(fits(bytes@, index as int) && chunk@ == record_at(bytes@, index as int));
            let step = chunk.len as usize + 12;
            let last = same_tag(&chunk.type_code, &CHUNK_IEND);
            chunks.push(chunk);
            proof {
                assert(views(chunks@) =~= views(before) + seq![record_at(bytes@, index as int)]);
            }
            index = index + step;
            if last {
                break ;
            } else if index >= total {
                return Err(Error::invalid_data("Missing terminal chunk"));
            }
            proof {
                let tail = walk(bytes@, index as int);
                if tail is Ok {
                    assert(views(chunks@) + tail->Ok_0 =~= views(before) + (seq![
                        record_at(bytes@, index - step),
                    ] + tail->Ok_0));
                }
            }
        }
        if !same_tag(&chunks[0].type_code, &CHUNK_IHDR) {
            return Err(Error::invalid_data("header chunk is not first or missing"));
        }
        proof {
            lemma_walk_ok(bytes@, first_chunk(bytes@));
            assert forall|i: int| 0 <= i < chunks@.len() implies (#[trigger] chunks@[i]).wf() by {
                assert(views(chunks@)[i].wf());
            }
        }
        Ok(chunks)
    }
}

} // verus!
