//! Integers stored most significant byte first.

use vstd::prelude::*;

verus! {

/// The number that four bytes spell, most significant byte first.
pub open spec fn be_u32(bytes: Seq<u8>) -> u32
    recommends
        bytes.len() == 4,
{
    (bytes[0] as u32 * 0x100_0000 + bytes[1] as u32 * 0x1_0000 + bytes[2] as u32 * 0x100
        + bytes[3] as u32) as u32
}

/// The four bytes that spell `value`, most significant byte first.
pub open spec fn be_bytes(value: u32) -> Seq<u8> {
    seq![
        (value / 0x100_0000) as u8,
        (value / 0x1_0000 % 0x100) as u8,
        (value / 0x100 % 0x100) as u8,
        (value % 0x100) as u8,
    ]
}

/// Spelling a number and reading it back gives the number.
pub proof fn lemma_be_u32_of_be_bytes(value: u32)
    ensures
        be_bytes(value).len() == 4,
        be_u32(be_bytes(value)) == value,
{
    assert(value / 0x100_0000 * 0x100_0000 + value / 0x1_0000 % 0x100 * 0x1_0000 + value / 0x100
        % 0x100 * 0x100 + value % 0x100 == value) by (bit_vector);
    assert(value / 0x100_0000 < 0x100) by (bit_vector);
}

/// Reading four bytes and spelling the number gives the bytes.
pub proof fn lemma_be_bytes_of_be_u32(bytes: Seq<u8>)
    requires
        bytes.len() == 4,
    ensures
        be_bytes(be_u32(bytes)) == bytes,
{
    let b0 = bytes[0] as u32;
    let b1 = bytes[1] as u32;
    let b2 = bytes[2] as u32;
    let b3 = bytes[3] as u32;
    let value = be_u32(bytes);
    assert(value == b0 * 0x100_0000 + b1 * 0x1_0000 + b2 * 0x100 + b3);
    assert(b0 < 0x100 && b1 < 0x100 && b2 < 0x100 && b3 < 0x100 && value == b0 * 0x100_0000 + b1
        * 0x1_0000 + b2 * 0x100 + b3 ==> value / 0x100_0000 == b0 && value / 0x1_0000 % 0x100 == b1
        && value / 0x100 % 0x100 == b2 && value % 0x100 == b3) by (bit_vector);
    assert(be_bytes(value) =~= bytes);
}

/// Reads the number spelled by the four bytes of `bytes` that start at `at`.
pub fn read_be_u32(bytes: &[u8], at: usize) -> (value: u32)
    requires
        at + 4 <= bytes@.len(),
    ensures
        value == be_u32(bytes@.subrange(at as int, at + 4)),
{
    let b0: u32 = bytes[at] as u32;
    let b1: u32 = bytes[at + 1] as u32;
    let b2: u32 = bytes[at + 2] as u32;
    let b3: u32 = bytes[at + 3] as u32;
    b0 * 0x100_0000 + b1 * 0x1_0000 + b2 * 0x100 + b3
}

/// Reads the number spelled by an array of four bytes.
pub fn be_u32_of(bytes: &[u8; 4]) -> (value: u32)
    ensures
        value == be_u32(bytes@),
{
    let b0: u32 = bytes[0] as u32;
    let b1: u32 = bytes[1] as u32;
    let b2: u32 = bytes[2] as u32;
    let b3: u32 = bytes[3] as u32;
    b0 * 0x100_0000 + b1 * 0x1_0000 + b2 * 0x100 + b3
}

} // verus!
