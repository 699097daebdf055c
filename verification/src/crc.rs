//! The 32-bit cyclic redundancy check that guards every chunk.
//!
//! The check is the one of ISO 3309 and ITU-T V.42: the generator polynomial
//! is held bit-reversed in `POLYNOMIAL`, the register starts with all bits
//! set, bytes enter at the low end, and the result is the complement of the
//! register.

use vstd::prelude::*;

verus! {

/// The generator polynomial, least significant bit first.
pub const POLYNOMIAL: u32 = 0xEDB8_8320;

/// One division step: the register moves right by one bit and the
/// polynomial is subtracted when a set bit fell out.
pub open spec fn shift(reg: u32) -> u32 {
    if reg & 1 == 1 {
        (reg >> 1) ^ POLYNOMIAL
    } else {
        reg >> 1
    }
}

/// `n` division steps in a row.
pub open spec fn shift_n(reg: u32, n: nat) -> u32
    decreases n,
{
    if n == 0 {
        reg
    } else {
        shift(shift_n(reg, (n - 1) as nat))
    }
}

/// The register after one more byte of the message.
pub open spec fn feed(reg: u32, byte: u8) -> u32 {
    shift_n(reg ^ (byte as u32), 8)
}

/// The register after all of `message`, starting from `reg`.
pub open spec fn feed_all(reg: u32, message: Seq<u8>) -> u32
    decreases message.len(),
{
    if message.len() == 0 {
        reg
    } else {
        feed(feed_all(reg, message.drop_last()), message.last())
    }
}

/// The checksum of `message`.
pub open spec fn checksum(message: Seq<u8>) -> u32 {
    feed_all(0xFFFF_FFFF, message) ^ 0xFFFF_FFFF
}

/// Feeding a message that ends in `byte` is feeding the rest and then `byte`.
pub proof fn lemma_feed_all_push(reg: u32, message: Seq<u8>, byte: u8)
    ensures
        feed_all(reg, message.push(byte)) == feed(feed_all(reg, message), byte),
{
    assert(message.push(byte).drop_last() =~= message);
}

/// Feeding two messages one after the other is feeding their concatenation.
pub proof fn lemma_feed_all_concat(reg: u32, first: Seq<u8>, second: Seq<u8>)
    ensures
        feed_all(reg, first + second) == feed_all(feed_all(reg, first), second),
    decreases second.len(),
{
    if second.len() == 0 {
        assert(first + second =~= first);
    } else {
        lemma_feed_all_concat(reg, first, second.drop_last());
        assert((first + second).drop_last() =~= first + second.drop_last());
    }
}

/// A division step loses nothing: different registers stay different.
pub proof fn lemma_shift_injective(a: u32, b: u32)
    requires
        shift(a) == shift(b),
    ensures
        a == b,
{
    assert((if a & 1 == 1 { (a >> 1) ^ 0xEDB8_8320u32 } else { a >> 1 })
        == (if b & 1 == 1 { (b >> 1) ^ 0xEDB8_8320u32 } else { b >> 1 }) ==> a == b)
        by (bit_vector);
}

/// Any number of division steps loses nothing.
pub proof fn lemma_shift_n_injective(a: u32, b: u32, n: nat)
    requires
        shift_n(a, n) == shift_n(b, n),
    ensures
        a == b,
    decreases n,
{
    if n > 0 {
        lemma_shift_injective(shift_n(a, (n - 1) as nat), shift_n(b, (n - 1) as nat));
        lemma_shift_n_injective(a, b, (n - 1) as nat);
    }
}

/// Feeding one byte tells apart both different registers and different bytes.
pub proof fn lemma_feed_injective(reg1: u32, byte1: u8, reg2: u32, byte2: u8)
    requires
        feed(reg1, byte1) == feed(reg2, byte2),
    ensures
        reg1 == reg2 <==> byte1 == byte2,
{
    lemma_shift_n_injective(reg1 ^ (byte1 as u32), reg2 ^ (byte2 as u32), 8);
    let x1 = byte1 as u32;
    let x2 = byte2 as u32;
    assert(reg1 ^ x1 == reg2 ^ x2 ==> (reg1 == reg2 <==> x1 == x2)) by (bit_vector);
}

/// Two messages of one length that differ in exactly one byte never have
/// the same checksum.
pub proof fn lemma_checksum_detects_one_byte(a: Seq<u8>, b: Seq<u8>, at: int)
    requires
        a.len() == b.len(),
        0 <= at < a.len(),
        a[at] != b[at],
        forall|i: int| 0 <= i < a.len() && i != at ==> a[i] == b[i],
    ensures
        checksum(a) != checksum(b),
{
    lemma_feed_all_detects_one_byte(0xFFFF_FFFF, a, b, at);
    let x = feed_all(0xFFFF_FFFF, a);
    let y = feed_all(0xFFFF_FFFF, b);
    assert(x != y ==> x ^ 0xFFFF_FFFFu32 != y ^ 0xFFFF_FFFFu32) by (bit_vector);
}

proof fn lemma_feed_all_detects_one_byte(reg: u32, a: Seq<u8>, b: Seq<u8>, at: int)
    requires
        a.len() == b.len(),
        0 <= at < a.len(),
        a[at] != b[at],
        forall|i: int| 0 <= i < a.len() && i != at ==> a[i] == b[i],
    ensures
        feed_all(reg, a) != feed_all(reg, b),
    decreases a.len(),
{
    let ra = feed_all(reg, a.drop_last());
    let rb = feed_all(reg, b.drop_last());
    if at == a.len() - 1 {
        assert(a.drop_last() =~= b.drop_last());
    } else {
        lemma_feed_all_detects_one_byte(reg, a.drop_last(), b.drop_last(), at);
    }
    if feed(ra, a.last()) == feed(rb, b.last()) {
        lemma_feed_injective(ra, a.last(), rb, b.last());
    }
}

/// Eight division steps on a register that has just taken in a byte.
fn feed_byte(reg: u32, byte: u8) -> (r: u32)
    ensures
        r == feed(reg, byte),
{
    let mut r: u32 = reg ^ (byte as u32);
    let mut k: u8 = 0;
    while k < 8
        invariant
            k <= 8,
            r == shift_n(reg ^ (byte as u32), k as nat),
        decreases 8 - k,
    {
        r = if r & 1 == 1 {
            (r >> 1) ^ POLYNOMIAL
        } else {
            r >> 1
        };
        k = k + 1;
    }
    r
}

/// The register after all of `bytes`, starting from `reg`.
fn feed_slice(reg: u32, bytes: &[u8]) -> (r: u32)
    ensures
        r == feed_all(reg, bytes@),
{
    let mut r: u32 = reg;
    let mut i: usize = 0;
    while i < bytes.len()
        invariant
            i <= bytes@.len(),
            r == feed_all(reg, bytes@.take(i as int)),
        decreases bytes@.len() - i,
    {
        proof {
            lemma_feed_all_push(reg, bytes@.take(i as int), bytes@[i as int]);
            assert(bytes@.take(i as int).push(bytes@[i as int]) =~= bytes@.take(i + 1));
        }
        r = feed_byte(r, bytes[i]);
        i = i + 1;
    }
    proof {
        assert(bytes@.take(i as int) =~= bytes@);
    }
    r
}

/// The checksum of a chunk: that of its type tag followed by its payload.
pub fn crc32(type_code: [u8; 4], data: &[u8]) -> (r: u32)
    ensures
        r == checksum(type_code@ + data@),
{
    let tag = feed_slice(0xFFFF_FFFF, type_code.as_slice());
    let all = feed_slice(tag, data);
    proof {
        lemma_feed_all_concat(0xFFFF_FFFF, type_code@, data@);
    }
    all ^ 0xFFFF_FFFF
}

} // verus!
