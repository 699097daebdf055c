//! What holds of every buffer: how the two tokenizers, the checksum, the
//! header shortcut and the decoding of the header agree.

use vstd::prelude::*;
use crate::{PNG, quick_size};
use crate::crc::lemma_checksum_detects_one_byte;
use crate::error::{ErrorView, header_not_first, missing_terminal};
use super::{CHUNK_IEND, CHUNK_IHDR, FromBytes, IHDR, decoded};
use super::stream::{
    Record, declared_len, first_chunk, fits, framed, has_signature, next_chunk, parse,
    read_record, record_at, records, under_checksum, walk, walk_end,
};

verus! {

/// Two buffers that agree on the bytes of the chunk that starts at `at` in
/// the first hold the same chunk there.
proof fn lemma_same_chunk(a: Seq<u8>, b: Seq<u8>, at: int)
    requires
        fits(a, at),
        next_chunk(a, at) <= b.len(),
        forall|i: int| at <= i < next_chunk(a, at) ==> a[i] == b[i],
    ensures
        fits(b, at),
        record_at(b, at) == record_at(a, at),
        read_record(b, at) == read_record(a, at),
        next_chunk(b, at) == next_chunk(a, at),
{
    assert(b.subrange(at, at + 4) =~= a.subrange(at, at + 4));
    let len = declared_len(a, at);
    assert(b.subrange(at + 4, at + 8) =~= a.subrange(at + 4, at + 8));
    assert(b.subrange(at + 8, at + 8 + len) =~= a.subrange(at + 8, at + 8 + len));
    assert(b.subrange(at + 8 + len, at + 12 + len) =~= a.subrange(at + 8 + len, at + 12 + len));
}

/// A successful walk: at least one chunk, each as long as it declares and
/// with its checksum in order, the last one terminal and no other.
pub proof fn lemma_walk_ok(bytes: Seq<u8>, at: int)
    requires
        walk(bytes, at) is Ok,
    ensures
        ({
            let rs = walk(bytes, at)->Ok_0;
            &&& rs.len() >= 1
            &&& rs[0] == record_at(bytes, at)
            &&& rs.last().type_code == CHUNK_IEND@
            &&& forall|i: int| 0 <= i < rs.len() - 1 ==> rs[i].type_code != CHUNK_IEND@
            &&& forall|i: int| 0 <= i < rs.len() ==> (#[trigger] rs[i]).wf() && rs[i].checksum_ok()
        }),
    decreases bytes.len() - at,
{
    let record = record_at(bytes, at);
    if record.type_code != CHUNK_IEND@ {
        lemma_walk_ok(bytes, next_chunk(bytes, at));
        let rest = walk(bytes, next_chunk(bytes, at))->Ok_0;
        let rs = walk(bytes, at)->Ok_0;
        assert(rs == seq![record] + rest);
        assert forall|i: int| 0 <= i < rs.len() implies (#[trigger] rs[i]).wf()
            && rs[i].checksum_ok() by {
            if i > 0 {
                assert(rs[i] == rest[i - 1]);
            }
        }
        assert forall|i: int| 0 <= i < rs.len() - 1 implies rs[i].type_code != CHUNK_IEND@ by {
            if i > 0 {
                assert(rs[i] == rest[i - 1]);
            }
        }
        assert(rs.last() == rest.last());
    }
}

/// The chunks of an accepted buffer: the first is the header chunk, the
/// last is the terminal chunk and the only one, and every chunk is as long
/// as it declares and carries the checksum of its tag and payload.
pub proof fn lemma_parse_ok(bytes: Seq<u8>)
    requires
        parse(bytes) is Ok,
    ensures
        ({
            let rs = parse(bytes)->Ok_0;
            &&& rs.len() >= 1
            &&& rs[0] == record_at(bytes, first_chunk(bytes))
            &&& rs[0].type_code == CHUNK_IHDR@
            &&& rs.last().type_code == CHUNK_IEND@
            &&& forall|i: int| 0 <= i < rs.len() - 1 ==> rs[i].type_code != CHUNK_IEND@
            &&& forall|i: int| 0 <= i < rs.len() ==> (#[trigger] rs[i]).wf() && rs[i].checksum_ok()
        }),
{
    lemma_walk_ok(bytes, first_chunk(bytes));
}

/// A buffer whose first chunk is not the header chunk is never accepted;
/// where all its chunks up to a terminal chunk are in order, it is
/// rejected for exactly that.
pub proof fn lemma_header_comes_first(bytes: Seq<u8>)
    requires
        record_at(bytes, first_chunk(bytes)).type_code != CHUNK_IHDR@,
    ensures
        parse(bytes) is Err,
        walk(bytes, first_chunk(bytes)) is Ok ==> parse(bytes) == Err::<Seq<Record>, ErrorView>(
            header_not_first(),
        ),
{
    if walk(bytes, first_chunk(bytes)) is Ok {
        lemma_walk_ok(bytes, first_chunk(bytes));
    }
}

/// The chunks of a framed buffer: at least one, each as long as it
/// declares, the last one terminal and no other.
pub proof fn lemma_framed_records(bytes: Seq<u8>, at: int)
    requires
        framed(bytes, at),
    ensures
        ({
            let rs = records(bytes, at);
            &&& rs.len() >= 1
            &&& rs[0] == record_at(bytes, at)
            &&& rs.last().type_code == CHUNK_IEND@
            &&& forall|i: int| 0 <= i < rs.len() - 1 ==> rs[i].type_code != CHUNK_IEND@
            &&& forall|i: int| 0 <= i < rs.len() ==> (#[trigger] rs[i]).wf()
        }),
    decreases bytes.len() - at,
{
    let record = record_at(bytes, at);
    if record.type_code != CHUNK_IEND@ {
        lemma_framed_records(bytes, next_chunk(bytes, at));
        let rest = records(bytes, next_chunk(bytes, at));
        let rs = records(bytes, at);
        assert(rs == seq![record] + rest);
        assert forall|i: int| 0 <= i < rs.len() implies (#[trigger] rs[i]).wf() by {
            if i > 0 {
                assert(rs[i] == rest[i - 1]);
            }
        }
        assert forall|i: int| 0 <= i < rs.len() - 1 implies rs[i].type_code != CHUNK_IEND@ by {
            if i > 0 {
                assert(rs[i] == rest[i - 1]);
            }
        }
        assert(rs.last() == rest.last());
    }
}

/// Where the walk succeeds, the buffer holds whole chunks up to a terminal
/// chunk, and they are the chunks that the walk yields.
pub proof fn lemma_walk_is_framed(bytes: Seq<u8>, at: int)
    requires
        walk(bytes, at) is Ok,
    ensures
        framed(bytes, at),
        records(bytes, at) == walk(bytes, at)->Ok_0,
    decreases bytes.len() - at,
{
    if record_at(bytes, at).type_code != CHUNK_IEND@ {
        lemma_walk_is_framed(bytes, next_chunk(bytes, at));
    }
}

/// The two tokenizers agree: a buffer that the validating one accepts may
/// be handed to the trusting one, which then yields the same chunks.
pub proof fn lemma_unchecked_agrees(bytes: Seq<u8>)
    requires
        parse(bytes) is Ok,
    ensures
        framed(bytes, first_chunk(bytes)),
        records(bytes, first_chunk(bytes)) == parse(bytes)->Ok_0,
{
    lemma_walk_is_framed(bytes, first_chunk(bytes));
}

/// A walk over a buffer that differs from a walkable one in a single byte
/// under a checksum fails on that checksum.
proof fn lemma_walk_detects_changed_byte(a: Seq<u8>, b: Seq<u8>, at: int, position: int)
    requires
        walk(a, at) is Ok,
        a.len() == b.len(),
        0 <= position < a.len(),
        a[position] != b[position],
        forall|i: int| 0 <= i < a.len() && i != position ==> a[i] == b[i],
        under_checksum(a, at, position),
    ensures
        walk(b, at) == Err::<Seq<Record>, ErrorView>(ErrorView::InvalidCRC),
    decreases a.len() - at,
{
    let len = declared_len(a, at);
    if at + 4 <= position < at + 8 + len {
        assert(b.subrange(at, at + 4) =~= a.subrange(at, at + 4));
        assert(b.subrange(at + 8 + len, at + 12 + len) =~= a.subrange(at + 8 + len, at + 12 + len));
        let ra = record_at(a, at);
        let rb = record_at(b, at);
        assert(rb.crc == ra.crc);
        let ma = ra.type_code + ra.data;
        let mb = rb.type_code + rb.data;
        assert forall|i: int| 0 <= i < ma.len() implies ma[i] == a[at + 4 + i] && mb[i] == b[at + 4
            + i] by {}
        lemma_checksum_detects_one_byte(ma, mb, position - at - 4);
    } else {
        lemma_under_checksum_is_behind(a, next_chunk(a, at), position);
        lemma_same_chunk(a, b, at);
        lemma_walk_detects_changed_byte(a, b, next_chunk(a, at), position);
    }
}

/// The checksums guard every byte they cover: change one byte in the type
/// tag or the payload of a chunk of an accepted buffer, to any other value,
/// and the buffer is rejected with `InvalidCRC`.
pub proof fn lemma_parse_detects_changed_byte(a: Seq<u8>, b: Seq<u8>, position: int)
    requires
        parse(a) is Ok,
        a.len() == b.len(),
        0 <= position < a.len(),
        a[position] != b[position],
        forall|i: int| 0 <= i < a.len() && i != position ==> a[i] == b[i],
        under_checksum(a, first_chunk(a), position),
    ensures
        parse(b) == Err::<Seq<Record>, ErrorView>(ErrorView::InvalidCRC),
{
    let first = first_chunk(a);
    assert(first + 4 <= position) by {
        lemma_under_checksum_is_behind(a, first, position);
    }
    assert(has_signature(b) == has_signature(a)) by {
        if has_signature(a) {
            assert(b.take(8) =~= a.take(8));
        } else if has_signature(b) {
            if position >= 8 {
                assert(b.take(8) =~= a.take(8));
            } else {
                // The tag of the first chunk of `a` would share three bytes
                // with the signature, and the header tag shares none.
                lemma_walk_ok(a, 0);
                let tag = record_at(a, 0).type_code;
                assert(tag == CHUNK_IHDR@);
                assert(forall|i: int| 4 <= i < 8 ==> tag[i - 4] == a[i]);
                assert(forall|i: int| 0 <= i < 8 ==> b.take(8)[i] == b[i]);
                assert(PNG@[4] == 13 && PNG@[5] == 10 && PNG@[6] == 26 && PNG@[7] == 10);
                assert(CHUNK_IHDR@[0] == 73 && CHUNK_IHDR@[1] == 72 && CHUNK_IHDR@[2] == 68
                    && CHUNK_IHDR@[3] == 82);
                assert(tag[0] == 73 && tag[1] == 72 && tag[2] == 68 && tag[3] == 82);
                assert(false);
            }
        }
    }
    lemma_walk_detects_changed_byte(a, b, first, position);
}

/// A byte under the checksum of a chunk walked from `at` lies behind the
/// length field of the chunk at `at`.
proof fn lemma_under_checksum_is_behind(bytes: Seq<u8>, at: int, position: int)
    requires
        under_checksum(bytes, at, position),
    ensures
        at + 4 <= position,
    decreases bytes.len() - at,
{
    if !(at + 4 <= position < at + 8 + declared_len(bytes, at)) {
        lemma_under_checksum_is_behind(bytes, next_chunk(bytes, at), position);
    }
}

/// A successful walk ends inside the buffer, behind where it began.
proof fn lemma_walk_end_in_buffer(bytes: Seq<u8>, at: int)
    requires
        walk(bytes, at) is Ok,
    ensures
        at < walk_end(bytes, at) <= bytes.len(),
    decreases bytes.len() - at,
{
    if record_at(bytes, at).type_code != CHUNK_IEND@ {
        lemma_walk_end_in_buffer(bytes, next_chunk(bytes, at));
    }
}

/// A walk over what is left of a walkable buffer when it is cut somewhere
/// before the end of its terminal chunk fails for want of bytes or of the
/// terminal chunk.
proof fn lemma_walk_rejects_truncation(bytes: Seq<u8>, at: int, n: int)
    requires
        walk(bytes, at) is Ok,
        0 <= at <= n < walk_end(bytes, at),
    ensures
        walk(bytes.take(n), at) == Err::<Seq<Record>, ErrorView>(ErrorView::InvalidLength)
            || walk(bytes.take(n), at) == Err::<Seq<Record>, ErrorView>(missing_terminal()),
    decreases bytes.len() - at,
{
    let cut = bytes.take(n);
    let next = next_chunk(bytes, at);
    lemma_walk_end_in_buffer(bytes, at);
    if next <= n {
        lemma_same_chunk(bytes, cut, at);
        if next < n {
            lemma_walk_rejects_truncation(bytes, next, n);
        }
    } else if at + 4 <= n {
        assert(cut.subrange(at, at + 4) =~= bytes.subrange(at, at + 4));
    }
}

/// Truncation never goes unnoticed: cut an accepted buffer anywhere before
/// the end of its terminal chunk, and what is left is rejected, with
/// `InvalidLength` or for its missing terminal chunk.
pub proof fn lemma_parse_rejects_truncation(bytes: Seq<u8>, n: int)
    requires
        walk(bytes, first_chunk(bytes)) is Ok,
        0 <= n < walk_end(bytes, first_chunk(bytes)),
    ensures
        parse(bytes.take(n)) == Err::<Seq<Record>, ErrorView>(ErrorView::InvalidLength) || parse(
            bytes.take(n),
        ) == Err::<Seq<Record>, ErrorView>(missing_terminal()),
{
    let cut = bytes.take(n);
    lemma_walk_end_in_buffer(bytes, first_chunk(bytes));
    if n >= 8 {
        assert(cut.take(8) =~= bytes.take(8));
        lemma_walk_rejects_truncation(bytes, first_chunk(bytes), n);
    } else if has_signature(bytes) {
        // What is left of the signature is read as the start of a chunk
        // that declares far more bytes than there are.
        assert(!has_signature(cut));
        if n >= 4 {
            let field = cut.subrange(0, 4);
            assert(forall|i: int| 0 <= i < 4 ==> field[i] == bytes.take(8)[i]);
            assert(PNG@[0] == 137 && PNG@[1] == 80 && PNG@[2] == 78 && PNG@[3] == 71);
            assert(declared_len(cut, 0) >= 12);
        }
    } else {
        assert(!has_signature(cut));
        lemma_walk_rejects_truncation(bytes, 0, n);
    }
}

/// The header shortcut agrees with decoding: for an accepted buffer that
/// starts with the signature and whose header chunk has a payload of the
/// header's width, the shortcut yields the width and height of the decoded
/// header.
pub proof fn lemma_quick_size_agrees(bytes: Seq<u8>)
    requires
        parse(bytes) is Ok,
        has_signature(bytes),
        decoded::<IHDR>(parse(bytes)->Ok_0[0].data) is Ok,
    ensures
        ({
            let header = decoded::<IHDR>(parse(bytes)->Ok_0[0].data)->Ok_0;
            quick_size(bytes) == Ok::<(u32, u32), ErrorView>((header.width, header.height))
        }),
{
    lemma_parse_ok(bytes);
    let data = record_at(bytes, 8).data;
    assert(data.len() == 13);
    assert(data.subrange(0, 4) =~= bytes.subrange(16, 20));
    assert(data.subrange(4, 8) =~= bytes.subrange(20, 24));
}

} // verus!
