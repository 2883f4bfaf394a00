//! Properties that relate several buffer operations, stated over the same
//! spec functions that the operations' contracts use.
use vstd::prelude::*;
use vstd::string::*;
use vstd::utf8::{decode_utf8, encode_utf8_decode_utf8, encode_utf8_valid_utf8, valid_utf8};

use crate::buf::{splice, str_frame, str_frame_fits, str_payload, ByteBuffer};
use crate::codec::{
    lemma_fixed_round_trip, lemma_pow256_8, lemma_varint_round_trip, pow256, varint_bytes,
    varint_decoded, varint_decoded_len, varint_decodes,
};

verus! {

/// Writing a number of `n` bytes at `offset` and then reading `n` bytes at
/// `offset` gives the number back.
pub proof fn law_fixed_round_trip(before: ByteBuffer, after: ByteBuffer, offset: int, v: nat, n: nat)
    requires
        0 <= offset,
        offset + n <= before.spec_capacity(),
        v < pow256(n),
        after.spec_little_endian() == before.spec_little_endian(),
        after.spec_bytes() == splice(before.spec_bytes(), offset, before.encoded(v, n)),
    ensures
        after.value_at(offset, n) == v,
{
    let e = before.encoded(v, n);
    lemma_fixed_round_trip(v, n, before.spec_little_endian());
    assert(after.spec_bytes().subrange(offset, offset + n) =~= e);
}

/// A signed number survives the trip through the unsigned number of the
/// same width that is written in its place.
pub proof fn law_signed_round_trip(a: i8, b: i16, c: i32, d: i64)
    ensures
        ((a as u8) as i8) == a,
        ((b as u16) as i16) == b,
        ((c as u32) as i32) == c,
        ((d as u64) as i64) == d,
{
    assert(((a as u8) as i8) == a) by (bit_vector);
    assert(((b as u16) as i16) == b) by (bit_vector);
    assert(((c as u32) as i32) == c) by (bit_vector);
    assert(((d as u64) as i64) == d) by (bit_vector);
}

/// The sum of `sizes`.
pub open spec fn total(sizes: Seq<nat>) -> nat
    decreases sizes.len(),
{
    if sizes.len() == 0 {
        0
    } else {
        total(sizes.drop_last()) + sizes.last()
    }
}

/// Where each write moves the position on by its size, the position after
/// a sequence of writes is the first position plus the sum of the sizes.
pub proof fn law_cursor_accounting(sizes: Seq<nat>, positions: Seq<nat>)
    requires
        positions.len() == sizes.len() + 1,
        forall|i: int| 0 <= i < sizes.len() ==> positions[i + 1] == positions[i] + sizes[i],
    ensures
        positions.last() == positions[0] + total(sizes),
    decreases sizes.len(),
{
    if sizes.len() > 0 {
        law_cursor_accounting(sizes.drop_last(), positions.drop_last());
    }
}

/// After writing from position zero and then `flip`, exactly the bytes
/// written are readable, from position zero.
pub proof fn law_flip_exposes_written(written: ByteBuffer, flipped: ByteBuffer)
    requires
        written.wf(),
        flipped.spec_position() == 0,
        flipped.spec_limit() == written.spec_position(),
        flipped.spec_bytes() == written.spec_bytes(),
    ensures
        flipped.wf(),
        flipped.spec_remaining() == written.spec_position(),
        flipped.window(0) == written.spec_bytes().take(written.spec_position() as int),
{
    assert(flipped.window(0) =~= written.spec_bytes().take(written.spec_position() as int));
}

/// After `compact`, the bytes that were unread are readable from offset
/// zero with their values unchanged.
pub proof fn law_compact_keeps_unread(before: ByteBuffer, after: ByteBuffer)
    requires
        before.wf(),
        after.spec_position() == 0,
        after.spec_limit() == before.spec_remaining(),
        after.spec_bytes() == splice(
            before.spec_bytes(),
            0,
            before.spec_bytes().subrange(before.spec_position() as int, before.spec_limit() as int),
        ),
    ensures
        after.window(0) == before.window(before.spec_position() as int),
{
    assert(after.window(0) =~= before.window(before.spec_position() as int));
}

/// Writing the varint of `v` at `offset` and then reading the varint at
/// `offset` gives `v` back, and the read consumes exactly the bytes written.
pub proof fn law_varint_round_trip(before: ByteBuffer, after: ByteBuffer, offset: int, v: u64)
    requires
        0 <= offset,
        offset + varint_bytes(v as nat).len() <= before.spec_limit(),
        before.wf(),
        after.spec_limit() == before.spec_limit(),
        after.spec_bytes() == splice(before.spec_bytes(), offset, varint_bytes(v as nat)),
    ensures
        varint_decodes(after.window(offset)),
        varint_decoded(after.window(offset)) == v,
        varint_decoded_len(after.window(offset)) == varint_bytes(v as nat).len(),
{
    let e = varint_bytes(v as nat);
    let rest = before.spec_bytes().subrange(offset + e.len(), before.spec_limit() as int);
    assert(after.window(offset) =~= e + rest);
    lemma_varint_round_trip(v, rest);
}

/// Writing the string frame of `text` at `offset` and then reading the frame
/// at `offset` gives `text` back.
pub proof fn law_str_round_trip(before: ByteBuffer, after: ByteBuffer, offset: int, text: &str)
    requires
        0 <= offset,
        offset + str_frame(text.spec_bytes()).len() <= before.spec_limit(),
        before.wf(),
        after.spec_limit() == before.spec_limit(),
        after.spec_bytes() == splice(before.spec_bytes(), offset, str_frame(text.spec_bytes())),
    ensures
        str_frame_fits(after.window(offset)),
        str_payload(after.window(offset)) == text.spec_bytes(),
        valid_utf8(str_payload(after.window(offset))),
        decode_utf8(str_payload(after.window(offset))) == text@,
{
    let p = text.spec_bytes();
    let e = varint_bytes(p.len());
    let rest = p + before.spec_bytes().subrange(
        offset + e.len() + p.len(),
        before.spec_limit() as int,
    );
    assert(after.window(offset) =~= e + rest);
    assert(p.len() < pow256(8)) by {
        lemma_pow256_8();
    }
    lemma_varint_round_trip(p.len() as u64, rest);
    assert(rest.subrange(0, p.len() as int) =~= p);
    assert(str_payload(after.window(offset)) =~= p);
    encode_utf8_valid_utf8(text@);
    encode_utf8_decode_utf8(text@);
}

} // verus!
