//! Framing reads nothing past the end of what it frames: two buffers that
//! agree on the bytes of a framed transaction frame it the same way, whatever
//! follows it.
use super::bytes::{compact_u16_at, lemma_compact_u16_span, skip, u16_le_at, u32_le_at};
use super::frames::{
    config_values_at, header_at, legacy_instruction_at, legacy_instructions_at,
    legacy_instructions_from, lemma_legacy_instruction_forward, lemma_legacy_instructions_forward,
    lemma_lookups_forward, lookup_at, lookups_at, lookups_from, signatures_at, static_keys_at,
    v1_instructions_at, v1_payload_len,
};
use super::message_frame::{
    legacy_or_v0_message, message_frame, starts_with_v1_prefix, v1_message, MessageFrame,
};
use super::result::{TransactionVersion, TransactionViewError};
use super::transaction_frame::{transaction_frame, transaction_frame_from_prefix};
use vstd::prelude::*;

verus! {

/// Whether `b` and `c` both hold at least `m` bytes and agree on the first
/// `m` of them.
pub open spec fn agree_upto(b: Seq<u8>, c: Seq<u8>, m: int) -> bool {
    &&& 0 <= m <= b.len()
    &&& m <= c.len()
    &&& forall|i: int| #![trigger b[i]] #![trigger c[i]] 0 <= i < m ==> b[i] == c[i]
}

proof fn lemma_compact_agree(b: Seq<u8>, c: Seq<u8>, m: int, off: int)
    requires
        agree_upto(b, c, m),
        compact_u16_at(b, off) matches Some((_, e)) && e <= m,
    ensures
        compact_u16_at(c, off) == compact_u16_at(b, off),
{
    lemma_compact_u16_span(b, off);
    assert(b[off] == c[off]);
    if b[off] >= 128 {
        assert(b[off + 1] == c[off + 1]);
        if b[off + 1] >= 128 {
            assert(b[off + 2] == c[off + 2]);
        }
    }
}

proof fn lemma_legacy_instruction_agree(b: Seq<u8>, c: Seq<u8>, m: int, off: int)
    requires
        agree_upto(b, c, m),
        legacy_instruction_at(b, off) matches Some(e) && e <= m,
    ensures
        legacy_instruction_at(c, off) == legacy_instruction_at(b, off),
{
    assert(b[off] == c[off]);
    lemma_compact_u16_span(b, off + 1);
    let (na, o1) = compact_u16_at(b, off + 1).unwrap();
    lemma_compact_agree(b, c, m, off + 1);
    let o2 = skip(b, o1, na as int).unwrap();
    lemma_compact_u16_span(b, o2);
    lemma_compact_agree(b, c, m, o2);
}

proof fn lemma_legacy_instructions_from_agree(b: Seq<u8>, c: Seq<u8>, m: int, off: int, k: nat)
    requires
        agree_upto(b, c, m),
        0 <= off,
        legacy_instructions_from(b, off, k) matches Some(e) && e <= m,
    ensures
        legacy_instructions_from(c, off, k) == legacy_instructions_from(b, off, k),
    decreases k,
{
    if k > 0 {
        let next = legacy_instruction_at(b, off).unwrap();
        lemma_legacy_instruction_forward(b, off);
        lemma_legacy_instructions_forward(b, next, (k - 1) as nat);
        lemma_legacy_instruction_agree(b, c, m, off);
        lemma_legacy_instructions_from_agree(b, c, m, next, (k - 1) as nat);
    }
}

proof fn lemma_legacy_instructions_agree(b: Seq<u8>, c: Seq<u8>, m: int, off: int)
    requires
        agree_upto(b, c, m),
        legacy_instructions_at(b, off) matches Ok((_, e)) && e <= m,
    ensures
        legacy_instructions_at(c, off) == legacy_instructions_at(b, off),
{
    lemma_compact_u16_span(b, off);
    let (n, o1) = compact_u16_at(b, off).unwrap();
    lemma_legacy_instructions_forward(b, o1, n as nat);
    lemma_compact_agree(b, c, m, off);
    lemma_legacy_instructions_from_agree(b, c, m, o1, n as nat);
}

proof fn lemma_v1_payload_agree(b: Seq<u8>, c: Seq<u8>, m: int, off: int, k: nat)
    requires
        agree_upto(b, c, m),
        0 <= off,
        off + k * 4 <= m,
    ensures
        v1_payload_len(c, off, k) == v1_payload_len(b, off, k),
    decreases k,
{
    if k > 0 {
        assert(off + 4 + (k - 1) * 4 == off + k * 4);
        assert(b[off + 1] == c[off + 1]);
        assert(b[off + 2] == c[off + 2]);
        assert(b[off + 3] == c[off + 3]);
        assert(u16_le_at(b, off + 2) == u16_le_at(c, off + 2));
        lemma_v1_payload_agree(b, c, m, off + 4, (k - 1) as nat);
    }
}

proof fn lemma_v1_instructions_agree(b: Seq<u8>, c: Seq<u8>, m: int, off: int, k: nat)
    requires
        agree_upto(b, c, m),
        v1_instructions_at(b, off, k) matches Ok(e) && e <= m,
    ensures
        v1_instructions_at(c, off, k) == v1_instructions_at(b, off, k),
{
    lemma_v1_payload_agree(b, c, m, off, k);
}

proof fn lemma_lookup_agree(b: Seq<u8>, c: Seq<u8>, m: int, off: int)
    requires
        agree_upto(b, c, m),
        lookup_at(b, off) matches Some((_, _, e)) && e <= m,
    ensures
        lookup_at(c, off) == lookup_at(b, off),
{
    let o1 = off + 32;
    lemma_compact_u16_span(b, o1);
    let (w, o2) = compact_u16_at(b, o1).unwrap();
    lemma_compact_agree(b, c, m, o1);
    let o3 = o2 + w;
    lemma_compact_u16_span(b, o3);
    lemma_compact_agree(b, c, m, o3);
}

proof fn lemma_lookups_from_agree(b: Seq<u8>, c: Seq<u8>, m: int, off: int, k: nat)
    requires
        agree_upto(b, c, m),
        0 <= off <= b.len(),
        lookups_from(b, off, k) matches Some((_, _, e)) && e <= m,
    ensures
        lookups_from(c, off, k) == lookups_from(b, off, k),
    decreases k,
{
    if k > 0 {
        let (_, _, next) = lookup_at(b, off).unwrap();
        lemma_lookups_forward(b, next, (k - 1) as nat);
        lemma_lookup_agree(b, c, m, off);
        lemma_lookups_from_agree(b, c, m, next, (k - 1) as nat);
    }
}

proof fn lemma_lookups_agree(b: Seq<u8>, c: Seq<u8>, m: int, off: int)
    requires
        agree_upto(b, c, m),
        lookups_at(b, off) matches Ok((_, e)) && e <= m,
    ensures
        lookups_at(c, off) == lookups_at(b, off),
{
    let n = b[off];
    lemma_lookups_forward(b, off + 1, n as nat);
    assert(b[off] == c[off]);
    lemma_lookups_from_agree(b, c, m, off + 1, n as nat);
}

proof fn lemma_legacy_or_v0_message_agree(b: Seq<u8>, c: Seq<u8>, m: int, start: int)
    requires
        agree_upto(b, c, m),
        legacy_or_v0_message(b, start) matches Ok(f) && f.end_offset <= m,
    ensures
        legacy_or_v0_message(c, start) == legacy_or_v0_message(b, start),
{
    let ((version, _, _, _), o1) = header_at(b, start).unwrap();
    let (_, o2) = static_keys_at(b, o1).unwrap();
    let o3 = o2 + 32;
    let (_, o4) = legacy_instructions_at(b, o3).unwrap();
    lemma_compact_u16_span(b, o3);
    let (n, first) = compact_u16_at(b, o3).unwrap();
    lemma_legacy_instructions_forward(b, first, n as nat);
    if version == TransactionVersion::V0 {
        let nl = b[o4];
        lemma_lookups_forward(b, o4 + 1, nl as nat);
        lemma_lookups_agree(b, c, m, o4);
    }
    assert(b[start] == c[start]);
    assert(b[start + 1] == c[start + 1]);
    assert(b[start + 2] == c[start + 2]);
    assert(b[o1 - 1] == c[o1 - 1]);
    assert(header_at(c, start) == header_at(b, start));
    assert(b[o1] == c[o1]);
    assert(static_keys_at(c, o1) == static_keys_at(b, o1));
    lemma_legacy_instructions_agree(b, c, m, o3);
}

/// A v1 message frame depends only on the bytes that it covers.
pub proof fn lemma_v1_message_agree(b: Seq<u8>, c: Seq<u8>, m: int)
    requires
        agree_upto(b, c, m),
        v1_message(b) matches Ok(f) && f.end_offset <= m,
    ensures
        v1_message(c) == v1_message(b),
{
    let f = v1_message(b).unwrap();
    let mask = u32_le_at(b, 4) as u32;
    let o1 = 42 + b[41] * 32;
    let o2 = config_values_at(b, o1, mask).unwrap();
    assert(b[0] == c[0]);
    assert(b[1] == c[1]);
    assert(b[2] == c[2]);
    assert(b[3] == c[3]);
    assert(b[4] == c[4]);
    assert(b[5] == c[5]);
    assert(b[6] == c[6]);
    assert(b[7] == c[7]);
    assert(b[40] == c[40]);
    assert(b[41] == c[41]);
    assert(u32_le_at(c, 4) == u32_le_at(b, 4));
    lemma_v1_instructions_agree(b, c, m, o2, b[40] as nat);
}

/// Framing reads nothing past the end of the transaction it frames: a buffer
/// that agrees with `b` on the first `m` bytes, `m` at least the length of
/// the transaction that `b` starts with, starts with the same transaction.
/// So bytes after a transaction never change how it is framed.
pub proof fn lemma_frame_ignores_trailing_bytes(b: Seq<u8>, c: Seq<u8>, m: int)
    requires
        transaction_frame_from_prefix(b) matches Ok(f) && f.data_len <= m,
        agree_upto(b, c, m),
    ensures
        transaction_frame_from_prefix(c) == transaction_frame_from_prefix(b),
{
    let f = transaction_frame_from_prefix(b).unwrap();
    if b[0] < 128 {
        let (n, o1) = signatures_at(b, 0).unwrap();
        lemma_message_end_within(b, o1);
        assert(b[0] == c[0]);
        assert(signatures_at(c, 0) == signatures_at(b, 0));
        lemma_legacy_or_v0_message_agree(b, c, m, o1);
    } else {
        assert(b[0] == c[0]);
        lemma_v1_message_agree(b, c, m);
    }
}

/// The bytes that a transaction frame covers, on their own, are exactly that
/// transaction: framing them with no trailing bytes allowed gives the same
/// frame.
pub proof fn lemma_framed_prefix_is_exact(b: Seq<u8>)
    requires
        transaction_frame_from_prefix(b) is Ok,
    ensures
        transaction_frame(b.take(transaction_frame_from_prefix(b).unwrap().data_len as int))
            == transaction_frame_from_prefix(b),
{
    let f = transaction_frame_from_prefix(b).unwrap();
    let n = f.data_len as int;
    let c = b.take(n);
    assert(n <= b.len()) by {
        lemma_frame_len_within(b);
    }
    lemma_frame_ignores_trailing_bytes(b, c, n);
}

/// A transaction frame ends within the buffer that it was read from.
proof fn lemma_frame_len_within(b: Seq<u8>)
    ensures
        transaction_frame_from_prefix(b) matches Ok(f) ==> f.data_len <= b.len(),
{
    if let Ok(f) = transaction_frame_from_prefix(b) {
        if b[0] < 128 {
            let (_, o1) = signatures_at(b, 0).unwrap();
            lemma_message_end_within(b, o1);
        } else {
            lemma_v1_end_within(b);
        }
    }
}

/// A legacy or v0 message frame ends after it starts, within the buffer.
pub proof fn lemma_message_end_within(b: Seq<u8>, start: int)
    ensures
        legacy_or_v0_message(b, start) matches Ok(f) ==> start < f.end_offset <= b.len(),
{
    if let Ok(f) = legacy_or_v0_message(b, start) {
        let ((version, _, _, _), o1) = header_at(b, start).unwrap();
        let (_, o2) = static_keys_at(b, o1).unwrap();
        let o3 = o2 + 32;
        let (_, o4) = legacy_instructions_at(b, o3).unwrap();
        lemma_compact_u16_span(b, o3);
        let (n, first) = compact_u16_at(b, o3).unwrap();
        lemma_legacy_instructions_forward(b, first, n as nat);
        if version == TransactionVersion::V0 {
            let nl = b[o4];
            lemma_lookups_forward(b, o4 + 1, nl as nat);
        }
    }
}

proof fn lemma_v1_end_within(b: Seq<u8>)
    ensures
        v1_message(b) matches Ok(f) ==> f.end_offset <= b.len(),
{
}

/// A message buffer holds one message and nothing else: when `b` frames as
/// a message, the message starts at its first byte and ends at its last, and
/// `b` followed by any further bytes does not frame as a message.
pub proof fn lemma_message_rejects_trailing_bytes(b: Seq<u8>, t: Seq<u8>)
    requires
        message_frame(b) is Ok,
        t.len() > 0,
    ensures
        message_frame(b)->Ok_0.message_header.offset == 0,
        message_frame(b)->Ok_0.end_offset == b.len(),
        message_frame(b + t) == Err::<MessageFrame, TransactionViewError>(
            TransactionViewError::ParseError,
        ),
{
    let c = b + t;
    let m = b.len() as int;
    assert(agree_upto(b, c, m));
    if starts_with_v1_prefix(b) {
        assert(c[0] == b[0]);
        lemma_v1_message_agree(b, c, m);
    } else {
        lemma_message_end_within(b, 0);
        assert(c[0] == b[0]);
        lemma_legacy_or_v0_message_agree(b, c, m, 0);
    }
}

} // verus!
