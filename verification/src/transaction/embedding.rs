//! A message reads the same inside a transaction as on its own: the frame of
//! the message part of a transaction is the frame of the message alone, with
//! every offset moved by where the message starts.
use super::bytes::{byte_at, compact_u16_at, lemma_compact_u16_span, skip};
use super::frames::{
    header_at, legacy_instruction_at, legacy_instructions_at, legacy_instructions_from,
    lemma_legacy_instruction_forward, lemma_legacy_instructions_forward, lemma_lookups_forward,
    lookup_at, lookups_at, lookups_from, signatures_at, static_keys_at, AddressTableLookupFrame,
    InstructionsFrame, MessageHeaderFrame, StaticAccountKeysFrame,
};
use super::message_frame::{
    legacy_or_v0_message, message_frame, starts_with_v1_prefix, v1_message, MessageFrame,
};
use super::prefix::{agree_upto, lemma_message_end_within, lemma_v1_message_agree};
use super::result::TransactionVersion;
use super::transaction_frame::{legacy_or_v0_transaction, transaction_frame, v1_transaction};
use vstd::prelude::*;

verus! {

/// `f` with every offset into the buffer moved by `d`: the frame of the same
/// message found `d` bytes further on. The lookup section of a legacy
/// message and the configuration of a legacy or v0 message record no offset.
pub open spec fn shifted_message(f: MessageFrame, d: int) -> MessageFrame {
    MessageFrame {
        message_header: MessageHeaderFrame {
            offset: (f.message_header.offset + d) as u16,
            version: f.message_header.version,
            num_required_signatures: f.message_header.num_required_signatures,
            num_readonly_signed_accounts: f.message_header.num_readonly_signed_accounts,
            num_readonly_unsigned_accounts: f.message_header.num_readonly_unsigned_accounts,
        },
        static_account_keys: StaticAccountKeysFrame {
            num_static_accounts: f.static_account_keys.num_static_accounts,
            offset: (f.static_account_keys.offset + d) as u16,
        },
        recent_blockhash_offset: (f.recent_blockhash_offset + d) as u16,
        instructions: InstructionsFrame {
            num_instructions: f.instructions.num_instructions,
            offset: (f.instructions.offset + d) as u16,
        },
        address_table_lookup: if f.message_header.version == TransactionVersion::V0 {
            AddressTableLookupFrame {
                num_address_table_lookups: f.address_table_lookup.num_address_table_lookups,
                offset: (f.address_table_lookup.offset + d) as u16,
                total_writable_lookup_accounts: f.address_table_lookup.total_writable_lookup_accounts,
                total_readonly_lookup_accounts: f.address_table_lookup.total_readonly_lookup_accounts,
            }
        } else {
            f.address_table_lookup
        },
        transaction_config_frame: f.transaction_config_frame,
        end_offset: (f.end_offset + d) as u16,
    }
}

proof fn lemma_byte_shift(p: Seq<u8>, m: Seq<u8>, o: int)
    requires
        0 <= o,
    ensures
        byte_at(p + m, p.len() + o) == byte_at(m, o),
{
    if o < m.len() {
        assert((p + m)[p.len() + o] == m[o]);
    }
}

proof fn lemma_skip_shift(p: Seq<u8>, m: Seq<u8>, o: int, n: int)
    requires
        0 <= o,
    ensures
        skip(p + m, p.len() + o, n) == (match skip(m, o, n) {
            Some(e) => Some(e + p.len()),
            None => None,
        }),
{
}

proof fn lemma_compact_shift(p: Seq<u8>, m: Seq<u8>, o: int)
    requires
        0 <= o,
    ensures
        compact_u16_at(p + m, p.len() + o) == (match compact_u16_at(m, o) {
            Some((v, e)) => Some((v, e + p.len())),
            None => None,
        }),
{
    lemma_byte_shift(p, m, o);
    lemma_byte_shift(p, m, o + 1);
    lemma_byte_shift(p, m, o + 2);
    assert(p.len() + o + 1 == p.len() + (o + 1));
    assert(p.len() + o + 2 == p.len() + (o + 2));
}

proof fn lemma_legacy_instruction_shift(p: Seq<u8>, m: Seq<u8>, o: int)
    requires
        0 <= o,
    ensures
        legacy_instruction_at(p + m, p.len() + o) == (match legacy_instruction_at(m, o) {
            Some(e) => Some(e + p.len()),
            None => None,
        }),
{
    let c = p + m;
    let d = p.len() as int;
    lemma_byte_shift(p, m, o);
    lemma_compact_shift(p, m, o + 1);
    assert(d + o + 1 == d + (o + 1));
    if let Some((na, o1)) = compact_u16_at(m, o + 1) {
        lemma_compact_u16_span(m, o + 1);
        lemma_skip_shift(p, m, o1, na as int);
        assert(o1 + d == d + o1);
        if let Some(o2) = skip(m, o1, na as int) {
            lemma_compact_shift(p, m, o2);
            assert(o2 + d == d + o2);
            if let Some((dl, o3)) = compact_u16_at(m, o2) {
                lemma_compact_u16_span(m, o2);
                lemma_skip_shift(p, m, o3, dl as int);
                assert(o3 + d == d + o3);
            }
        }
    }
}

proof fn lemma_legacy_instructions_from_shift(p: Seq<u8>, m: Seq<u8>, o: int, k: nat)
    requires
        0 <= o,
    ensures
        legacy_instructions_from(p + m, p.len() + o, k) == (match legacy_instructions_from(m, o, k) {
            Some(e) => Some(e + p.len()),
            None => None,
        }),
    decreases k,
{
    if k > 0 {
        lemma_legacy_instruction_shift(p, m, o);
        lemma_legacy_instruction_forward(m, o);
        if let Some(next) = legacy_instruction_at(m, o) {
            lemma_legacy_instructions_from_shift(p, m, next, (k - 1) as nat);
            assert(next + p.len() == p.len() + next);
        }
    }
}

proof fn lemma_legacy_instructions_shift(p: Seq<u8>, m: Seq<u8>, o: int)
    requires
        0 <= o,
    ensures
        legacy_instructions_at(p + m, p.len() + o) == (match legacy_instructions_at(m, o) {
            Ok((n, e)) => Ok((n, e + p.len())),
            Err(err) => Err(err),
        }),
{
    lemma_compact_shift(p, m, o);
    if let Some((n, o1)) = compact_u16_at(m, o) {
        lemma_compact_u16_span(m, o);
        lemma_legacy_instructions_from_shift(p, m, o1, n as nat);
        assert(o1 + p.len() == p.len() + o1);
    }
}

proof fn lemma_lookup_shift(p: Seq<u8>, m: Seq<u8>, o: int)
    requires
        0 <= o,
    ensures
        lookup_at(p + m, p.len() + o) == (match lookup_at(m, o) {
            Some((w, r, e)) => Some((w, r, e + p.len())),
            None => None,
        }),
{
    let d = p.len() as int;
    lemma_skip_shift(p, m, o, 32);
    if let Some(o1) = skip(m, o, 32) {
        lemma_compact_shift(p, m, o1);
        assert(o1 + d == d + o1);
        if let Some((w, o2)) = compact_u16_at(m, o1) {
            lemma_compact_u16_span(m, o1);
            lemma_skip_shift(p, m, o2, w as int);
            assert(o2 + d == d + o2);
            if let Some(o3) = skip(m, o2, w as int) {
                lemma_compact_shift(p, m, o3);
                assert(o3 + d == d + o3);
                if let Some((r, o4)) = compact_u16_at(m, o3) {
                    lemma_compact_u16_span(m, o3);
                    lemma_skip_shift(p, m, o4, r as int);
                    assert(o4 + d == d + o4);
                }
            }
        }
    }
}

proof fn lemma_lookups_from_shift(p: Seq<u8>, m: Seq<u8>, o: int, k: nat)
    requires
        0 <= o <= m.len(),
    ensures
        lookups_from(p + m, p.len() + o, k) == (match lookups_from(m, o, k) {
            Some((w, r, e)) => Some((w, r, e + p.len())),
            None => None,
        }),
    decreases k,
{
    if k > 0 {
        lemma_lookup_shift(p, m, o);
        if let Some((_, _, next)) = lookup_at(m, o) {
            lemma_lookups_forward(m, o, 1);
            assert(lookups_from(m, next, 0) == Some((0int, 0int, next)));
            lemma_lookups_from_shift(p, m, next, (k - 1) as nat);
            assert(next + p.len() == p.len() + next);
        }
    }
}

proof fn lemma_lookups_shift(p: Seq<u8>, m: Seq<u8>, o: int)
    requires
        0 <= o,
        p.len() + m.len() <= u16::MAX,
    ensures
        lookups_at(p + m, p.len() + o) == (match lookups_at(m, o) {
            Ok((f, e)) => Ok(
                (
                    AddressTableLookupFrame {
                        num_address_table_lookups: f.num_address_table_lookups,
                        offset: (f.offset + p.len()) as u16,
                        total_writable_lookup_accounts: f.total_writable_lookup_accounts,
                        total_readonly_lookup_accounts: f.total_readonly_lookup_accounts,
                    },
                    e + p.len(),
                ),
            ),
            Err(err) => Err(err),
        }),
{
    let d = p.len() as int;
    lemma_byte_shift(p, m, o);
    if o < m.len() {
        let n = m[o];
        lemma_lookups_from_shift(p, m, o + 1, n as nat);
        assert(d + o + 1 == d + (o + 1));
    }
}

proof fn lemma_header_shift(p: Seq<u8>, m: Seq<u8>, o: int)
    requires
        0 <= o,
    ensures
        header_at(p + m, p.len() + o) == (match header_at(m, o) {
            Ok((h, e)) => Ok((h, e + p.len())),
            Err(err) => Err(err),
        }),
{
    let d = p.len() as int;
    lemma_byte_shift(p, m, o);
    lemma_byte_shift(p, m, o + 1);
    lemma_byte_shift(p, m, o + 2);
    lemma_byte_shift(p, m, o + 3);
    assert(d + o + 1 == d + (o + 1));
    assert(d + o + 2 == d + (o + 2));
    assert(d + o + 3 == d + (o + 3));
}

proof fn lemma_static_keys_shift(p: Seq<u8>, m: Seq<u8>, o: int)
    requires
        0 <= o,
    ensures
        static_keys_at(p + m, p.len() + o) == (match static_keys_at(m, o) {
            Ok((n, e)) => Ok((n, e + p.len())),
            Err(err) => Err(err),
        }),
{
    lemma_byte_shift(p, m, o);
    if o < m.len() {
        lemma_skip_shift(p, m, o + 1, m[o] * 32);
        assert(p.len() + o + 1 == p.len() + (o + 1));
    }
}

/// A legacy or v0 message reads the same after any bytes: framed `d` bytes
/// into a buffer, it has the frame that it has on its own with every offset
/// moved by `d`, and it fails alike. The whole buffer must fit the `u16`
/// offsets of a frame.
pub proof fn lemma_message_reads_alike_after_prefix(p: Seq<u8>, m: Seq<u8>)
    requires
        p.len() + m.len() <= u16::MAX,
    ensures
        legacy_or_v0_message(p + m, p.len() as int) == (match legacy_or_v0_message(m, 0) {
            Ok(g) => Ok(shifted_message(g, p.len() as int)),
            Err(e) => Err(e),
        }),
{
    let d = p.len() as int;
    let c = p + m;
    lemma_header_shift(p, m, 0);
    if let Ok(((version, _, _, _), o1)) = header_at(m, 0) {
        lemma_static_keys_shift(p, m, o1);
        if let Ok((_, o2)) = static_keys_at(m, o1) {
            lemma_skip_shift(p, m, o2, 32);
            if let Some(o3) = skip(m, o2, 32) {
                lemma_legacy_instructions_shift(p, m, o3);
                assert(o3 + d == d + o3);
                if let Ok((_, o4)) = legacy_instructions_at(m, o3) {
                    lemma_compact_u16_span(m, o3);
                    let (n, first) = compact_u16_at(m, o3).unwrap();
                    lemma_legacy_instructions_forward(m, first, n as nat);
                    lemma_lookups_shift(p, m, o4);
                    assert(o4 + d == d + o4);
                    if version == TransactionVersion::V0 && o4 < m.len() {
                        lemma_lookups_forward(m, o4 + 1, m[o4] as nat);
                    }
                }
            }
            assert(o2 + d == d + o2);
        }
        assert(o1 + d == d + o1);
    }
}

/// A v1 message reads the same whatever follows it.
pub proof fn lemma_v1_message_reads_alike_before_suffix(m: Seq<u8>, t: Seq<u8>)
    requires
        v1_message(m) is Ok,
    ensures
        v1_message(m + t) == v1_message(m),
{
    let f = v1_message(m).unwrap();
    assert(agree_upto(m, m + t, m.len() as int));
    lemma_v1_message_agree(m, m + t, m.len() as int);
}

proof fn lemma_legacy_transaction_message(b: Seq<u8>)
    requires
        legacy_or_v0_transaction(b) matches Ok(f) && f.data_len == b.len(),
    ensures
        ({
            let f = legacy_or_v0_transaction(b)->Ok_0;
            let o = f.message.message_header.offset as int;
            &&& message_frame(b.subrange(o, f.message.end_offset as int)) matches Ok(g)
            &&& f.message == shifted_message(g, o)
        }),
{
    let f = legacy_or_v0_transaction(b)->Ok_0;
    let (_, o1) = signatures_at(b, 0).unwrap();
    let mf = legacy_or_v0_message(b, o1)->Ok_0;
    assert(f.message == mf);
    lemma_message_end_within(b, o1);
    assert(mf.message_header.offset == o1);
    let p = b.take(o1);
    let m = b.skip(o1);
    assert(b =~= p + m);
    lemma_message_reads_alike_after_prefix(p, m);
    lemma_message_end_within(m, 0);
    let g = legacy_or_v0_message(m, 0)->Ok_0;
    assert(mf == shifted_message(g, o1));
    assert(g.end_offset == m.len());
    assert(b.subrange(o1, mf.end_offset as int) =~= m);
    assert(m[0] == b[o1]);
    assert(!starts_with_v1_prefix(m));
}

proof fn lemma_v1_transaction_message(b: Seq<u8>)
    requires
        v1_transaction(b) is Ok,
    ensures
        ({
            let f = v1_transaction(b)->Ok_0;
            let o = f.message.message_header.offset as int;
            &&& message_frame(b.subrange(o, f.message.end_offset as int)) matches Ok(g)
            &&& f.message == shifted_message(g, o)
        }),
{
    let f = v1_transaction(b)->Ok_0;
    let mf = v1_message(b)->Ok_0;
    assert(f.message == mf);
    let e = mf.end_offset as int;
    let m = b.take(e);
    assert(agree_upto(b, m, e));
    lemma_v1_message_agree(b, m, e);
    assert(b.subrange(0, e) =~= m);
    assert(starts_with_v1_prefix(m));
    assert(mf == shifted_message(mf, 0));
}

/// The message of a transaction reads the same on its own: the bytes of its
/// message range, framed as a message, give the transaction's message frame
/// with its offsets moved back to the start of the message.
pub proof fn lemma_transaction_message_reads_alike(b: Seq<u8>)
    requires
        transaction_frame(b) is Ok,
    ensures
        ({
            let f = transaction_frame(b)->Ok_0;
            let o = f.message.message_header.offset as int;
            &&& message_frame(b.subrange(o, f.message.end_offset as int)) matches Ok(g)
            &&& f.message == shifted_message(g, o)
        }),
{
    if b[0] < 128 {
        lemma_legacy_transaction_message(b);
    } else {
        lemma_v1_transaction_message(b);
    }
}

} // verus!
