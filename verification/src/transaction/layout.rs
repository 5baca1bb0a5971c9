//! What the frames of a message and a transaction say about the bytes they
//! frame: how many accounts the address table lookups load, how long the
//! configuration of a v1 message is, and where the signatures of a v1
//! transaction lie.
use super::bytes::u32_le_at;
use super::bytes::{compact_u16_at, lemma_compact_u16_span};
use super::frames::{
    config_values_at, header_at, legacy_instructions_at, lemma_legacy_instructions_forward,
    lemma_lookups_forward, lookup_at, lookups_at, lookups_from, static_keys_at,
};
use super::message_frame::{legacy_or_v0_message, v1_message};
use super::result::TransactionVersion;
use super::transaction_frame::{transaction_frame, transaction_frame_from_prefix};
use vstd::prelude::*;

verus! {

/// The sum of the counts `s`.
pub open spec fn total(s: Seq<u16>) -> int
    decreases s.len(),
{
    if s.len() == 0 {
        0
    } else {
        s[0] + total(s.drop_first())
    }
}

/// The number of bits set in `m`.
pub open spec fn set_bits(m: nat) -> nat
    decreases m,
{
    if m == 0 {
        0
    } else {
        m % 2 + set_bits(m / 2)
    }
}

/// Whether the bytes of `b` from `s` to `next` hold one address table
/// lookup listing `w` writable and `r` readonly indexes: a 32-byte table
/// key, the compact-u16 count `w` and `w` index bytes, then the compact-u16
/// count `r` and `r` index bytes.
pub open spec fn lookup_laid_out(b: Seq<u8>, s: int, w: u16, r: u16, next: int) -> bool {
    0 <= s && match compact_u16_at(b, s + 32) {
        None => false,
        Some((cw, o1)) => cw == w && match compact_u16_at(b, o1 + w) {
            None => false,
            Some((cr, o2)) => cr == r && next == o2 + r && next <= b.len(),
        },
    }
}

/// Whether the bytes of `b` from `start` to `end` hold `k` address table
/// lookups one after the other, the `j`-th from `starts[j]` to
/// `starts[j + 1]` listing `writable[j]` writable and `readonly[j]` readonly
/// indexes.
pub open spec fn lookups_laid_out(
    b: Seq<u8>,
    start: int,
    end: int,
    k: nat,
    starts: Seq<int>,
    writable: Seq<u16>,
    readonly: Seq<u16>,
) -> bool {
    &&& starts.len() == k + 1
    &&& writable.len() == k
    &&& readonly.len() == k
    &&& starts[0] == start
    &&& starts[k as int] == end
    &&& forall|j: int|
        0 <= j < k ==> lookup_laid_out(b, #[trigger] starts[j], writable[j], readonly[j], starts[j + 1])
}

proof fn lemma_lookup_at_laid_out(b: Seq<u8>, s: int)
    ensures
        lookup_at(b, s) matches Some((w, r, next)) ==> lookup_laid_out(b, s, w, r, next),
{
    if let Some((w, r, next)) = lookup_at(b, s) {
        lemma_compact_u16_span(b, s + 32);
    }
}

proof fn lemma_lookups_from_laid_out(b: Seq<u8>, off: int, k: nat)
    ensures
        lookups_from(b, off, k) matches Some((tw, tr, end)) ==> exists|
            starts: Seq<int>,
            writable: Seq<u16>,
            readonly: Seq<u16>,
        |
            #[trigger] lookups_laid_out(b, off, end, k, starts, writable, readonly) && tw == total(writable)
                && tr == total(readonly),
    decreases k,
{
    if let Some((tw, tr, end)) = lookups_from(b, off, k) {
        if k == 0 {
            let starts = seq![off];
            let none = Seq::<u16>::empty();
            assert(lookups_laid_out(b, off, end, k, starts, none, none));
        } else {
            let (w, r, next) = lookup_at(b, off).unwrap();
            lemma_lookups_from_laid_out(b, next, (k - 1) as nat);
            let (s1, w1, r1) = choose|starts: Seq<int>, writable: Seq<u16>, readonly: Seq<u16>|
                #[trigger] lookups_laid_out(b, next, end, (k - 1) as nat, starts, writable, readonly) && tw - w
                    == total(writable) && tr - r == total(readonly);
            let starts = seq![off] + s1;
            let writable = seq![w] + w1;
            let readonly = seq![r] + r1;
            assert(writable.drop_first() =~= w1);
            assert(readonly.drop_first() =~= r1);
            lemma_lookup_at_laid_out(b, off);
            assert forall|j: int| 0 <= j < k implies lookup_laid_out(
                b,
                #[trigger] starts[j],
                writable[j],
                readonly[j],
                starts[j + 1],
            ) by {
                if j > 0 {
                    assert(starts[j] == s1[j - 1]);
                    assert(starts[j + 1] == s1[j]);
                    assert(lookup_laid_out(b, s1[j - 1], w1[j - 1], r1[j - 1], s1[j]));
                }
            }
            assert(lookups_laid_out(b, off, end, k, starts, writable, readonly));
        }
    }
}

/// The lookup totals of a message are the sums over its lookups: for a v0
/// message, the bytes from the lookups' offset to the end of the message
/// hold as many address table lookups as the frame counts, one after the
/// other, and the frame's writable total is the sum of the numbers of
/// writable indexes they list, its readonly total the sum of the numbers of
/// readonly indexes. A legacy message has no lookups and loads no accounts.
pub proof fn lemma_lookup_totals_are_sums(b: Seq<u8>, start: int)
    requires
        legacy_or_v0_message(b, start) is Ok,
    ensures
        ({
            let f = legacy_or_v0_message(b, start)->Ok_0;
            let l = f.address_table_lookup;
            if f.message_header.version == TransactionVersion::V0 {
                exists|starts: Seq<int>, writable: Seq<u16>, readonly: Seq<u16>|
                    #[trigger] lookups_laid_out(
                        b,
                        l.offset as int,
                        f.end_offset as int,
                        l.num_address_table_lookups as nat,
                        starts,
                        writable,
                        readonly,
                    ) && l.total_writable_lookup_accounts == total(writable)
                        && l.total_readonly_lookup_accounts == total(readonly)
            } else {
                &&& f.message_header.version == TransactionVersion::Legacy
                &&& l.num_address_table_lookups == 0
                &&& l.total_writable_lookup_accounts == 0
                &&& l.total_readonly_lookup_accounts == 0
            }
        }),
{
    let ((version, _, _, _), o1) = header_at(b, start).unwrap();
    let (_, o2) = static_keys_at(b, o1).unwrap();
    let o3 = o2 + 32;
    let (_, o4) = legacy_instructions_at(b, o3).unwrap();
    lemma_compact_u16_span(b, o3);
    let (ni, first) = compact_u16_at(b, o3).unwrap();
    lemma_legacy_instructions_forward(b, first, ni as nat);
    if version == TransactionVersion::V0 {
        let n = b[o4];
        lemma_lookups_forward(b, o4 + 1, n as nat);
        lemma_lookups_from_laid_out(b, o4 + 1, n as nat);
        let f = legacy_or_v0_message(b, start)->Ok_0;
        let (tw, tr, end) = lookups_from(b, o4 + 1, n as nat).unwrap();
        assert(lookups_at(b, o4) is Ok);
        assert(f.end_offset == end);
        assert(f.address_table_lookup.offset == o4 + 1);
        assert(f.address_table_lookup.num_address_table_lookups == n);
        assert(f.address_table_lookup.total_writable_lookup_accounts == tw);
        assert(f.address_table_lookup.total_readonly_lookup_accounts == tr);
    }
}

/// The configuration of a v1 message takes four bytes for each bit set in
/// its mask: wherever configuration values are read, they end four bytes
/// per set bit after they start.
pub proof fn lemma_config_bytes_per_set_bit(b: Seq<u8>, off: int, mask: u32)
    ensures
        config_values_at(b, off, mask) matches Ok(end) ==> end == off + 4 * set_bits(mask as nat),
{
    if config_values_at(b, off, mask) is Ok {
        reveal_with_fuel(set_bits, 6);
        assert(mask < 32);
        assert(set_bits(mask as nat) == mask % 2 + (mask / 2) % 2 + (mask / 4) % 2 + (mask / 8) % 2 + (
        mask / 16) % 2);
    }
}

/// In a v1 message the configuration mask is the little-endian `u32` at
/// bytes 4 to 7, its values start right after the account addresses, and
/// the instructions start four bytes per set bit of the mask later.
pub proof fn lemma_v1_config_length(b: Seq<u8>)
    requires
        v1_message(b) is Ok,
    ensures
        ({
            let f = v1_message(b)->Ok_0;
            let c = f.transaction_config_frame;
            &&& c.present
            &&& c.mask_offset == 4
            &&& c.mask == u32_le_at(b, 4)
            &&& c.values_offset == 42 + 32 * b[41]
            &&& f.instructions.offset == c.values_offset + 4 * set_bits(c.mask as nat)
        }),
{
    let f = v1_message(b)->Ok_0;
    let mask = u32_le_at(b, 4) as u32;
    assert(0 <= u32_le_at(b, 4) <= u32::MAX);
    lemma_config_bytes_per_set_bit(b, 42 + 32 * b[41], mask);
}

/// A v1 transaction is its message followed by one 64-byte signature for
/// each required signer, the count that byte 1 of the message gives: the
/// frame counts that many signatures, puts them right after the message, and
/// ends after the last of them. Framed with no trailing bytes allowed, the
/// buffer holds exactly the message and those signatures.
pub proof fn lemma_v1_signatures_follow_message(b: Seq<u8>)
    requires
        b.len() > 0,
        b[0] >= 128,
        transaction_frame_from_prefix(b) is Ok,
    ensures
        ({
            let f = transaction_frame_from_prefix(b)->Ok_0;
            &&& f.message.message_header.num_required_signatures == b[1]
            &&& f.signature.num_signatures == b[1]
            &&& f.signature.offset == f.message.end_offset
            &&& f.data_len == f.message.end_offset + 64 * b[1]
            &&& f.data_len <= b.len()
            &&& transaction_frame(b) is Ok ==> b.len() == f.message.end_offset + 64 * b[1]
        }),
{
}

} // verus!
