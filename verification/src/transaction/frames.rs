//! The sections of a serialized transaction or message, and how each is framed.
use super::bytes::{
    advance_offset, byte_at, compact_u16_at, lemma_compact_u16_span, read_byte, read_compressed_u16,
    read_u16_le, skip, u16_le_at,
};
use super::result::{TransactionVersion, TransactionViewError};
use vstd::prelude::*;

verus! {

/// The most signatures that a legacy or v0 transaction may carry: each
/// signature needs a 64-byte signature and a 32-byte key, and a packet holds
/// 1232 bytes.
pub const MAX_SIGNATURES_PER_PACKET: u8 = 12;

/// The most static account keys that a legacy or v0 message may carry: 1232
/// bytes of packet hold at most 38 keys of 32 bytes.
pub const MAX_STATIC_ACCOUNTS_PER_PACKET: u8 = 38;

/// The most address table lookups that a v0 message may carry: each lookup
/// takes at least 34 bytes, and the smallest packet with lookups already
/// takes 136 of the 1232 bytes.
pub const MAX_ATLS_PER_PACKET: u8 = 32;

/// The size of a signature.
pub const SIGNATURE_SIZE: usize = 64;

/// The size of an account key.
pub const PUBKEY_SIZE: usize = 32;

/// The size of a blockhash.
pub const HASH_SIZE: usize = 32;

/// The size of a v1 instruction header: program index, account count and a
/// little-endian `u16` data length.
pub const V1_INSTRUCTION_HEADER_SIZE: usize = 4;

/// The version byte of a v1 message.
pub open spec fn v1_prefix() -> u8 {
    129
}

/// The bit that marks a versioned message.
pub open spec fn message_version_prefix() -> u8 {
    128
}

/// `solana_message::v1::V1_PREFIX`, the version byte of a v1 message, which
/// solana-message defines as `MESSAGE_VERSION_PREFIX | 1`, that is 129.
#[verifier::external_body]
pub(crate) fn v1_version_byte() -> (r: u8)
    ensures
        r == v1_prefix(),
{
    solana_message::v1::V1_PREFIX
}

/// `solana_message::MESSAGE_VERSION_PREFIX`, the bit that marks a versioned
/// message, which solana-message defines as `0x80`.
#[verifier::external_body]
pub(crate) fn version_prefix_byte() -> (r: u8)
    ensures
        r == message_version_prefix(),
{
    solana_message::MESSAGE_VERSION_PREFIX
}

/// Where the signatures of a transaction are and how many there are.
#[derive(Debug, Clone, Copy)]
pub struct SignatureFrame {
    pub num_signatures: u8,
    pub offset: u16,
}

/// The header of a message: where it starts, its version and its counts.
#[derive(Debug, Clone, Copy)]
pub struct MessageHeaderFrame {
    pub offset: u16,
    pub version: TransactionVersion,
    pub num_required_signatures: u8,
    pub num_readonly_signed_accounts: u8,
    pub num_readonly_unsigned_accounts: u8,
}

/// Where the static account keys are and how many there are.
#[derive(Debug, Clone, Copy)]
pub struct StaticAccountKeysFrame {
    pub num_static_accounts: u8,
    pub offset: u16,
}

/// Where the instructions are and how many there are.
#[derive(Debug, Clone, Copy)]
pub struct InstructionsFrame {
    pub num_instructions: u16,
    pub offset: u16,
}

impl InstructionsFrame {
    /// The number of instructions.
    pub fn num_instructions(&self) -> (r: u16)
        ensures
            r == self.num_instructions,
    {
        self.num_instructions
    }
}

/// Where the address table lookups are, how many there are, and how many
/// accounts they load in all.
#[derive(Debug, Clone, Copy)]
pub struct AddressTableLookupFrame {
    pub num_address_table_lookups: u8,
    pub offset: u16,
    pub total_writable_lookup_accounts: u16,
    pub total_readonly_lookup_accounts: u16,
}

/// The frame of a message without address table lookups.
pub open spec fn empty_address_table_lookup_frame() -> AddressTableLookupFrame {
    AddressTableLookupFrame {
        num_address_table_lookups: 0,
        offset: 0,
        total_writable_lookup_accounts: 0,
        total_readonly_lookup_accounts: 0,
    }
}

/// Where the configuration of a v1 message is: its mask and its values.
#[derive(Debug, Clone, Copy)]
pub struct TransactionConfigFrame {
    pub present: bool,
    pub mask_offset: u16,
    pub mask: u32,
    pub values_offset: u16,
}

/// The configuration frame of a message that has no configuration.
pub open spec fn absent_config_frame() -> TransactionConfigFrame {
    TransactionConfigFrame { present: false, mask_offset: 0, mask: 0, values_offset: 0 }
}

impl TransactionConfigFrame {
    /// The frame of a legacy or v0 message, which has no configuration.
    pub fn not_applicable() -> (r: Self)
        ensures
            r == absent_config_frame(),
    {
        TransactionConfigFrame { present: false, mask_offset: 0, mask: 0, values_offset: 0 }
    }

    /// Whether the message has a configuration.
    pub fn is_present(&self) -> (r: bool)
        ensures
            r == self.present,
    {
        self.present
    }
}

// ---------------------------------------------------------------------------
// The format, section by section.
// ---------------------------------------------------------------------------

/// The signature count at `off`, and the end of the signatures: a single
/// byte between 1 and the packet limit, then that many 64-byte signatures.
pub open spec fn signatures_at(b: Seq<u8>, off: int) -> Result<(u8, int), TransactionViewError> {
    match byte_at(b, off) {
        None => Err(TransactionViewError::ParseError),
        Some(n) => if n == 0 || n > MAX_SIGNATURES_PER_PACKET {
            Err(TransactionViewError::ParseError)
        } else {
            match skip(b, off + 1, n * SIGNATURE_SIZE) {
                None => Err(TransactionViewError::ParseError),
                Some(end) => Ok((n, end)),
            }
        },
    }
}

/// The header of a legacy or v0 message at `off` (version and the three
/// counts), and its end. A first byte with the high bit set is a version
/// byte, of which only version 0 is accepted here; otherwise it is the
/// number of required signatures of a legacy message.
pub open spec fn header_at(b: Seq<u8>, off: int) -> Result<
    ((TransactionVersion, u8, u8, u8), int),
    TransactionViewError,
> {
    match byte_at(b, off) {
        None => Err(TransactionViewError::ParseError),
        Some(b0) => {
            let (version, nrs, after) = if b0 >= message_version_prefix() {
                if b0 == message_version_prefix() {
                    (Some(TransactionVersion::V0), byte_at(b, off + 1), off + 2)
                } else {
                    (None, None, off + 1)
                }
            } else {
                (Some(TransactionVersion::Legacy), Some(b0), off + 1)
            };
            match (version, nrs, byte_at(b, after), byte_at(b, after + 1)) {
                (Some(v), Some(r), Some(ros), Some(rou)) => Ok(((v, r, ros, rou), after + 2)),
                _ => Err(TransactionViewError::ParseError),
            }
        },
    }
}

/// The static account key count at `off` and the end of the keys: a single
/// byte between 1 and the packet limit, then that many 32-byte keys.
pub open spec fn static_keys_at(b: Seq<u8>, off: int) -> Result<(u8, int), TransactionViewError> {
    match byte_at(b, off) {
        None => Err(TransactionViewError::ParseError),
        Some(n) => if n == 0 || n > MAX_STATIC_ACCOUNTS_PER_PACKET {
            Err(TransactionViewError::ParseError)
        } else {
            match skip(b, off + 1, n * PUBKEY_SIZE) {
                None => Err(TransactionViewError::ParseError),
                Some(end) => Ok((n, end)),
            }
        },
    }
}

/// The end of one legacy instruction at `off`: a program index byte, a
/// compact-u16 count of account indexes and the indexes, a compact-u16
/// data length and the data.
pub open spec fn legacy_instruction_at(b: Seq<u8>, off: int) -> Option<int> {
    match byte_at(b, off) {
        None => None,
        Some(_) => match compact_u16_at(b, off + 1) {
            None => None,
            Some((num_accounts, o1)) => match skip(b, o1, num_accounts as int) {
                None => None,
                Some(o2) => match compact_u16_at(b, o2) {
                    None => None,
                    Some((data_len, o3)) => skip(b, o3, data_len as int),
                },
            },
        },
    }
}

/// The end of `k` legacy instructions in a row starting at `off`.
pub open spec fn legacy_instructions_from(b: Seq<u8>, off: int, k: nat) -> Option<int>
    decreases k,
{
    if k == 0 {
        Some(off)
    } else {
        match legacy_instruction_at(b, off) {
            None => None,
            Some(next) => legacy_instructions_from(b, next, (k - 1) as nat),
        }
    }
}

/// The instruction count of a legacy or v0 message at `off` (a compact-u16)
/// and the end of the instructions that follow it.
pub open spec fn legacy_instructions_at(b: Seq<u8>, off: int) -> Result<
    (u16, int),
    TransactionViewError,
> {
    match compact_u16_at(b, off) {
        None => Err(TransactionViewError::ParseError),
        Some((n, o1)) => match legacy_instructions_from(b, o1, n as nat) {
            None => Err(TransactionViewError::ParseError),
            Some(end) => Ok((n, end)),
        },
    }
}

/// The total payload length that `k` v1 instruction headers starting at
/// `off` announce: the account count plus the data length of each.
pub open spec fn v1_payload_len(b: Seq<u8>, off: int, k: nat) -> int
    decreases k,
{
    if k == 0 {
        0
    } else {
        b[off + 1] + u16_le_at(b, off + 2) + v1_payload_len(b, off + V1_INSTRUCTION_HEADER_SIZE, (
        k - 1) as nat)
    }
}

/// The end of the `k` instructions of a v1 message at `off`: `k` headers of
/// four bytes, then the payloads that they announce.
pub open spec fn v1_instructions_at(b: Seq<u8>, off: int, k: nat) -> Result<
    int,
    TransactionViewError,
> {
    match skip(b, off, k * V1_INSTRUCTION_HEADER_SIZE) {
        None => Err(TransactionViewError::ParseError),
        Some(headers_end) => match skip(b, headers_end, v1_payload_len(b, off, k)) {
            None => Err(TransactionViewError::ParseError),
            Some(end) => Ok(end),
        },
    }
}

/// One address table lookup at `off`: a 32-byte table key, a compact-u16
/// count of writable indexes and the indexes, a compact-u16 count of readonly
/// indexes and the indexes. Gives the two counts and the end.
pub open spec fn lookup_at(b: Seq<u8>, off: int) -> Option<(u16, u16, int)> {
    match skip(b, off, PUBKEY_SIZE as int) {
        None => None,
        Some(o1) => match compact_u16_at(b, o1) {
            None => None,
            Some((w, o2)) => match skip(b, o2, w as int) {
                None => None,
                Some(o3) => match compact_u16_at(b, o3) {
                    None => None,
                    Some((r, o4)) => match skip(b, o4, r as int) {
                        None => None,
                        Some(end) => Some((w, r, end)),
                    },
                },
            },
        },
    }
}

/// `k` address table lookups in a row from `off`: the total writable and
/// readonly counts and the end.
pub open spec fn lookups_from(b: Seq<u8>, off: int, k: nat) -> Option<(int, int, int)>
    decreases k,
{
    if k == 0 {
        Some((0, 0, off))
    } else {
        match lookup_at(b, off) {
            None => None,
            Some((w, r, next)) => match lookups_from(b, next, (k - 1) as nat) {
                None => None,
                Some((tw, tr, end)) => Some((w + tw, r + tr, end)),
            },
        }
    }
}

/// The address table lookups of a v0 message at `off`: a count byte of at
/// most the packet limit, then the lookups. Totals above `u16::MAX` break the
/// sanitization rules.
pub open spec fn lookups_at(b: Seq<u8>, off: int) -> Result<
    (AddressTableLookupFrame, int),
    TransactionViewError,
> {
    match byte_at(b, off) {
        None => Err(TransactionViewError::ParseError),
        Some(n) => if n > MAX_ATLS_PER_PACKET {
            Err(TransactionViewError::ParseError)
        } else {
            match lookups_from(b, off + 1, n as nat) {
                None => Err(TransactionViewError::ParseError),
                Some((w, r, end)) => if w > u16::MAX || r > u16::MAX {
                    Err(TransactionViewError::SanitizeError)
                } else {
                    Ok(
                        (
                            AddressTableLookupFrame {
                                num_address_table_lookups: n,
                                offset: (off + 1) as u16,
                                total_writable_lookup_accounts: w as u16,
                                total_readonly_lookup_accounts: r as u16,
                            },
                            end,
                        ),
                    )
                },
            }
        },
    }
}

/// Whether a v1 configuration mask is well formed: only the five known bits
/// (priority fee in bits 0 and 1, compute unit limit, loaded accounts data
/// size limit, heap size) may be set, and the two priority-fee bits are set
/// together or not at all.
pub open spec fn config_mask_valid(mask: u32) -> bool {
    mask < 32 && mask % 4 != 1 && mask % 4 != 2
}

/// The number of configuration bytes that a valid mask announces: eight for
/// the priority fee and four for each other value present.
pub open spec fn config_values_len(mask: u32) -> int {
    (if mask % 4 == 3 {
        8int
    } else {
        0int
    }) + 4 * ((mask / 4) % 2) + 4 * ((mask / 8) % 2) + 4 * ((mask / 16) % 2)
}

/// The end of the configuration values of a v1 message at `off`.
pub open spec fn config_values_at(b: Seq<u8>, off: int, mask: u32) -> Result<
    int,
    TransactionViewError,
> {
    if !config_mask_valid(mask) {
        Err(TransactionViewError::ParseError)
    } else {
        match skip(b, off, config_values_len(mask)) {
            None => Err(TransactionViewError::ParseError),
            Some(end) => Ok(end),
        }
    }
}

// ---------------------------------------------------------------------------
// Lemmas on the format.
// ---------------------------------------------------------------------------

/// Each legacy instruction ends after it starts, within the buffer.
pub proof fn lemma_legacy_instruction_forward(b: Seq<u8>, off: int)
    ensures
        legacy_instruction_at(b, off) matches Some(end) ==> off < end <= b.len(),
{
    lemma_compact_u16_span(b, off + 1);
    if let Some((na, o1)) = compact_u16_at(b, off + 1) {
        if let Some(o2) = skip(b, o1, na as int) {
            lemma_compact_u16_span(b, o2);
        }
    }
}

/// A run of legacy instructions ends after it starts, within the buffer.
pub proof fn lemma_legacy_instructions_forward(b: Seq<u8>, off: int, k: nat)
    requires
        0 <= off <= b.len(),
    ensures
        legacy_instructions_from(b, off, k) matches Some(end) ==> off <= end <= b.len(),
    decreases k,
{
    if k > 0 {
        lemma_legacy_instruction_forward(b, off);
        if let Some(next) = legacy_instruction_at(b, off) {
            lemma_legacy_instructions_forward(b, next, (k - 1) as nat);
        }
    }
}

/// A run of lookups ends after it starts, within the buffer, and its totals
/// are at most `u16::MAX` for each lookup.
pub proof fn lemma_lookups_forward(b: Seq<u8>, off: int, k: nat)
    requires
        0 <= off <= b.len(),
    ensures
        lookups_from(b, off, k) matches Some((w, r, end)) ==> off <= end <= b.len() && 0 <= w <= k
            * 65535 && 0 <= r <= k * 65535,
    decreases k,
{
    if k > 0 {
        if let Some((w, r, next)) = lookup_at(b, off) {
            lemma_compact_u16_span(b, off + 32);
            if let Some((w0, o2)) = compact_u16_at(b, off + 32) {
                if let Some(o3) = skip(b, o2, w0 as int) {
                    lemma_compact_u16_span(b, o3);
                }
            }
            lemma_lookups_forward(b, next, (k - 1) as nat);
            assert((k - 1) * 65535 + 65535 == k * 65535) by (nonlinear_arith);
        }
    }
}

/// The payload that `k` v1 headers announce is at most `k * 65790` bytes.
pub proof fn lemma_v1_payload_bound(b: Seq<u8>, off: int, k: nat)
    requires
        0 <= off,
        off + k * 4 <= b.len(),
    ensures
        0 <= v1_payload_len(b, off, k) <= k * 65790,
    decreases k,
{
    if k > 0 {
        assert(off + (k - 1) * 4 + 4 == off + k * 4) by (nonlinear_arith);
        lemma_v1_payload_bound(b, off + 4, (k - 1) as nat);
        assert((k - 1) * 65790 + 65790 == k * 65790) by (nonlinear_arith);
    }
}

// ---------------------------------------------------------------------------
// Reading each section.
// ---------------------------------------------------------------------------

/// Reads the signature count at `*offset` and moves past the signatures.
pub fn read_signatures(bytes: &[u8], offset: &mut usize) -> (r: Result<u8, TransactionViewError>)
    requires
        *old(offset) <= bytes@.len(),
    ensures
        *final(offset) <= bytes@.len(),
        match r {
            Ok(n) => signatures_at(bytes@, *old(offset) as int) == Ok::<
                (u8, int),
                TransactionViewError,
            >((n, *final(offset) as int)),
            Err(e) => signatures_at(bytes@, *old(offset) as int) == Err::<
                (u8, int),
                TransactionViewError,
            >(e),
        },
{
    let n = read_byte(bytes, offset)?;
    if n == 0 || n > MAX_SIGNATURES_PER_PACKET {
        return Err(TransactionViewError::ParseError);
    }
    advance_offset(bytes, offset, (n as usize) * SIGNATURE_SIZE)?;
    Ok(n)
}

/// Reads the header of a legacy or v0 message at `*offset`.
pub fn read_header(bytes: &[u8], offset: &mut usize) -> (r: Result<
    (TransactionVersion, u8, u8, u8),
    TransactionViewError,
>)
    requires
        *old(offset) <= bytes@.len(),
    ensures
        *final(offset) <= bytes@.len(),
        match r {
            Ok(h) => header_at(bytes@, *old(offset) as int) == Ok::<
                ((TransactionVersion, u8, u8, u8), int),
                TransactionViewError,
            >((h, *final(offset) as int)),
            Err(e) => header_at(bytes@, *old(offset) as int) == Err::<
                ((TransactionVersion, u8, u8, u8), int),
                TransactionViewError,
            >(e),
        },
{
    let b0 = read_byte(bytes, offset)?;
    let version_prefix = version_prefix_byte();
    let (version, num_required_signatures) = if b0 >= version_prefix {
        if b0 == version_prefix {
            let nrs = read_byte(bytes, offset)?;
            (TransactionVersion::V0, nrs)
        } else {
            return Err(TransactionViewError::ParseError);
        }
    } else {
        (TransactionVersion::Legacy, b0)
    };
    let ros = read_byte(bytes, offset)?;
    let rou = read_byte(bytes, offset)?;
    Ok((version, num_required_signatures, ros, rou))
}

/// Reads the static account key count at `*offset` and moves past the keys.
pub fn read_static_keys(bytes: &[u8], offset: &mut usize) -> (r: Result<u8, TransactionViewError>)
    requires
        *old(offset) <= bytes@.len(),
    ensures
        *final(offset) <= bytes@.len(),
        match r {
            Ok(n) => static_keys_at(bytes@, *old(offset) as int) == Ok::<
                (u8, int),
                TransactionViewError,
            >((n, *final(offset) as int)),
            Err(e) => static_keys_at(bytes@, *old(offset) as int) == Err::<
                (u8, int),
                TransactionViewError,
            >(e),
        },
{
    let n = read_byte(bytes, offset)?;
    if n == 0 || n > MAX_STATIC_ACCOUNTS_PER_PACKET {
        return Err(TransactionViewError::ParseError);
    }
    advance_offset(bytes, offset, (n as usize) * PUBKEY_SIZE)?;
    Ok(n)
}

/// Moves past one legacy instruction at `*offset`.
fn skip_legacy_instruction(bytes: &[u8], offset: &mut usize) -> (r: Result<
    (),
    TransactionViewError,
>)
    requires
        *old(offset) <= bytes@.len(),
    ensures
        *final(offset) <= bytes@.len(),
        match r {
            Ok(_) => legacy_instruction_at(bytes@, *old(offset) as int) == Some(
                *final(offset) as int,
            ),
            Err(e) => legacy_instruction_at(bytes@, *old(offset) as int) is None && e
                == TransactionViewError::ParseError,
        },
{
    let _program_id_index = read_byte(bytes, offset)?;
    let num_accounts = read_compressed_u16(bytes, offset)?;
    advance_offset(bytes, offset, num_accounts as usize)?;
    let data_len = read_compressed_u16(bytes, offset)?;
    advance_offset(bytes, offset, data_len as usize)?;
    Ok(())
}

/// Reads the instruction count of a legacy or v0 message at `*offset` and
/// moves past the instructions.
pub fn read_legacy_instructions(bytes: &[u8], offset: &mut usize) -> (r: Result<
    u16,
    TransactionViewError,
>)
    requires
        *old(offset) <= bytes@.len(),
    ensures
        *final(offset) <= bytes@.len(),
        match r {
            Ok(n) => legacy_instructions_at(bytes@, *old(offset) as int) == Ok::<
                (u16, int),
                TransactionViewError,
            >((n, *final(offset) as int)),
            Err(e) => legacy_instructions_at(bytes@, *old(offset) as int) == Err::<
                (u16, int),
                TransactionViewError,
            >(e),
        },
{
    let num_instructions = read_compressed_u16(bytes, offset)?;
    let ghost start = *offset as int;
    let ghost first = *old(offset) as int;
    let mut i: u16 = 0;
    while i < num_instructions
        invariant
            0 <= i <= num_instructions,
            *offset <= bytes@.len(),
            compact_u16_at(bytes@, first) == Some((num_instructions, start)),
            first == *old(offset),
            legacy_instructions_from(bytes@, start, num_instructions as nat)
                == legacy_instructions_from(bytes@, *offset as int, (num_instructions - i) as nat),
        decreases num_instructions - i,
    {
        skip_legacy_instruction(bytes, offset)?;
        proof {
            lemma_legacy_instruction_forward(bytes@, *old(offset) as int);
        }
        i = i + 1;
    }
    Ok(num_instructions)
}

/// Moves past the `num_instructions` instructions of a v1 message at
/// `*offset`.
pub fn read_v1_instructions(bytes: &[u8], offset: &mut usize, num_instructions: u8) -> (r: Result<
    (),
    TransactionViewError,
>)
    requires
        *old(offset) <= bytes@.len(),
    ensures
        *final(offset) <= bytes@.len(),
        match r {
            Ok(_) => v1_instructions_at(bytes@, *old(offset) as int, num_instructions as nat)
                == Ok::<int, TransactionViewError>(*final(offset) as int),
            Err(e) => v1_instructions_at(bytes@, *old(offset) as int, num_instructions as nat)
                == Err::<int, TransactionViewError>(e),
        },
{
    let headers_offset = *offset;
    advance_offset(bytes, offset, (num_instructions as usize) * V1_INSTRUCTION_HEADER_SIZE)?;
    proof {
        lemma_v1_payload_bound(bytes@, headers_offset as int, num_instructions as nat);
    }
    let len = bytes.len();
    let mut payload: usize = 0;
    let mut i: u8 = 0;
    while i < num_instructions
        invariant
            len == bytes@.len(),
            *offset == headers_offset + num_instructions * 4,
            skip(bytes@, *old(offset) as int, num_instructions * 4) == Some(*offset as int),
            0 <= i <= num_instructions,
            headers_offset + num_instructions * 4 <= bytes@.len(),
            payload + v1_payload_len(bytes@, headers_offset + i * 4, (num_instructions - i) as nat)
                == v1_payload_len(bytes@, headers_offset as int, num_instructions as nat),
            0 <= payload <= i * 65790,
        decreases num_instructions - i,
    {
        let h = headers_offset + (i as usize) * V1_INSTRUCTION_HEADER_SIZE;
        let num_accounts = bytes[h + 1];
        let data_len = read_u16_le(bytes, h + 2);
        proof {
            assert(headers_offset + i * 4 + 4 == headers_offset + (i + 1) * 4);
        }
        payload = payload + (num_accounts as usize) + (data_len as usize);
        i = i + 1;
    }
    advance_offset(bytes, offset, payload)?;
    Ok(())
}

/// Reads one address table lookup at `*offset`, giving its writable and
/// readonly index counts.
fn read_lookup(bytes: &[u8], offset: &mut usize) -> (r: Result<(u16, u16), TransactionViewError>)
    requires
        *old(offset) <= bytes@.len(),
    ensures
        *final(offset) <= bytes@.len(),
        match r {
            Ok((w, rd)) => lookup_at(bytes@, *old(offset) as int) == Some(
                (w, rd, *final(offset) as int),
            ),
            Err(e) => lookup_at(bytes@, *old(offset) as int) is None && e
                == TransactionViewError::ParseError,
        },
{
    advance_offset(bytes, offset, PUBKEY_SIZE)?;
    let w = read_compressed_u16(bytes, offset)?;
    advance_offset(bytes, offset, w as usize)?;
    let rd = read_compressed_u16(bytes, offset)?;
    advance_offset(bytes, offset, rd as usize)?;
    Ok((w, rd))
}

/// Reads the address table lookups of a v0 message at `*offset`.
pub fn read_lookups(bytes: &[u8], offset: &mut usize) -> (r: Result<
    (u8, usize, u16, u16),
    TransactionViewError,
>)
    requires
        *old(offset) <= bytes@.len(),
    ensures
        *final(offset) <= bytes@.len(),
        match r {
            Ok((n, start, w, rd)) => start == *old(offset) + 1 && lookups_at(
                bytes@,
                *old(offset) as int,
            ) == Ok::<(AddressTableLookupFrame, int), TransactionViewError>(
                (
                    AddressTableLookupFrame {
                        num_address_table_lookups: n,
                        offset: start as u16,
                        total_writable_lookup_accounts: w,
                        total_readonly_lookup_accounts: rd,
                    },
                    *final(offset) as int,
                ),
            ),
            Err(e) => lookups_at(bytes@, *old(offset) as int) == Err::<
                (AddressTableLookupFrame, int),
                TransactionViewError,
            >(e),
        },
{
    let n = read_byte(bytes, offset)?;
    if n > MAX_ATLS_PER_PACKET {
        return Err(TransactionViewError::ParseError);
    }
    let start = *offset;
    let mut total_w: u32 = 0;
    let mut total_r: u32 = 0;
    let mut i: u8 = 0;
    while i < n
        invariant
            0 <= i <= n <= MAX_ATLS_PER_PACKET,
            start == *old(offset) + 1,
            byte_at(bytes@, *old(offset) as int) == Some(n),
            start <= *offset <= bytes@.len(),
            total_w <= i * 65535,
            total_r <= i * 65535,
            lookups_from(bytes@, start as int, n as nat) == (match lookups_from(
                bytes@,
                *offset as int,
                (n - i) as nat,
            ) {
                None => None,
                Some((w, r, end)) => Some((w + total_w, r + total_r, end)),
            }),
        decreases n - i,
    {
        let (w, rd) = read_lookup(bytes, offset)?;
        proof {
            lemma_compact_u16_span(bytes@, *old(offset) + 32);
            assert(i * 65535 + 65535 == (i + 1) * 65535) by (nonlinear_arith);
        }
        total_w = total_w + w as u32;
        total_r = total_r + rd as u32;
        i = i + 1;
    }
    if total_w > 65535 || total_r > 65535 {
        return Err(TransactionViewError::SanitizeError);
    }
    Ok((n, start, total_w as u16, total_r as u16))
}

/// Checks the configuration mask of a v1 message and moves past the
/// configuration values at `*offset`.
pub fn read_config_values(bytes: &[u8], offset: &mut usize, mask: u32) -> (r: Result<
    (),
    TransactionViewError,
>)
    requires
        *old(offset) <= bytes@.len(),
    ensures
        *final(offset) <= bytes@.len(),
        match r {
            Ok(_) => config_values_at(bytes@, *old(offset) as int, mask) == Ok::<
                int,
                TransactionViewError,
            >(*final(offset) as int),
            Err(e) => config_values_at(bytes@, *old(offset) as int, mask) == Err::<
                int,
                TransactionViewError,
            >(e),
        },
{
    if mask >= 32 || mask % 4 == 1 || mask % 4 == 2 {
        return Err(TransactionViewError::ParseError);
    }
    let fee: usize = if mask % 4 == 3 {
        8
    } else {
        0
    };
    let len = fee + 4 * ((mask / 4) % 2) as usize + 4 * ((mask / 8) % 2) as usize + 4 * ((mask
        / 16) % 2) as usize;
    advance_offset(bytes, offset, len)?;
    Ok(())
}

} // verus!
