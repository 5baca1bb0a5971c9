//! Reading the sections of a framed message out of the buffer it was framed
//! from: signatures, account keys, blockhash, instructions and lookups.
use super::bytes::{compact_u16_at, lemma_compact_u16_span, read_compressed_u16, read_u16_le, skip, u16_le_at};
use super::frames::{
    header_at, legacy_instructions_at, lemma_legacy_instructions_forward, lemma_lookups_forward,
    signatures_at, static_keys_at, legacy_instruction_at, legacy_instructions_from, lemma_legacy_instruction_forward,
    lemma_v1_payload_bound, lookup_at, lookups_from, v1_instructions_at, v1_payload_len,
    SignatureFrame, HASH_SIZE, PUBKEY_SIZE, SIGNATURE_SIZE, V1_INSTRUCTION_HEADER_SIZE,
};
use super::message_frame::{legacy_or_v0_message, message_frame, v1_message, MessageFrame};
use super::transaction_frame::{transaction_frame, transaction_frame_from_prefix};
use super::result::TransactionVersion;
use vstd::prelude::*;
use vstd::slice::slice_subrange;

verus! {

/// One instruction of a message, borrowed from the buffer that holds it.
#[derive(Debug, Clone, Copy)]
pub struct InstructionView<'a> {
    /// Index of the program's key among the message's account keys.
    pub program_id_index: u8,
    /// Indexes of the accounts that the instruction uses.
    pub accounts: &'a [u8],
    /// The instruction data.
    pub data: &'a [u8],
}

/// One address table lookup of a v0 message, borrowed from its buffer.
#[derive(Debug, Clone, Copy)]
pub struct AddressTableLookupView<'a> {
    /// The 32-byte key of the lookup table.
    pub account_key: &'a [u8],
    /// Indexes of the table entries loaded as writable.
    pub writable_indexes: &'a [u8],
    /// Indexes of the table entries loaded as readonly.
    pub readonly_indexes: &'a [u8],
}

/// The program index, account indexes and data of the legacy instruction at
/// `off`.
pub open spec fn legacy_instruction_parts(b: Seq<u8>, off: int) -> (u8, Seq<u8>, Seq<u8>) {
    let accounts = compact_u16_at(b, off + 1).unwrap();
    let accounts_end = accounts.1 + accounts.0;
    let data = compact_u16_at(b, accounts_end).unwrap();
    (b[off], b.subrange(accounts.1, accounts_end), b.subrange(data.1, data.1 + data.0))
}

/// Where the `i`-th of a run of legacy instructions starting at `off` starts.
pub open spec fn legacy_instruction_offset(b: Seq<u8>, off: int, i: nat) -> int
    decreases i,
{
    if i == 0 {
        off
    } else {
        legacy_instruction_at(b, legacy_instruction_offset(b, off, (i - 1) as nat)).unwrap()
    }
}

/// The program index, account indexes and data of the `i`-th of the `k`
/// instructions of a v1 message whose headers start at `off`: its header is
/// the `i`-th, and its payload follows those of the instructions before it.
pub open spec fn v1_instruction_parts(b: Seq<u8>, off: int, k: nat, i: nat) -> (
    u8,
    Seq<u8>,
    Seq<u8>,
) {
    let h = off + i * V1_INSTRUCTION_HEADER_SIZE;
    let p = off + k * V1_INSTRUCTION_HEADER_SIZE + v1_payload_len(b, off, i);
    let num_accounts = b[h + 1] as int;
    let data_len = u16_le_at(b, h + 2);
    (
        b[h],
        b.subrange(p, p + num_accounts),
        b.subrange(p + num_accounts, p + num_accounts + data_len),
    )
}

/// The table key, writable indexes and readonly indexes of the lookup at
/// `off`.
pub open spec fn lookup_parts(b: Seq<u8>, off: int) -> (Seq<u8>, Seq<u8>, Seq<u8>) {
    let key_end = off + PUBKEY_SIZE;
    let w = compact_u16_at(b, key_end).unwrap();
    let w_end = w.1 + w.0;
    let r = compact_u16_at(b, w_end).unwrap();
    (b.subrange(off, key_end), b.subrange(w.1, w_end), b.subrange(r.1, r.1 + r.0))
}

/// Where the `i`-th of a run of lookups starting at `off` starts.
pub open spec fn lookup_offset(b: Seq<u8>, off: int, i: nat) -> int
    decreases i,
{
    if i == 0 {
        off
    } else {
        lookup_at(b, lookup_offset(b, off, (i - 1) as nat)).unwrap().2
    }
}

/// Whether `ix` is the instruction with program index, account indexes and
/// data `parts`.
pub open spec fn instruction_view_is(ix: InstructionView, parts: (u8, Seq<u8>, Seq<u8>)) -> bool {
    ix.program_id_index == parts.0 && ix.accounts@ == parts.1 && ix.data@ == parts.2
}

/// Whether `l` is the lookup with table key, writable and readonly indexes
/// `parts`.
pub open spec fn lookup_view_is(l: AddressTableLookupView, parts: (Seq<u8>, Seq<u8>, Seq<u8>)) -> bool {
    l.account_key@ == parts.0 && l.writable_indexes@ == parts.1 && l.readonly_indexes@ == parts.2
}

/// The payloads of the first `k` v1 instructions are those of the first `i`
/// followed by those of the next `k - i`.
pub proof fn lemma_v1_payload_split(b: Seq<u8>, off: int, i: nat, k: nat)
    requires
        i <= k,
    ensures
        v1_payload_len(b, off, k) == v1_payload_len(b, off, i) + v1_payload_len(
            b,
            off + i * V1_INSTRUCTION_HEADER_SIZE,
            (k - i) as nat,
        ),
    decreases i,
{
    if i > 0 {
        lemma_v1_payload_split(b, off + 4, (i - 1) as nat, (k - 1) as nat);
        assert(off + 4 + (i - 1) * 4 == off + i * 4);
        assert((k - 1 - (i - 1)) as nat == (k - i) as nat);
    }
}

/// Reads the compact-u16 at `off`, which is known to be well formed, and
/// gives it with the offset just past it.
fn read_known_compact_u16(bytes: &[u8], off: usize) -> (r: (u16, usize))
    requires
        off <= bytes@.len(),
        compact_u16_at(bytes@, off as int) is Some,
    ensures
        compact_u16_at(bytes@, off as int) == Some((r.0, r.1 as int)),
        r.1 <= bytes@.len(),
{
    let mut end = off;
    match read_compressed_u16(bytes, &mut end) {
        Ok(v) => (v, end),
        Err(_) => (0, off),
    }
}

/// The `n` legacy instructions that start at `first`.
fn legacy_instructions<'a>(bytes: &'a [u8], first: usize, n: u16) -> (r: Vec<InstructionView<'a>>)
    requires
        first <= bytes@.len(),
        legacy_instructions_from(bytes@, first as int, n as nat) is Some,
    ensures
        r.len() == n,
        forall|i: int|
            0 <= i < n ==> instruction_view_is(
                #[trigger] r@[i],
                legacy_instruction_parts(
                    bytes@,
                    legacy_instruction_offset(bytes@, first as int, i as nat),
                ),
            ),
{
    let len = bytes.len();
    let mut r: Vec<InstructionView<'a>> = Vec::new();
    let mut cur = first;
    let mut i: u16 = 0;
    while i < n
        invariant
            0 <= i <= n,
            cur <= bytes@.len(),
            len == bytes@.len(),
            cur == legacy_instruction_offset(bytes@, first as int, i as nat),
            legacy_instructions_from(bytes@, cur as int, (n - i) as nat) is Some,
            r.len() == i,
            forall|j: int|
                0 <= j < i ==> instruction_view_is(
                    #[trigger] r@[j],
                    legacy_instruction_parts(
                        bytes@,
                        legacy_instruction_offset(bytes@, first as int, j as nat),
                    ),
                ),
        decreases n - i,
    {
        let ghost next = legacy_instruction_at(bytes@, cur as int).unwrap();
        proof {
            lemma_legacy_instruction_forward(bytes@, cur as int);
            lemma_compact_u16_span(bytes@, cur + 1);
        }
        let program_id_index = bytes[cur];
        let (num_accounts, accounts_start) = read_known_compact_u16(bytes, cur + 1);
        let accounts_end = accounts_start + num_accounts as usize;
        proof {
            lemma_compact_u16_span(bytes@, accounts_end as int);
        }
        let accounts = slice_subrange(bytes, accounts_start, accounts_end);
        let (data_len, data_start) = read_known_compact_u16(bytes, accounts_end);
        let data_end = data_start + data_len as usize;
        let data = slice_subrange(bytes, data_start, data_end);
        let ix = InstructionView { program_id_index, accounts, data };
        assert(instruction_view_is(ix, legacy_instruction_parts(bytes@, cur as int)));
        r.push(ix);
        assert(data_end == next);
        cur = data_end;
        i = i + 1;
    }
    r
}

/// The `k` instructions of a v1 message whose headers start at `off`.
fn v1_instructions<'a>(bytes: &'a [u8], off: usize, k: u16) -> (r: Vec<InstructionView<'a>>)
    requires
        off <= bytes@.len(),
        v1_instructions_at(bytes@, off as int, k as nat) is Ok,
    ensures
        r.len() == k,
        forall|i: int|
            0 <= i < k ==> instruction_view_is(
                #[trigger] r@[i],
                v1_instruction_parts(bytes@, off as int, k as nat, i as nat),
            ),
{
    let ghost b = bytes@;
    let len = bytes.len();
    assert(skip(b, off as int, k * V1_INSTRUCTION_HEADER_SIZE) is Some);
    let headers_end = off + (k as usize) * V1_INSTRUCTION_HEADER_SIZE;
    proof {
        lemma_v1_payload_bound(b, off as int, k as nat);
    }
    let mut r: Vec<InstructionView<'a>> = Vec::new();
    let mut p = headers_end;
    let mut i: u16 = 0;
    while i < k
        invariant
            b == bytes@,
            len == b.len(),
            0 <= i <= k,
            headers_end == off + k * 4,
            off + k * 4 <= b.len(),
            headers_end + v1_payload_len(b, off as int, k as nat) <= b.len(),
            p == headers_end + v1_payload_len(b, off as int, i as nat),
            r.len() == i,
            forall|j: int|
                0 <= j < i ==> instruction_view_is(
                    #[trigger] r@[j],
                    v1_instruction_parts(b, off as int, k as nat, j as nat),
                ),
        decreases k - i,
    {
        proof {
            lemma_v1_payload_split(b, off as int, i as nat, (i + 1) as nat);
            lemma_v1_payload_split(b, off as int, (i + 1) as nat, k as nat);
            assert(off + (i + 1) * 4 + (k - (i + 1)) * 4 == off + k * 4);
            lemma_v1_payload_bound(b, off + (i + 1) * 4, (k - (i + 1)) as nat);
            lemma_v1_payload_bound(b, off + i * 4, 0);
            assert(off + i * 4 + 4 <= off + k * 4);
            assert(v1_payload_len(b, off + i * 4 + 4, 0) == 0);
            assert(v1_payload_len(b, off + i * 4, 1) == b[off + i * 4 + 1] + u16_le_at(
                b,
                off + i * 4 + 2,
            ));
        }
        let h = off + (i as usize) * V1_INSTRUCTION_HEADER_SIZE;
        let program_id_index = bytes[h];
        let num_accounts = bytes[h + 1] as usize;
        let data_len = read_u16_le(bytes, h + 2) as usize;
        let accounts = slice_subrange(bytes, p, p + num_accounts);
        let data = slice_subrange(bytes, p + num_accounts, p + num_accounts + data_len);
        let ix = InstructionView { program_id_index, accounts, data };
        assert(instruction_view_is(ix, v1_instruction_parts(b, off as int, k as nat, i as nat)));
        r.push(ix);
        p = p + num_accounts + data_len;
        i = i + 1;
    }
    r
}

/// The `n` address table lookups that start at `first`.
fn lookups<'a>(bytes: &'a [u8], first: usize, n: u8) -> (r: Vec<AddressTableLookupView<'a>>)
    requires
        first <= bytes@.len(),
        lookups_from(bytes@, first as int, n as nat) is Some,
    ensures
        r.len() == n,
        forall|i: int|
            0 <= i < n ==> lookup_view_is(
                #[trigger] r@[i],
                lookup_parts(bytes@, lookup_offset(bytes@, first as int, i as nat)),
            ),
{
    let len = bytes.len();
    let mut r: Vec<AddressTableLookupView<'a>> = Vec::new();
    let mut cur = first;
    let mut i: u8 = 0;
    while i < n
        invariant
            0 <= i <= n,
            cur <= bytes@.len(),
            len == bytes@.len(),
            cur == lookup_offset(bytes@, first as int, i as nat),
            lookups_from(bytes@, cur as int, (n - i) as nat) is Some,
            r.len() == i,
            forall|j: int|
                0 <= j < i ==> lookup_view_is(
                    #[trigger] r@[j],
                    lookup_parts(bytes@, lookup_offset(bytes@, first as int, j as nat)),
                ),
        decreases n - i,
    {
        assert(lookup_at(bytes@, cur as int) is Some);
        let ghost next = lookup_at(bytes@, cur as int).unwrap().2;
        let key_end = cur + PUBKEY_SIZE;
        proof {
            lemma_compact_u16_span(bytes@, key_end as int);
        }
        let account_key = slice_subrange(bytes, cur, key_end);
        let (num_writable, writable_start) = read_known_compact_u16(bytes, key_end);
        let writable_end = writable_start + num_writable as usize;
        proof {
            lemma_compact_u16_span(bytes@, writable_end as int);
        }
        let writable_indexes = slice_subrange(bytes, writable_start, writable_end);
        let (num_readonly, readonly_start) = read_known_compact_u16(bytes, writable_end);
        let readonly_end = readonly_start + num_readonly as usize;
        let readonly_indexes = slice_subrange(bytes, readonly_start, readonly_end);
        let l = AddressTableLookupView { account_key, writable_indexes, readonly_indexes };
        assert(lookup_view_is(l, lookup_parts(bytes@, cur as int)));
        r.push(l);
        assert(readonly_end == next);
        cur = readonly_end;
        i = i + 1;
    }
    r
}

impl SignatureFrame {
    /// Whether the signatures that this frame describes lie in `b`.
    pub open spec fn signatures_within(&self, b: Seq<u8>) -> bool {
        self.offset + self.num_signatures * SIGNATURE_SIZE <= b.len()
    }

    /// The bytes of the signatures: `num_signatures` signatures of 64 bytes
    /// each, from `offset`.
    pub fn signatures<'a>(&self, bytes: &'a [u8]) -> (r: &'a [u8])
        requires
            self.signatures_within(bytes@),
        ensures
            r@ == bytes@.subrange(
                self.offset as int,
                self.offset + self.num_signatures * SIGNATURE_SIZE,
            ),
    {
        let start = self.offset as usize;
        slice_subrange(bytes, start, start + (self.num_signatures as usize) * SIGNATURE_SIZE)
    }
}

impl MessageFrame {
    /// Where the first legacy instruction starts: after the compact-u16
    /// instruction count at the start of the instruction section.
    pub open spec fn first_legacy_instruction(&self, b: Seq<u8>) -> int {
        compact_u16_at(b, self.instructions.offset as int).unwrap().1
    }

    /// Whether the sections that this frame describes lie, well formed, in
    /// `b`: the account keys, the blockhash, the instructions and the address
    /// table lookups.
    pub open spec fn sections_within(&self, b: Seq<u8>) -> bool {
        &&& self.static_account_keys.offset + self.static_account_keys.num_static_accounts
            * PUBKEY_SIZE <= b.len()
        &&& self.recent_blockhash_offset + HASH_SIZE <= b.len()
        &&& if self.message_header.version == TransactionVersion::V1 {
            v1_instructions_at(
                b,
                self.instructions.offset as int,
                self.instructions.num_instructions as nat,
            ) is Ok
        } else {
            &&& compact_u16_at(b, self.instructions.offset as int) == Some(
                (self.instructions.num_instructions, self.first_legacy_instruction(b)),
            )
            &&& legacy_instructions_from(
                b,
                self.first_legacy_instruction(b),
                self.instructions.num_instructions as nat,
            ) is Some
        }
        &&& self.address_table_lookup.offset <= b.len()
        &&& lookups_from(
            b,
            self.address_table_lookup.offset as int,
            self.address_table_lookup.num_address_table_lookups as nat,
        ) is Some
    }

    /// The program index, account indexes and data of the `i`-th instruction.
    pub open spec fn instruction_parts(&self, b: Seq<u8>, i: nat) -> (u8, Seq<u8>, Seq<u8>) {
        if self.message_header.version == TransactionVersion::V1 {
            v1_instruction_parts(
                b,
                self.instructions.offset as int,
                self.instructions.num_instructions as nat,
                i,
            )
        } else {
            legacy_instruction_parts(
                b,
                legacy_instruction_offset(b, self.first_legacy_instruction(b), i),
            )
        }
    }

    /// The table key, writable and readonly indexes of the `i`-th lookup.
    pub open spec fn lookup_parts(&self, b: Seq<u8>, i: nat) -> (Seq<u8>, Seq<u8>, Seq<u8>) {
        lookup_parts(b, lookup_offset(b, self.address_table_lookup.offset as int, i))
    }

    /// The bytes of the static account keys: `num_static_accounts` keys of 32
    /// bytes each.
    pub fn static_account_keys<'a>(&self, bytes: &'a [u8]) -> (r: &'a [u8])
        requires
            self.sections_within(bytes@),
        ensures
            r@ == bytes@.subrange(
                self.static_account_keys.offset as int,
                self.static_account_keys.offset + self.static_account_keys.num_static_accounts
                    * PUBKEY_SIZE,
            ),
    {
        let start = self.static_account_keys.offset as usize;
        let len = (self.static_account_keys.num_static_accounts as usize) * PUBKEY_SIZE;
        slice_subrange(bytes, start, start + len)
    }

    /// The instructions of the message, in order, each borrowed from
    /// `bytes`.
    pub fn instructions_iter<'a>(&self, bytes: &'a [u8]) -> (r: Vec<InstructionView<'a>>)
        requires
            self.sections_within(bytes@),
        ensures
            r.len() == self.instructions.num_instructions,
            forall|i: int|
                0 <= i < r.len() ==> instruction_view_is(
                    #[trigger] r@[i],
                    self.instruction_parts(bytes@, i as nat),
                ),
    {
        let off = self.instructions.offset as usize;
        let n = self.instructions.num_instructions;
        match self.message_header.version {
            TransactionVersion::V1 => v1_instructions(bytes, off, n),
            _ => {
                proof {
                    lemma_compact_u16_span(bytes@, off as int);
                }
                let (_, first) = read_known_compact_u16(bytes, off);
                legacy_instructions(bytes, first, n)
            },
        }
    }

    /// The address table lookups of the message, in order, each borrowed
    /// from `bytes`.
    pub fn address_table_lookup_iter<'a>(&self, bytes: &'a [u8]) -> (r: Vec<
        AddressTableLookupView<'a>,
    >)
        requires
            self.sections_within(bytes@),
        ensures
            r.len() == self.address_table_lookup.num_address_table_lookups,
            forall|i: int|
                0 <= i < r.len() ==> lookup_view_is(#[trigger] r@[i], self.lookup_parts(bytes@, i as nat)),
    {
        lookups(
            bytes,
            self.address_table_lookup.offset as usize,
            self.address_table_lookup.num_address_table_lookups,
        )
    }

    /// The 32 bytes of the recent blockhash.
    pub fn recent_blockhash<'a>(&self, bytes: &'a [u8]) -> (r: &'a [u8])
        requires
            self.sections_within(bytes@),
        ensures
            r@ == bytes@.subrange(
                self.recent_blockhash_offset as int,
                self.recent_blockhash_offset + HASH_SIZE,
            ),
    {
        let start = self.recent_blockhash_offset as usize;
        slice_subrange(bytes, start, start + HASH_SIZE)
    }
}

/// The frame of a legacy or v0 message read from `b` describes sections
/// that lie, well formed, in `b`.
pub proof fn lemma_legacy_or_v0_frame_within(b: Seq<u8>, start: int)
    ensures
        legacy_or_v0_message(b, start) matches Ok(m) ==> m.sections_within(b),
{
    if let Ok(((version, _, _, _), o1)) = header_at(b, start) {
        if let Ok((_, o2)) = static_keys_at(b, o1) {
            if let Some(o3) = skip(b, o2, HASH_SIZE as int) {
                lemma_compact_u16_span(b, o3);
                if let Some((n, first)) = compact_u16_at(b, o3) {
                    lemma_legacy_instructions_forward(b, first, n as nat);
                }
                if let Ok((_, o4)) = legacy_instructions_at(b, o3) {
                    if version == TransactionVersion::V0 && b.len() > o4 >= 0 {
                        let n = b[o4];
                        lemma_lookups_forward(b, o4 + 1, n as nat);
                    }
                }
            }
        }
    }
}

/// The frame of a v1 message read from `b` describes sections that lie,
/// well formed, in `b`.
pub proof fn lemma_v1_frame_within(b: Seq<u8>)
    ensures
        v1_message(b) matches Ok(m) ==> m.sections_within(b),
{
}

/// The frame of a message read from `b` describes sections that lie, well
/// formed, in `b`.
pub proof fn lemma_message_frame_within(b: Seq<u8>)
    ensures
        message_frame(b) matches Ok(m) ==> m.sections_within(b),
{
    lemma_legacy_or_v0_frame_within(b, 0);
    lemma_v1_frame_within(b);
}

/// The frame of a transaction read from the front of `b` describes
/// signatures and message sections that lie, well formed, in `b`.
pub proof fn lemma_transaction_frame_within(b: Seq<u8>)
    ensures
        transaction_frame_from_prefix(b) matches Ok(f) ==> f.signature.signatures_within(b)
            && f.message.sections_within(b),
        transaction_frame(b) matches Ok(f) ==> f.signature.signatures_within(b)
            && f.message.sections_within(b),
{
    lemma_v1_frame_within(b);
    if let Ok((_, o1)) = signatures_at(b, 0) {
        lemma_legacy_or_v0_frame_within(b, o1);
    }
}

} // verus!
