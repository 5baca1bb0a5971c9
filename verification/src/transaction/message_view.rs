//! A view into a serialized message that reads its fields in place.
use super::frames::{TransactionConfigFrame, HASH_SIZE, PUBKEY_SIZE};
use super::message_frame::{message_frame, MessageFrame};
use super::sections::{
    instruction_view_is, lemma_message_frame_within, lookup_view_is, AddressTableLookupView,
    InstructionView,
};
use super::result::{TransactionVersion, TransactionViewError};
use vstd::prelude::*;

verus! {

/// A buffer that holds serialized transaction or message bytes.
pub trait TransactionData {
    /// The bytes that the buffer holds.
    spec fn data_view(&self) -> Seq<u8>;

    /// Returns the bytes that the buffer holds.
    fn data(&self) -> (r: &[u8])
        ensures
            r@ == self.data_view(),
    ;
}

impl<'a> TransactionData for &'a [u8] {
    open spec fn data_view(&self) -> Seq<u8> {
        (*self)@
    }

    fn data(&self) -> (r: &[u8]) {
        *self
    }
}

impl TransactionData for Vec<u8> {
    open spec fn data_view(&self) -> Seq<u8> {
        self@
    }

    fn data(&self) -> (r: &[u8]) {
        self.as_slice()
    }
}

/// A view of the configuration of a v1 message.
#[derive(Debug, Clone, Copy)]
pub struct TransactionConfigView<'a> {
    /// Where the configuration is.
    pub transaction_config_frame: &'a TransactionConfigFrame,
    /// The parsed buffer.
    pub bytes: &'a [u8],
}

/// A view into a serialized message.
///
/// A message is the signed portion of a transaction, i.e. the transaction
/// without its signatures. The view gives access to the message data
/// without deserializing it. `SANITIZED` records whether the sanitization
/// checks were run on it.
pub struct MessageView<const SANITIZED: bool, D: TransactionData> {
    data: D,
    frame: MessageFrame,
}

impl<const SANITIZED: bool, D: TransactionData> MessageView<SANITIZED, D> {
    /// The frame of the message lies within the buffer, and so do the
    /// sections that it describes.
    #[verifier::type_invariant]
    closed spec fn frame_within_data(self) -> bool {
        &&& self.frame.message_header.offset <= self.frame.end_offset <= self.data.data_view().len()
        &&& self.frame.sections_within(self.data.data_view())
    }

    /// The parsed buffer.
    pub closed spec fn bytes(&self) -> Seq<u8> {
        self.data.data_view()
    }

    /// The framing data of the message.
    pub closed spec fn frame(&self) -> MessageFrame {
        self.frame
    }

    /// The version of the message.
    pub fn version(&self) -> (r: TransactionVersion)
        ensures
            r == self.frame().message_header.version,
    {
        self.frame.version()
    }

    /// The number of required signatures in the message.
    pub fn num_required_signatures(&self) -> (r: u8)
        ensures
            r == self.frame().message_header.num_required_signatures,
    {
        self.frame.num_required_signatures()
    }

    /// The number of readonly signed static accounts in the message.
    pub fn num_readonly_signed_static_accounts(&self) -> (r: u8)
        ensures
            r == self.frame().message_header.num_readonly_signed_accounts,
    {
        self.frame.num_readonly_signed_static_accounts()
    }

    /// The number of readonly unsigned static accounts in the message.
    pub fn num_readonly_unsigned_static_accounts(&self) -> (r: u8)
        ensures
            r == self.frame().message_header.num_readonly_unsigned_accounts,
    {
        self.frame.num_readonly_unsigned_static_accounts()
    }

    /// The number of static account keys in the message.
    pub fn num_static_account_keys(&self) -> (r: u8)
        ensures
            r == self.frame().static_account_keys.num_static_accounts,
    {
        self.frame.num_static_account_keys()
    }

    /// The number of instructions in the message.
    pub fn num_instructions(&self) -> (r: u16)
        ensures
            r == self.frame().instructions.num_instructions,
    {
        self.frame.num_instructions()
    }

    /// The number of address table lookups in the message.
    pub fn num_address_table_lookups(&self) -> (r: u8)
        ensures
            r == self.frame().address_table_lookup.num_address_table_lookups,
    {
        self.frame.num_address_table_lookups()
    }

    /// The number of writable lookup accounts in the message.
    pub fn total_writable_lookup_accounts(&self) -> (r: u16)
        ensures
            r == self.frame().address_table_lookup.total_writable_lookup_accounts,
    {
        self.frame.total_writable_lookup_accounts()
    }

    /// The number of readonly lookup accounts in the message.
    pub fn total_readonly_lookup_accounts(&self) -> (r: u16)
        ensures
            r == self.frame().address_table_lookup.total_readonly_lookup_accounts,
    {
        self.frame.total_readonly_lookup_accounts()
    }

    /// The bytes of the static account keys, 32 per key.
    pub fn static_account_keys(&self) -> (r: &[u8])
        ensures
            r@ == self.bytes().subrange(
                self.frame().static_account_keys.offset as int,
                self.frame().static_account_keys.offset
                    + self.frame().static_account_keys.num_static_accounts * PUBKEY_SIZE,
            ),
    {
        proof {
            use_type_invariant(self);
        }
        self.frame.static_account_keys(self.data.data())
    }

    /// The 32 bytes of the recent blockhash.
    pub fn recent_blockhash(&self) -> (r: &[u8])
        ensures
            r@ == self.bytes().subrange(
                self.frame().recent_blockhash_offset as int,
                self.frame().recent_blockhash_offset + HASH_SIZE,
            ),
    {
        proof {
            use_type_invariant(self);
        }
        self.frame.recent_blockhash(self.data.data())
    }

    /// The instructions of the message, in order.
    pub fn instructions_iter(&self) -> (r: Vec<InstructionView<'_>>)
        ensures
            r.len() == self.frame().instructions.num_instructions,
            forall|i: int|
                0 <= i < r.len() ==> instruction_view_is(
                    #[trigger] r@[i],
                    self.frame().instruction_parts(self.bytes(), i as nat),
                ),
    {
        proof {
            use_type_invariant(self);
        }
        self.frame.instructions_iter(self.data.data())
    }

    /// The address table lookups of the message, in order.
    pub fn address_table_lookup_iter(&self) -> (r: Vec<AddressTableLookupView<'_>>)
        ensures
            r.len() == self.frame().address_table_lookup.num_address_table_lookups,
            forall|i: int|
                0 <= i < r.len() ==> lookup_view_is(
                    #[trigger] r@[i],
                    self.frame().lookup_parts(self.bytes(), i as nat),
                ),
    {
        proof {
            use_type_invariant(self);
        }
        self.frame.address_table_lookup_iter(self.data.data())
    }

    /// The configuration of a v1 message; `None` for legacy and v0 messages.
    pub fn transaction_config(&self) -> (r: Option<TransactionConfigView<'_>>)
        ensures
            r is Some <==> self.frame().transaction_config_frame.present,
            r matches Some(v) ==> *v.transaction_config_frame == self.frame().transaction_config_frame
                && v.bytes@ == self.bytes(),
    {
        let transaction_config_frame = self.frame.transaction_config_frame();
        if transaction_config_frame.is_present() {
            Some(TransactionConfigView { transaction_config_frame, bytes: self.data.data() })
        } else {
            None
        }
    }

    /// The serialized message: the bytes of the message range of the parsed
    /// buffer, without any signatures.
    pub fn data(&self) -> (r: &[u8])
        ensures
            r@ == self.bytes().subrange(
                self.frame().message_header.offset as int,
                self.frame().end_offset as int,
            ),
    {
        proof {
            use_type_invariant(self);
        }
        let (start, end) = self.frame.message_range();
        let bytes = self.data.data();
        &bytes[start as usize..end as usize]
    }
}

impl<D: TransactionData> MessageView<false, D> {
    /// Creates a view without running sanitization checks. `data` must hold a
    /// serialized message and nothing after it.
    pub fn try_new_unsanitized(data: D) -> (r: Result<Self, TransactionViewError>)
        ensures
            match r {
                Ok(v) => message_frame(data.data_view()) == Ok::<
                    MessageFrame,
                    TransactionViewError,
                >(v.frame()) && v.bytes() == data.data_view(),
                Err(e) => message_frame(data.data_view()) == Err::<
                    MessageFrame,
                    TransactionViewError,
                >(e),
            },
    {
        let frame = MessageFrame::try_new(data.data())?;
        proof {
            lemma_message_frame_within(data.data_view());
        }
        Ok(MessageView { data, frame })
    }

    /// Marks the view as sanitized.
    pub(crate) fn into_sanitized(self) -> (r: MessageView<true, D>)
        ensures
            r.frame() == self.frame(),
            r.bytes() == self.bytes(),
    {
        proof {
            use_type_invariant(&self);
        }
        MessageView { data: self.data, frame: self.frame }
    }
}

/// `x` reduced modulo 2^8, as wrapping `u8` arithmetic gives it.
pub open spec fn wrap_u8(x: int) -> u8 {
    (x % 256) as u8
}

/// `x` reduced modulo 2^16, as wrapping `u16` arithmetic gives it.
pub open spec fn wrap_u16(x: int) -> u16 {
    (x % 65536) as u16
}

impl<D: TransactionData> MessageView<true, D> {
    /// The number of unsigned static account keys (wrapping).
    pub(crate) fn num_static_unsigned_static_accounts(&self) -> (r: u8)
        ensures
            r == wrap_u8(
                self.frame().static_account_keys.num_static_accounts
                    - self.frame().message_header.num_required_signatures,
            ),
    {
        self.num_static_account_keys().wrapping_sub(self.num_required_signatures())
    }

    /// The number of writable unsigned static accounts (wrapping).
    pub(crate) fn num_writable_unsigned_static_accounts(&self) -> (r: u8)
        ensures
            r == wrap_u8(
                self.frame().static_account_keys.num_static_accounts
                    - self.frame().message_header.num_required_signatures
                    - self.frame().message_header.num_readonly_unsigned_accounts,
            ),
    {
        self.num_static_unsigned_static_accounts().wrapping_sub(
            self.num_readonly_unsigned_static_accounts(),
        )
    }

    /// The number of writable signed static accounts (wrapping).
    pub(crate) fn num_writable_signed_static_accounts(&self) -> (r: u8)
        ensures
            r == wrap_u8(
                self.frame().message_header.num_required_signatures
                    - self.frame().message_header.num_readonly_signed_accounts,
            ),
    {
        self.num_required_signatures().wrapping_sub(self.num_readonly_signed_static_accounts())
    }

    /// The total number of accounts in the message: the static keys and the
    /// writable and readonly lookup accounts (wrapping at `u16`).
    pub fn total_num_accounts(&self) -> (r: u16)
        ensures
            r == wrap_u16(
                self.frame().static_account_keys.num_static_accounts
                    + self.frame().address_table_lookup.total_writable_lookup_accounts
                    + self.frame().address_table_lookup.total_readonly_lookup_accounts,
            ),
    {
        (self.num_static_account_keys() as u16).wrapping_add(
            self.total_writable_lookup_accounts(),
        ).wrapping_add(self.total_readonly_lookup_accounts())
    }

    /// The number of requested write locks: the static keys that are not
    /// readonly (wrapping at `u8`), plus the writable lookup accounts
    /// (wrapping at `u16`).
    pub fn num_requested_write_locks(&self) -> (r: u64)
        ensures
            r == wrap_u16(
                wrap_u8(
                    self.frame().static_account_keys.num_static_accounts
                        - self.frame().message_header.num_readonly_signed_accounts
                        - self.frame().message_header.num_readonly_unsigned_accounts,
                ) + self.frame().address_table_lookup.total_writable_lookup_accounts,
            ),
    {
        (self.num_static_account_keys().wrapping_sub(
            self.num_readonly_signed_static_accounts(),
        ).wrapping_sub(self.num_readonly_unsigned_static_accounts()) as u16).wrapping_add(
            self.total_writable_lookup_accounts(),
        ) as u64
    }

    /// The instructions of the message, each with the 32-byte key of the
    /// program that it invokes. Every program index must name a static
    /// account key, as the sanitization rules demand.
    pub fn program_instructions_iter(&self) -> (r: Vec<(&[u8], InstructionView<'_>)>)
        requires
            forall|i: nat|
                i < self.frame().instructions.num_instructions ==> (#[trigger] self.frame().instruction_parts(
                    self.bytes(),
                    i,
                )).0 < self.frame().static_account_keys.num_static_accounts,
        ensures
            r.len() == self.frame().instructions.num_instructions,
            forall|i: int|
                0 <= i < r.len() ==> {
                    let key_start = self.frame().static_account_keys.offset + r@[i].1.program_id_index
                        * PUBKEY_SIZE;
                    &&& instruction_view_is(
                        #[trigger] r@[i].1,
                        self.frame().instruction_parts(self.bytes(), i as nat),
                    )
                    &&& r@[i].0@ == self.bytes().subrange(key_start, key_start + PUBKEY_SIZE)
                },
    {
        proof {
            use_type_invariant(self);
        }
        let keys = self.static_account_keys();
        let instructions = self.instructions_iter();
        let ghost n = instructions.len();
        let mut r: Vec<(&[u8], InstructionView<'_>)> = Vec::new();
        let mut i: usize = 0;
        while i < instructions.len()
            invariant
                n == instructions.len() == self.frame().instructions.num_instructions,
                keys@ == self.bytes().subrange(
                    self.frame().static_account_keys.offset as int,
                    self.frame().static_account_keys.offset
                        + self.frame().static_account_keys.num_static_accounts * PUBKEY_SIZE,
                ),
                self.frame().sections_within(self.bytes()),
                forall|j: int|
                    0 <= j < n ==> instruction_view_is(
                        #[trigger] instructions@[j],
                        self.frame().instruction_parts(self.bytes(), j as nat),
                    ),
                forall|j: nat|
                    j < self.frame().instructions.num_instructions ==> (#[trigger] self.frame().instruction_parts(
                        self.bytes(),
                        j,
                    )).0 < self.frame().static_account_keys.num_static_accounts,
                0 <= i <= n,
                r.len() == i,
                forall|j: int|
                    0 <= j < i ==> {
                        let key_start = self.frame().static_account_keys.offset
                            + r@[j].1.program_id_index * PUBKEY_SIZE;
                        &&& instruction_view_is(
                            #[trigger] r@[j].1,
                            self.frame().instruction_parts(self.bytes(), j as nat),
                        )
                        &&& r@[j].0@ == self.bytes().subrange(key_start, key_start + PUBKEY_SIZE)
                    },
            decreases n - i,
        {
            let ix = instructions[i];
            assert(instruction_view_is(ix, self.frame().instruction_parts(self.bytes(), i as nat)));
            assert(ix.program_id_index < self.frame().static_account_keys.num_static_accounts);
            let start = (ix.program_id_index as usize) * PUBKEY_SIZE;
            assert(start + PUBKEY_SIZE <= self.frame().static_account_keys.num_static_accounts
                * PUBKEY_SIZE) by (nonlinear_arith)
                requires
                    start == ix.program_id_index * 32,
                    ix.program_id_index < self.frame().static_account_keys.num_static_accounts,
            ;
            let key = vstd::slice::slice_subrange(keys, start, start + PUBKEY_SIZE);
            assert(key@ == self.bytes().subrange(
                self.frame().static_account_keys.offset + start,
                self.frame().static_account_keys.offset + start + PUBKEY_SIZE,
            ));
            r.push((key, ix));
            i = i + 1;
        }
        r
    }

    /// The number of signatures the transaction carries: one per required
    /// signature.
    pub fn num_transaction_signatures(&self) -> (r: u64)
        ensures
            r == self.frame().message_header.num_required_signatures,
    {
        self.num_required_signatures() as u64
    }

    /// The number of write locks the message requests.
    pub fn num_write_locks(&self) -> (r: u64)
        ensures
            r == wrap_u16(
                wrap_u8(
                    self.frame().static_account_keys.num_static_accounts
                        - self.frame().message_header.num_readonly_signed_accounts
                        - self.frame().message_header.num_readonly_unsigned_accounts,
                ) + self.frame().address_table_lookup.total_writable_lookup_accounts,
            ),
    {
        self.num_requested_write_locks()
    }

    /// The 32-byte key of the fee payer: the first static account key. The
    /// message must have one, as the sanitization rules demand.
    pub fn fee_payer(&self) -> (r: &[u8])
        requires
            self.frame().static_account_keys.num_static_accounts > 0,
        ensures
            r@ == self.bytes().subrange(
                self.frame().static_account_keys.offset as int,
                self.frame().static_account_keys.offset + PUBKEY_SIZE,
            ),
    {
        proof {
            use_type_invariant(self);
        }
        let keys = self.static_account_keys();
        let ghost n = self.frame().static_account_keys.num_static_accounts;
        assert(n * 32 >= 32) by (nonlinear_arith)
            requires
                n > 0,
        ;
        vstd::slice::slice_subrange(keys, 0, PUBKEY_SIZE)
    }

    /// The number of address lookup tables the message uses.
    pub fn num_lookup_tables(&self) -> (r: usize)
        ensures
            r == self.frame().address_table_lookup.num_address_table_lookups,
    {
        self.num_address_table_lookups() as usize
    }

    /// The address table lookups of the message, in order.
    pub fn message_address_table_lookups(&self) -> (r: Vec<AddressTableLookupView<'_>>)
        ensures
            r.len() == self.frame().address_table_lookup.num_address_table_lookups,
            forall|i: int|
                0 <= i < r.len() ==> lookup_view_is(
                    #[trigger] r@[i],
                    self.frame().lookup_parts(self.bytes(), i as nat),
                ),
    {
        self.address_table_lookup_iter()
    }

    /// Whether the account at `index` signs the transaction: the signers
    /// are the first `num_required_signatures` accounts.
    pub fn is_signer(&self, index: usize) -> (r: bool)
        ensures
            r == (index < self.frame().message_header.num_required_signatures),
    {
        index < self.num_required_signatures() as usize
    }

    /// Whether the account at `key_index` is invoked as a program by some
    /// instruction. An index beyond `u8::MAX` names no program.
    pub fn is_invoked(&self, key_index: usize) -> (r: bool)
        ensures
            r == (key_index <= u8::MAX && exists|i: nat|
                i < self.frame().instructions.num_instructions && (#[trigger] self.frame().instruction_parts(
                    self.bytes(),
                    i,
                )).0 == key_index),
    {
        if key_index > 255 {
            return false;
        }
        let index = key_index as u8;
        let instructions = self.instructions_iter();
        let mut i: usize = 0;
        while i < instructions.len()
            invariant
                instructions.len() == self.frame().instructions.num_instructions,
                forall|j: int|
                    0 <= j < instructions.len() ==> instruction_view_is(
                        #[trigger] instructions@[j],
                        self.frame().instruction_parts(self.bytes(), j as nat),
                    ),
                index == key_index,
                0 <= i <= instructions.len(),
                forall|j: nat| j < i ==> (#[trigger] self.frame().instruction_parts(self.bytes(), j)).0 != index,
            decreases instructions.len() - i,
        {
            assert(instruction_view_is(instructions@[i as int], self.frame().instruction_parts(self.bytes(), i as nat)));
            if instructions[i].program_id_index == index {
                return true;
            }
            i = i + 1;
        }
        false
    }
}

} // verus!
