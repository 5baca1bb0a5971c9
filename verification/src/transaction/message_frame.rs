//! Framing of a message: the signed portion of a transaction.
use super::bytes::{checked_offset, read_u32_le, skip, u32_le_at, advance_offset, check_remaining};
use super::frames::{
    absent_config_frame, config_values_at, empty_address_table_lookup_frame, header_at,
    legacy_instructions_at, lookups_at, read_config_values, read_header, read_legacy_instructions,
    read_lookups, read_static_keys, read_v1_instructions, static_keys_at, v1_instructions_at,
    AddressTableLookupFrame, InstructionsFrame, MessageHeaderFrame, StaticAccountKeysFrame,
    TransactionConfigFrame, HASH_SIZE, PUBKEY_SIZE, v1_prefix, v1_version_byte,
};
use super::result::{TransactionVersion, TransactionViewError};
use vstd::prelude::*;

verus! {

/// The length of the fixed prefix of a v1 message: version byte, the three
/// header counts, the configuration mask, the blockhash, the instruction
/// count and the address count.
pub const FIXED_V1_PREFIX_LEN: usize = 42;

/// Framing data for a message. Offsets are relative to the start of the
/// parsed buffer, which is the whole transaction if the message was parsed
/// as part of one.
#[derive(Debug, Clone, Copy)]
pub struct MessageFrame {
    /// Message header framing data.
    pub message_header: MessageHeaderFrame,
    /// Static account keys framing data.
    pub static_account_keys: StaticAccountKeysFrame,
    /// Recent blockhash offset.
    pub recent_blockhash_offset: u16,
    /// Instructions framing data.
    pub instructions: InstructionsFrame,
    /// Address table lookup framing data.
    pub address_table_lookup: AddressTableLookupFrame,
    /// Transaction configuration framing data.
    pub transaction_config_frame: TransactionConfigFrame,
    /// The offset one past the last byte of the message.
    pub end_offset: u16,
}

/// The frame of the legacy or v0 message that starts at `start` in `b`:
/// header, static account keys, a 32-byte blockhash, instructions, and for
/// v0 the address table lookups. Every offset must fit in a `u16`.
pub open spec fn legacy_or_v0_message(b: Seq<u8>, start: int) -> Result<
    MessageFrame,
    TransactionViewError,
> {
    match header_at(b, start) {
        Err(e) => Err(e),
        Ok(((version, nrs, ros, rou), o1)) => match static_keys_at(b, o1) {
            Err(e) => Err(e),
            Ok((num_keys, o2)) => if o2 > u16::MAX {
                Err(TransactionViewError::ParseError)
            } else {
                match skip(b, o2, HASH_SIZE as int) {
                    None => Err(TransactionViewError::ParseError),
                    Some(o3) => match legacy_instructions_at(b, o3) {
                        Err(e) => Err(e),
                        Ok((num_instructions, o4)) => match (if version
                            == TransactionVersion::V0 {
                            lookups_at(b, o4)
                        } else {
                            Ok((empty_address_table_lookup_frame(), o4))
                        }) {
                            Err(e) => Err(e),
                            Ok((lookups, o5)) => if o5 > u16::MAX {
                                Err(TransactionViewError::ParseError)
                            } else {
                                Ok(
                                    MessageFrame {
                                        message_header: MessageHeaderFrame {
                                            offset: start as u16,
                                            version,
                                            num_required_signatures: nrs,
                                            num_readonly_signed_accounts: ros,
                                            num_readonly_unsigned_accounts: rou,
                                        },
                                        static_account_keys: StaticAccountKeysFrame {
                                            num_static_accounts: num_keys,
                                            offset: (o1 + 1) as u16,
                                        },
                                        recent_blockhash_offset: o2 as u16,
                                        instructions: InstructionsFrame {
                                            num_instructions,
                                            offset: o3 as u16,
                                        },
                                        address_table_lookup: lookups,
                                        transaction_config_frame: absent_config_frame(),
                                        end_offset: o5 as u16,
                                    },
                                )
                            },
                        },
                    },
                }
            },
        },
    }
}

/// The frame of the v1 message at the start of `b`: the 42-byte fixed
/// prefix, the addresses, the configuration values that the mask announces,
/// and the instructions. The end must fit in a `u16`.
pub open spec fn v1_message(b: Seq<u8>) -> Result<MessageFrame, TransactionViewError> {
    if b.len() < FIXED_V1_PREFIX_LEN || b[0] != v1_prefix() {
        Err(TransactionViewError::ParseError)
    } else {
        let mask = u32_le_at(b, 4) as u32;
        let num_instructions = b[40];
        let num_addresses = b[41];
        match skip(b, FIXED_V1_PREFIX_LEN as int, num_addresses * PUBKEY_SIZE) {
            None => Err(TransactionViewError::ParseError),
            Some(o1) => match config_values_at(b, o1, mask) {
                Err(e) => Err(e),
                Ok(o2) => match v1_instructions_at(b, o2, num_instructions as nat) {
                    Err(e) => Err(e),
                    Ok(o3) => if o3 > u16::MAX {
                        Err(TransactionViewError::ParseError)
                    } else {
                        Ok(
                            MessageFrame {
                                message_header: MessageHeaderFrame {
                                    offset: 0,
                                    version: TransactionVersion::V1,
                                    num_required_signatures: b[1],
                                    num_readonly_signed_accounts: b[2],
                                    num_readonly_unsigned_accounts: b[3],
                                },
                                static_account_keys: StaticAccountKeysFrame {
                                    num_static_accounts: num_addresses,
                                    offset: FIXED_V1_PREFIX_LEN as u16,
                                },
                                recent_blockhash_offset: 8,
                                instructions: InstructionsFrame {
                                    num_instructions: num_instructions as u16,
                                    offset: o2 as u16,
                                },
                                address_table_lookup: empty_address_table_lookup_frame(),
                                transaction_config_frame: TransactionConfigFrame {
                                    present: true,
                                    mask_offset: 4,
                                    mask,
                                    values_offset: o1 as u16,
                                },
                                end_offset: o3 as u16,
                            },
                        )
                    },
                },
            },
        }
    }
}

/// Whether `b` starts with the v1 version byte.
pub open spec fn starts_with_v1_prefix(b: Seq<u8>) -> bool {
    b.len() > 0 && b[0] == v1_prefix()
}

/// The frame of the message that is exactly `b`, with no trailing bytes. A
/// message that starts with the v1 version byte is a v1 message; any other is
/// a legacy or v0 message.
pub open spec fn message_frame(b: Seq<u8>) -> Result<MessageFrame, TransactionViewError> {
    let parsed = if starts_with_v1_prefix(b) {
        v1_message(b)
    } else {
        legacy_or_v0_message(b, 0)
    };
    match parsed {
        Err(e) => Err(e),
        Ok(f) => if f.end_offset == b.len() {
            Ok(f)
        } else {
            Err(TransactionViewError::ParseError)
        },
    }
}

impl MessageFrame {
    /// Parses a serialized message and verifies its basic structure. The
    /// buffer must hold the message and nothing after it.
    pub fn try_new(bytes: &[u8]) -> (r: Result<MessageFrame, TransactionViewError>)
        ensures
            r == message_frame(bytes@),
    {
        let frame = if bytes.len() > 0 && bytes[0] == v1_version_byte() {
            Self::try_new_as_v1(bytes)?
        } else {
            Self::try_new_as_legacy_or_v0(bytes, 0)?
        };
        if frame.end_offset as usize != bytes.len() {
            return Err(TransactionViewError::ParseError);
        }
        Ok(frame)
    }

    /// Parses a legacy or v0 message starting at `offset`.
    pub fn try_new_as_legacy_or_v0(bytes: &[u8], offset: usize) -> (r: Result<
        MessageFrame,
        TransactionViewError,
    >)
        ensures
            r == legacy_or_v0_message(bytes@, offset as int),
    {
        if offset > bytes.len() {
            return Err(TransactionViewError::ParseError);
        }
        let start = offset;
        let mut offset = offset;
        let (version, nrs, ros, rou) = read_header(bytes, &mut offset)?;
        let keys_offset = offset;
        let num_keys = read_static_keys(bytes, &mut offset)?;
        let recent_blockhash_offset = checked_offset(offset)?;
        advance_offset(bytes, &mut offset, HASH_SIZE)?;
        let instructions_offset = offset;
        let num_instructions = read_legacy_instructions(bytes, &mut offset)?;
        let address_table_lookup = match version {
            TransactionVersion::V0 => {
                let (n, lookups_offset, w, rd) = read_lookups(bytes, &mut offset)?;
                AddressTableLookupFrame {
                    num_address_table_lookups: n,
                    offset: lookups_offset as u16,
                    total_writable_lookup_accounts: w,
                    total_readonly_lookup_accounts: rd,
                }
            },
            _ => AddressTableLookupFrame {
                num_address_table_lookups: 0,
                offset: 0,
                total_writable_lookup_accounts: 0,
                total_readonly_lookup_accounts: 0,
            },
        };
        let end_offset = checked_offset(offset)?;
        Ok(MessageFrame {
            message_header: MessageHeaderFrame {
                offset: start as u16,
                version,
                num_required_signatures: nrs,
                num_readonly_signed_accounts: ros,
                num_readonly_unsigned_accounts: rou,
            },
            static_account_keys: StaticAccountKeysFrame {
                num_static_accounts: num_keys,
                offset: (keys_offset + 1) as u16,
            },
            recent_blockhash_offset,
            instructions: InstructionsFrame {
                num_instructions,
                offset: instructions_offset as u16,
            },
            address_table_lookup,
            transaction_config_frame: TransactionConfigFrame::not_applicable(),
            end_offset,
        })
    }

    /// Parses a v1 message, which starts at the beginning of `bytes` whether
    /// on its own or as part of a transaction.
    pub fn try_new_as_v1(bytes: &[u8]) -> (r: Result<MessageFrame, TransactionViewError>)
        ensures
            r == v1_message(bytes@),
    {
        check_remaining(bytes, 0, FIXED_V1_PREFIX_LEN)?;
        if bytes[0] != v1_version_byte() {
            return Err(TransactionViewError::ParseError);
        }
        let num_required_signatures = bytes[1];
        let num_readonly_signed_accounts = bytes[2];
        let num_readonly_unsigned_accounts = bytes[3];
        let mask = read_u32_le(bytes, 4);
        let num_instructions = bytes[40];
        let num_addresses = bytes[41];
        let mut offset: usize = FIXED_V1_PREFIX_LEN;
        advance_offset(bytes, &mut offset, (num_addresses as usize) * PUBKEY_SIZE)?;
        let values_offset = offset;
        read_config_values(bytes, &mut offset, mask)?;
        let instructions_offset = offset;
        read_v1_instructions(bytes, &mut offset, num_instructions)?;
        let end_offset = checked_offset(offset)?;
        Ok(MessageFrame {
            message_header: MessageHeaderFrame {
                offset: 0,
                version: TransactionVersion::V1,
                num_required_signatures,
                num_readonly_signed_accounts,
                num_readonly_unsigned_accounts,
            },
            static_account_keys: StaticAccountKeysFrame {
                num_static_accounts: num_addresses,
                offset: FIXED_V1_PREFIX_LEN as u16,
            },
            recent_blockhash_offset: 8,
            instructions: InstructionsFrame {
                num_instructions: num_instructions as u16,
                offset: instructions_offset as u16,
            },
            address_table_lookup: AddressTableLookupFrame {
                num_address_table_lookups: 0,
                offset: 0,
                total_writable_lookup_accounts: 0,
                total_readonly_lookup_accounts: 0,
            },
            transaction_config_frame: TransactionConfigFrame {
                present: true,
                mask_offset: 4,
                mask,
                values_offset: values_offset as u16,
            },
            end_offset,
        })
    }

    /// The version of the message.
    pub fn version(&self) -> (r: TransactionVersion)
        ensures
            r == self.message_header.version,
    {
        self.message_header.version
    }

    /// The number of required signatures in the message.
    pub fn num_required_signatures(&self) -> (r: u8)
        ensures
            r == self.message_header.num_required_signatures,
    {
        self.message_header.num_required_signatures
    }

    /// The number of readonly signed static accounts in the message.
    pub fn num_readonly_signed_static_accounts(&self) -> (r: u8)
        ensures
            r == self.message_header.num_readonly_signed_accounts,
    {
        self.message_header.num_readonly_signed_accounts
    }

    /// The number of readonly unsigned static accounts in the message.
    pub fn num_readonly_unsigned_static_accounts(&self) -> (r: u8)
        ensures
            r == self.message_header.num_readonly_unsigned_accounts,
    {
        self.message_header.num_readonly_unsigned_accounts
    }

    /// The number of static account keys in the message.
    pub fn num_static_account_keys(&self) -> (r: u8)
        ensures
            r == self.static_account_keys.num_static_accounts,
    {
        self.static_account_keys.num_static_accounts
    }

    /// The number of instructions in the message.
    pub fn num_instructions(&self) -> (r: u16)
        ensures
            r == self.instructions.num_instructions,
    {
        self.instructions.num_instructions()
    }

    /// The number of address table lookups in the message.
    pub fn num_address_table_lookups(&self) -> (r: u8)
        ensures
            r == self.address_table_lookup.num_address_table_lookups,
    {
        self.address_table_lookup.num_address_table_lookups
    }

    /// The number of writable lookup accounts in the message.
    pub fn total_writable_lookup_accounts(&self) -> (r: u16)
        ensures
            r == self.address_table_lookup.total_writable_lookup_accounts,
    {
        self.address_table_lookup.total_writable_lookup_accounts
    }

    /// The number of readonly lookup accounts in the message.
    pub fn total_readonly_lookup_accounts(&self) -> (r: u16)
        ensures
            r == self.address_table_lookup.total_readonly_lookup_accounts,
    {
        self.address_table_lookup.total_readonly_lookup_accounts
    }

    /// The range of the message in the parsed buffer, as `(begin, end)` with
    /// `end` exclusive.
    pub fn message_range(&self) -> (r: (u16, u16))
        ensures
            r == (self.message_header.offset, self.end_offset),
    {
        (self.message_header.offset, self.end_offset)
    }

    /// The transaction configuration frame.
    pub fn transaction_config_frame(&self) -> (r: &TransactionConfigFrame)
        ensures
            *r == self.transaction_config_frame,
    {
        &self.transaction_config_frame
    }
}

} // verus!
