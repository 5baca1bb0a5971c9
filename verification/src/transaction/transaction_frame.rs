//! Framing of a serialized transaction: its signatures and its message.
use super::bytes::{advance_offset, checked_offset, skip};
use super::frames::{
    read_signatures, signatures_at, version_prefix_byte, SignatureFrame, SIGNATURE_SIZE,
};
use super::message_frame::{legacy_or_v0_message, v1_message, MessageFrame};
use super::result::TransactionViewError;
use vstd::prelude::*;

verus! {

/// Framing data for a transaction.
#[derive(Debug, Clone, Copy)]
pub struct TransactionFrame {
    /// Signature framing data.
    pub signature: SignatureFrame,
    /// Message framing data.
    pub message: MessageFrame,
    /// The length of the serialized transaction in bytes. This may be less
    /// than the length of the parsed buffer if trailing bytes were allowed.
    pub data_len: u16,
}

/// Whether the transaction in `b` is a legacy or v0 one: it then starts
/// with its signature count, whose high bit is clear, while a v1 transaction
/// starts with a version byte whose high bit is set. An empty buffer is
/// refused.
pub open spec fn legacy_or_v0_check(b: Seq<u8>) -> Result<bool, TransactionViewError> {
    if b.len() == 0 {
        Err(TransactionViewError::ParseError)
    } else {
        Ok(b[0] < 128)
    }
}

/// The frame of the legacy or v0 transaction at the start of `b`: its
/// signatures, then its message.
pub open spec fn legacy_or_v0_transaction(b: Seq<u8>) -> Result<TransactionFrame, TransactionViewError> {
    match signatures_at(b, 0) {
        Err(e) => Err(e),
        Ok((n, o1)) => match legacy_or_v0_message(b, o1) {
            Err(e) => Err(e),
            Ok(m) => Ok(
                TransactionFrame {
                    signature: SignatureFrame { num_signatures: n, offset: 1 },
                    message: m,
                    data_len: m.end_offset,
                },
            ),
        },
    }
}

/// The frame of the v1 transaction at the start of `b`: its message, then
/// one signature per required signature. Its end must fit in a `u16`.
pub open spec fn v1_transaction(b: Seq<u8>) -> Result<TransactionFrame, TransactionViewError> {
    match v1_message(b) {
        Err(e) => Err(e),
        Ok(m) => match skip(
            b,
            m.end_offset as int,
            m.message_header.num_required_signatures * SIGNATURE_SIZE,
        ) {
            None => Err(TransactionViewError::ParseError),
            Some(end) => if end > u16::MAX {
                Err(TransactionViewError::ParseError)
            } else {
                Ok(
                    TransactionFrame {
                        signature: SignatureFrame {
                            num_signatures: m.message_header.num_required_signatures,
                            offset: m.end_offset,
                        },
                        message: m,
                        data_len: end as u16,
                    },
                )
            },
        },
    }
}

/// The frame of the transaction at the start of `b`; bytes after it are
/// ignored. The first byte tells a legacy or v0 transaction from a v1 one.
pub open spec fn transaction_frame_from_prefix(b: Seq<u8>) -> Result<
    TransactionFrame,
    TransactionViewError,
> {
    match legacy_or_v0_check(b) {
        Err(e) => Err(e),
        Ok(true) => legacy_or_v0_transaction(b),
        Ok(false) => v1_transaction(b),
    }
}

/// The frame of the transaction that is exactly `b`, with no trailing bytes.
pub open spec fn transaction_frame(b: Seq<u8>) -> Result<TransactionFrame, TransactionViewError> {
    match transaction_frame_from_prefix(b) {
        Err(e) => Err(e),
        Ok(f) => if f.data_len == b.len() {
            Ok(f)
        } else {
            Err(TransactionViewError::ParseError)
        },
    }
}

impl TransactionFrame {
    /// Parses a serialized transaction and verifies its basic structure. The
    /// buffer must hold the transaction and nothing after it.
    pub fn try_new(bytes: &[u8]) -> (r: Result<TransactionFrame, TransactionViewError>)
        ensures
            r == transaction_frame(bytes@),
    {
        let frame = Self::try_new_from_prefix(bytes)?;
        if frame.data_len as usize != bytes.len() {
            return Err(TransactionViewError::ParseError);
        }
        Ok(frame)
    }

    /// Parses a serialized transaction from the front of `bytes`; any bytes
    /// after it are ignored, and `data_len` says where it ends.
    pub fn try_new_from_prefix(bytes: &[u8]) -> (r: Result<TransactionFrame, TransactionViewError>)
        ensures
            r == transaction_frame_from_prefix(bytes@),
    {
        if Self::is_legacy_or_v0(bytes)? {
            Self::try_new_as_legacy_or_v0(bytes)
        } else {
            Self::try_new_as_v1(bytes)
        }
    }

    /// Parses a legacy or v0 transaction: signatures, then the message.
    pub fn try_new_as_legacy_or_v0(bytes: &[u8]) -> (r: Result<
        TransactionFrame,
        TransactionViewError,
    >)
        ensures
            r == legacy_or_v0_transaction(bytes@),
    {
        let mut offset: usize = 0;
        let num_signatures = read_signatures(bytes, &mut offset)?;
        let message = MessageFrame::try_new_as_legacy_or_v0(bytes, offset)?;
        Ok(TransactionFrame {
            signature: SignatureFrame { num_signatures, offset: 1 },
            data_len: message.end_offset,
            message,
        })
    }

    /// Parses a v1 transaction: the message, then its signatures.
    pub fn try_new_as_v1(bytes: &[u8]) -> (r: Result<TransactionFrame, TransactionViewError>)
        ensures
            r == v1_transaction(bytes@),
    {
        let message = MessageFrame::try_new_as_v1(bytes)?;
        let num_signatures = message.num_required_signatures();
        let mut offset = message.end_offset as usize;
        advance_offset(bytes, &mut offset, (num_signatures as usize) * SIGNATURE_SIZE)?;
        let data_len = checked_offset(offset)?;
        Ok(TransactionFrame {
            signature: SignatureFrame { num_signatures, offset: message.end_offset },
            message,
            data_len,
        })
    }

    /// Whether the transaction in `bytes` is a legacy or v0 one rather than a
    /// v1 one; an empty buffer is refused.
    pub fn is_legacy_or_v0(bytes: &[u8]) -> (r: Result<bool, TransactionViewError>)
        ensures
            r == legacy_or_v0_check(bytes@),
    {
        if bytes.len() == 0 {
            return Err(TransactionViewError::ParseError);
        }
        let version_prefix = version_prefix_byte();
        let first = bytes[0];
        let legacy = first & version_prefix == 0;
        assert(legacy == (first < 128)) by (bit_vector)
            requires
                version_prefix == 128u8,
                legacy == (first & version_prefix == 0),
        ;
        Ok(legacy)
    }
}

} // verus!
