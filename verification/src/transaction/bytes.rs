//! Reading primitive values from a byte buffer at an offset.
use super::result::TransactionViewError;
use vstd::prelude::*;

verus! {

/// The byte of `b` at `off`, if there is one.
pub open spec fn byte_at(b: Seq<u8>, off: int) -> Option<u8> {
    if 0 <= off < b.len() {
        Some(b[off])
    } else {
        None
    }
}

/// The offset just past `n` bytes starting at `off`, if they are all in `b`.
pub open spec fn skip(b: Seq<u8>, off: int, n: int) -> Option<int> {
    if 0 <= off && 0 <= n && off + n <= b.len() {
        Some(off + n)
    } else {
        None
    }
}

/// The little-endian `u16` in the two bytes of `b` at `off`.
pub open spec fn u16_le_at(b: Seq<u8>, off: int) -> int {
    b[off] + 256 * b[off + 1]
}

/// The little-endian `u32` in the four bytes of `b` at `off`.
pub open spec fn u32_le_at(b: Seq<u8>, off: int) -> int {
    b[off] + 256 * b[off + 1] + 65536 * b[off + 2] + 16777216 * b[off + 3]
}

/// The compact-u16 ("short vector" length) encoded at `off`, with the offset
/// just past it.
///
/// The encoding holds seven bits per byte, least significant group first,
/// with the high bit of a byte marking that another byte follows. It uses at
/// most three bytes, a byte after the first is never zero (the encoding is
/// minimal), and a third byte is at most 3 (the value fits in 16 bits).
pub open spec fn compact_u16_at(b: Seq<u8>, off: int) -> Option<(u16, int)> {
    match byte_at(b, off) {
        None => None,
        Some(b0) => if b0 < 128 {
            Some((b0 as u16, off + 1))
        } else {
            match byte_at(b, off + 1) {
                None => None,
                Some(b1) => if b1 == 0 {
                    None
                } else if b1 < 128 {
                    Some((((b0 - 128) + 128 * b1) as u16, off + 2))
                } else {
                    match byte_at(b, off + 2) {
                        None => None,
                        Some(b2) => if b2 == 0 || b2 > 3 {
                            None
                        } else {
                            Some((((b0 - 128) + 128 * (b1 - 128) + 16384 * b2) as u16, off + 3))
                        },
                    }
                },
            }
        },
    }
}

/// The compact-u16 value always lies just after its offset, within three bytes.
pub proof fn lemma_compact_u16_span(b: Seq<u8>, off: int)
    ensures
        compact_u16_at(b, off) matches Some((v, end)) ==> off < end <= off + 3 && end <= b.len(),
{
}

/// Reads one byte at `*offset` and moves past it.
pub fn read_byte(bytes: &[u8], offset: &mut usize) -> (r: Result<u8, TransactionViewError>)
    requires
        *old(offset) <= bytes@.len(),
    ensures
        *final(offset) <= bytes@.len(),
        match r {
            Ok(v) => byte_at(bytes@, *old(offset) as int) == Some(v) && *final(offset) == *old(
                offset,
            ) + 1,
            Err(e) => byte_at(bytes@, *old(offset) as int) is None && e
                == TransactionViewError::ParseError,
        },
{
    if *offset < bytes.len() {
        let v = bytes[*offset];
        *offset = *offset + 1;
        Ok(v)
    } else {
        Err(TransactionViewError::ParseError)
    }
}

/// Checks that `num_bytes` bytes remain in `bytes` after `offset`.
pub fn check_remaining(bytes: &[u8], offset: usize, num_bytes: usize) -> (r: Result<
    (),
    TransactionViewError,
>)
    requires
        offset <= bytes@.len(),
    ensures
        r is Ok <==> skip(bytes@, offset as int, num_bytes as int) is Some,
        r matches Err(e) ==> e == TransactionViewError::ParseError,
{
    if num_bytes > bytes.len() - offset {
        Err(TransactionViewError::ParseError)
    } else {
        Ok(())
    }
}

/// Moves `*offset` past `num_bytes` bytes, if they are all in `bytes`.
pub fn advance_offset(bytes: &[u8], offset: &mut usize, num_bytes: usize) -> (r: Result<
    (),
    TransactionViewError,
>)
    requires
        *old(offset) <= bytes@.len(),
    ensures
        *final(offset) <= bytes@.len(),
        match r {
            Ok(_) => skip(bytes@, *old(offset) as int, num_bytes as int) == Some(
                *final(offset) as int,
            ),
            Err(e) => skip(bytes@, *old(offset) as int, num_bytes as int) is None && e
                == TransactionViewError::ParseError,
        },
{
    let len = bytes.len();
    check_remaining(bytes, *offset, num_bytes)?;
    assert(*offset + num_bytes <= len);
    *offset = *offset + num_bytes;
    Ok(())
}

/// Reads a compact-u16 at `*offset` and moves past it.
pub fn read_compressed_u16(bytes: &[u8], offset: &mut usize) -> (r: Result<
    u16,
    TransactionViewError,
>)
    requires
        *old(offset) <= bytes@.len(),
    ensures
        *final(offset) <= bytes@.len(),
        match r {
            Ok(v) => compact_u16_at(bytes@, *old(offset) as int) == Some(
                (v, *final(offset) as int),
            ),
            Err(e) => compact_u16_at(bytes@, *old(offset) as int) is None && e
                == TransactionViewError::ParseError,
        },
{
    let start = *offset;
    let b0 = read_byte(bytes, offset)?;
    if b0 < 128 {
        return Ok(b0 as u16);
    }
    let b1 = read_byte(bytes, offset)?;
    if b1 == 0 {
        return Err(TransactionViewError::ParseError);
    }
    if b1 < 128 {
        return Ok((b0 - 128) as u16 + 128 * (b1 as u16));
    }
    let b2 = read_byte(bytes, offset)?;
    if b2 == 0 || b2 > 3 {
        return Err(TransactionViewError::ParseError);
    }
    Ok((b0 - 128) as u16 + 128 * ((b1 - 128) as u16) + 16384 * (b2 as u16))
}

/// Converts a buffer offset to the `u16` that frames hold.
pub fn checked_offset(offset: usize) -> (r: Result<u16, TransactionViewError>)
    ensures
        match r {
            Ok(v) => offset <= u16::MAX && v == offset,
            Err(e) => offset > u16::MAX && e == TransactionViewError::ParseError,
        },
{
    if offset <= 65535 {
        Ok(offset as u16)
    } else {
        Err(TransactionViewError::ParseError)
    }
}

/// Reads the little-endian `u16` in the two bytes at `offset`.
pub fn read_u16_le(bytes: &[u8], offset: usize) -> (v: u16)
    requires
        offset + 2 <= bytes@.len(),
    ensures
        v == u16_le_at(bytes@, offset as int),
{
    bytes[offset] as u16 + 256 * (bytes[offset + 1] as u16)
}

/// Reads the little-endian `u32` in the four bytes at `offset`.
pub fn read_u32_le(bytes: &[u8], offset: usize) -> (v: u32)
    requires
        offset + 4 <= bytes@.len(),
    ensures
        v == u32_le_at(bytes@, offset as int),
{
    bytes[offset] as u32 + 256 * (bytes[offset + 1] as u32) + 65536 * (bytes[offset + 2] as u32)
        + 16777216 * (bytes[offset + 3] as u32)
}

} // verus!
