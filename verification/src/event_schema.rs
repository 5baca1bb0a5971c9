//! Which event of a stream's schema an encoded payload holds.
//!
//! An event stream carries either a struct, which is a single event, or an
//! enum, whose variants are the events; an encoded enum value starts with its
//! variant index, encoded as a fixed-width little-endian integer.
use vstd::prelude::*;
use wincode_dynamic::{PrimitiveTy, RootSchema, Value};

verus! {

/// The primitive type that encodes the variant tag of an enum.
#[derive(Debug, Clone, Copy, PartialEq, Eq, Structural)]
pub enum TagEncoding {
    U8,
    U16,
    U32,
    U64,
    I8,
    I16,
    I32,
    I64,
    F32,
    F64,
    Bool,
}

/// What the logic reads of a stream's schema.
#[derive(Debug, Clone, Copy, PartialEq, Eq, Structural)]
pub enum SchemaLayout {
    /// The stream carries a struct: its one event.
    Struct,
    /// The stream carries an enum with `variant_count` variants whose tag
    /// is encoded as `tag_encoding`.
    Enum { variant_count: usize, tag_encoding: TagEncoding },
}

/// A decoded variant tag.
#[derive(Debug, Clone, Copy, PartialEq, Eq, Structural)]
pub enum TagValue {
    /// The value of an unsigned integer tag.
    Unsigned(u64),
    /// The value of a signed integer tag.
    Signed(i64),
}

/// The width in bytes of an integer tag encoding, and whether it is signed;
/// `None` for encodings that are not integers.
pub open spec fn integer_encoding(e: TagEncoding) -> Option<(nat, bool)> {
    match e {
        TagEncoding::U8 => Some((1nat, false)),
        TagEncoding::U16 => Some((2nat, false)),
        TagEncoding::U32 => Some((4nat, false)),
        TagEncoding::U64 => Some((8nat, false)),
        TagEncoding::I8 => Some((1nat, true)),
        TagEncoding::I16 => Some((2nat, true)),
        TagEncoding::I32 => Some((4nat, true)),
        TagEncoding::I64 => Some((8nat, true)),
        _ => None,
    }
}

/// The unsigned little-endian integer in the first `w` bytes of `b`.
pub open spec fn le_value(b: Seq<u8>, w: nat) -> int
    decreases w,
{
    if w == 0 {
        0
    } else {
        b[0] + 256 * le_value(b.drop_first(), (w - 1) as nat)
    }
}

/// 2 to the power of `8 * w`.
pub open spec fn byte_range(w: nat) -> int
    decreases w,
{
    if w == 0 {
        1
    } else {
        256 * byte_range((w - 1) as nat)
    }
}

/// The tag that a payload starts with under an encoding: the first `w`
/// bytes as a little-endian integer, in two's complement if signed; `None`
/// if the payload is too short or the encoding is not an integer.
pub open spec fn tag_of(e: TagEncoding, payload: Seq<u8>) -> Option<int> {
    match integer_encoding(e) {
        None => None,
        Some((w, signed)) => if payload.len() < w {
            None
        } else {
            let u = le_value(payload, w);
            if signed && u >= byte_range(w) / 2 {
                Some(u - byte_range(w))
            } else {
                Some(u)
            }
        },
    }
}

/// The index of the event that `payload` holds: 0 for a struct, and for an
/// enum the variant tag, if it is a valid variant index.
pub open spec fn event_index_of(schema: SchemaLayout, payload: Seq<u8>) -> Option<int> {
    match schema {
        SchemaLayout::Struct => Some(0),
        SchemaLayout::Enum { variant_count, tag_encoding } => match tag_of(tag_encoding, payload) {
            Some(t) => if 0 <= t < variant_count {
                Some(t)
            } else {
                None
            },
            None => None,
        },
    }
}

/// Reads the variant tag at the start of `payload` with
/// `wincode_dynamic::PrimitiveTy::parse`, for the primitive type at the same
/// position of `PrimitiveTy` as `encoding` in `TagEncoding` (both declare
/// `U8, U16, U32, U64, I8, I16, I32, I64, F32, F64, Bool` in that order).
/// Under wincode's default configuration an integer is fixed-width and
/// little-endian, so the tag is `tag_of(encoding, payload)`; a payload too
/// short for the integer, and a tag type that is not an integer, give none.
#[verifier::external_body]
fn read_tag(encoding: TagEncoding, payload: &[u8]) -> (r: Option<TagValue>)
    ensures
        match r {
            None => tag_of(encoding, payload@) is None,
            Some(TagValue::Unsigned(v)) => tag_of(encoding, payload@) == Some(v as int),
            Some(TagValue::Signed(v)) => tag_of(encoding, payload@) == Some(v as int),
        },
{
    let ty = wincode::deserialize::<PrimitiveTy>(&[encoding as u8]).ok()?;
    Some(match ty.parse(payload).ok()? {
        Value::U8(v) => TagValue::Unsigned(v as u64),
        Value::U16(v) => TagValue::Unsigned(v as u64),
        Value::U32(v) => TagValue::Unsigned(v as u64),
        Value::U64(v) => TagValue::Unsigned(v),
        Value::I8(v) => TagValue::Signed(v as i64),
        Value::I16(v) => TagValue::Signed(v as i64),
        Value::I32(v) => TagValue::Signed(v as i64),
        Value::I64(v) => TagValue::Signed(v),
        _ => return None,
    })
}

/// The event index for a decoded tag: a tag that is a valid variant index
/// of an enum with `variant_count` variants, or `None`.
pub fn variant_index(variant_count: usize, tag: Option<TagValue>) -> (r: Option<usize>)
    ensures
        r == match tag {
            Some(TagValue::Unsigned(v)) => if v < variant_count {
                Some(v as usize)
            } else {
                None
            },
            Some(TagValue::Signed(v)) => if 0 <= v < variant_count {
                Some(v as usize)
            } else {
                None
            },
            None => None,
        },
{
    match tag {
        Some(TagValue::Unsigned(v)) => if v < variant_count as u64 {
            Some(v as usize)
        } else {
            None
        },
        Some(TagValue::Signed(v)) => if 0 <= v && (v as u64) < variant_count as u64 {
            Some(v as usize)
        } else {
            None
        },
        None => None,
    }
}

/// The index of the event that `payload` holds under `schema`: 0 for a
/// struct, and for an enum the variant tag that the payload starts with,
/// if it is a valid variant index.
pub fn event_index(schema: &SchemaLayout, payload: &[u8]) -> (r: Option<usize>)
    ensures
        match r {
            Some(i) => event_index_of(*schema, payload@) == Some(i as int),
            None => event_index_of(*schema, payload@) is None,
        },
{
    match schema {
        SchemaLayout::Struct => Some(0),
        SchemaLayout::Enum { variant_count, tag_encoding } => {
            let tag = read_tag(*tag_encoding, payload);
            variant_index(*variant_count, tag)
        },
    }
}

/// What decoding the encoded stream schema `encoded` gives: for a struct
/// schema, no tag encoding and the struct's name; for an enum schema, the
/// position of its tag encoding among the primitive types and the names of
/// its variants in order; `None` when the bytes do not decode.
pub uninterp spec fn decoded_schema(encoded: Seq<u8>) -> Option<(Option<u8>, Seq<Seq<char>>)>;

/// `wincode_dynamic::RootSchema`, the decoded schema of an event stream.
#[verifier::external_type_specification]
#[verifier::external_body]
pub struct ExRootSchema(wincode_dynamic::RootSchema);

/// Decodes an encoded stream schema with `wincode::deserialize` into a
/// `wincode_dynamic::RootSchema`, and gives it together with what the
/// library reads of it: for a struct, no tag encoding and the struct's name;
/// for an enum, the position of its tag encoding in the declaration of
/// `PrimitiveTy` and the names of its variants, in order. The contract only
/// names the result (`decoded_schema`), a function of the bytes alone: the
/// decoding rules are wincode's. Nothing is stated of the decoded value
/// itself beyond what it gives.
#[verifier::external_body]
pub(crate) fn decode_schema(encoded: &[u8]) -> (r: Option<(RootSchema, Option<u8>, Vec<String>)>)
    ensures
        r is None <==> decoded_schema(encoded@) is None,
        r matches Some((_, tag, names)) ==> decoded_schema(encoded@) == Some(
            (tag, names@.map_values(|n: String| n@)),
        ),
{
    let schema = wincode::deserialize::<RootSchema>(encoded).ok()?;
    let (tag, names) = match &schema {
        RootSchema::Struct(s) => (None, vec![s.name().to_string()]),
        RootSchema::Enum { variants, tag_encoding, .. } => {
            (Some(*tag_encoding as u8), variants.iter().map(|v| v.name().to_string()).collect())
        },
    };
    Some((schema, tag, names))
}

/// Decodes the schema of a published stream: `None` exactly when the bytes
/// are no schema.
pub fn decode_root_schema(encoded: &[u8]) -> (r: Option<RootSchema>)
    ensures
        r is None <==> decoded_schema(encoded@) is None,
{
    match decode_schema(encoded) {
        Some((schema, _, _)) => Some(schema),
        None => None,
    }
}

/// The tag encoding at position `i` of the primitive types, in the order
/// `U8, U16, U32, U64, I8, I16, I32, I64, F32, F64, Bool`.
pub open spec fn tag_encoding_at(i: u8) -> Option<TagEncoding> {
    match i {
        0 => Some(TagEncoding::U8),
        1 => Some(TagEncoding::U16),
        2 => Some(TagEncoding::U32),
        3 => Some(TagEncoding::U64),
        4 => Some(TagEncoding::I8),
        5 => Some(TagEncoding::I16),
        6 => Some(TagEncoding::I32),
        7 => Some(TagEncoding::I64),
        8 => Some(TagEncoding::F32),
        9 => Some(TagEncoding::F64),
        10 => Some(TagEncoding::Bool),
        _ => None,
    }
}

/// The width in bytes of the integer at position `i` of the primitive types
/// `U8, U16, U32, U64, I8, I16, I32, I64`: 1, 2, 4, 8, then again for the
/// signed ones.
pub open spec fn tag_width_at(i: u8) -> nat {
    if i % 4 == 0 {
        1
    } else if i % 4 == 1 {
        2
    } else if i % 4 == 2 {
        4
    } else {
        8
    }
}

/// The number of values of the integer at position `i`: 2 to the power of
/// eight times its width.
pub open spec fn tag_values_at(i: u8) -> int {
    if i % 4 == 0 {
        256
    } else if i % 4 == 1 {
        65536
    } else if i % 4 == 2 {
        4294967296
    } else {
        18446744073709551616
    }
}

/// The integer at position `i` of the primitive types (`i < 8`) that the
/// first bytes of `payload` hold: little-endian, two's complement for the
/// signed positions 4 to 7.
pub open spec fn integer_tag_at(i: u8, payload: Seq<u8>) -> int {
    let p = payload;
    let u = if i % 4 == 0 {
        p[0] as int
    } else if i % 4 == 1 {
        p[0] + 256 * p[1]
    } else if i % 4 == 2 {
        p[0] + 256 * p[1] + 65536 * p[2] + 16777216 * p[3]
    } else {
        p[0] + 256 * p[1] + 65536 * p[2] + 16777216 * p[3] + 4294967296 * p[4] + 1099511627776
            * p[5] + 281474976710656 * p[6] + 72057594037927936 * p[7]
    };
    if i >= 4 && u >= tag_values_at(i) / 2 {
        u - tag_values_at(i)
    } else {
        u
    }
}

/// A tag encoding recorded from a schema reads the primitive type that the
/// schema names: the encoding at position `i` reads, for the integer
/// positions `0..8`, the `tag_width_at(i)`-byte little-endian integer at the
/// start of a payload (signed from position 4 on), and no integer tag for the
/// positions 8, 9 and 10 (`f32`, `f64`, `bool`); there is no encoding past
/// position 10.
pub proof fn lemma_tag_encoding_reads_its_primitive(i: u8, payload: Seq<u8>)
    ensures
        tag_encoding_at(i) is Some <==> i <= 10,
        tag_encoding_at(i) matches Some(e) ==> tag_of(e, payload) == (if i >= 8
            || payload.len() < tag_width_at(i) {
            None
        } else {
            Some(integer_tag_at(i, payload))
        }),
{
    reveal_with_fuel(byte_range, 9);
    reveal_with_fuel(le_value, 9);
    if payload.len() >= 8 {
        assert(payload.drop_first()[0] == payload[1]);
        assert(payload.drop_first().drop_first()[0] == payload[2]);
        assert(payload.drop_first().drop_first().drop_first()[0] == payload[3]);
        assert(payload.drop_first().drop_first().drop_first().drop_first()[0] == payload[4]);
        assert(payload.drop_first().drop_first().drop_first().drop_first().drop_first()[0] == payload[5]);
        assert(payload.drop_first().drop_first().drop_first().drop_first().drop_first().drop_first()[0]
            == payload[6]);
        assert(payload.drop_first().drop_first().drop_first().drop_first().drop_first().drop_first().drop_first()[0]
            == payload[7]);
    }
}

/// The tag encoding at position `i` of the primitive types.
pub fn tag_encoding_from_index(i: u8) -> (r: Option<TagEncoding>)
    ensures
        r == tag_encoding_at(i),
{
    match i {
        0 => Some(TagEncoding::U8),
        1 => Some(TagEncoding::U16),
        2 => Some(TagEncoding::U32),
        3 => Some(TagEncoding::U64),
        4 => Some(TagEncoding::I8),
        5 => Some(TagEncoding::I16),
        6 => Some(TagEncoding::I32),
        7 => Some(TagEncoding::I64),
        8 => Some(TagEncoding::F32),
        9 => Some(TagEncoding::F64),
        10 => Some(TagEncoding::Bool),
        _ => None,
    }
}

} // verus!
