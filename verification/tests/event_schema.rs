use agave_events::event_schema::{event_index, variant_index, SchemaLayout, TagEncoding, TagValue};

#[test]
fn variant_index_comes_from_the_encoded_enum_discriminant() {
    let schema = SchemaLayout::Enum { variant_count: 2, tag_encoding: TagEncoding::U8 };
    assert!(matches!(schema, SchemaLayout::Enum { .. }));

    let first = wincode::serialize(&0u8).unwrap();
    assert_eq!(event_index(&schema, &first), Some(0));

    let second = wincode::serialize(&(1u8, 42u64)).unwrap();
    assert_eq!(event_index(&schema, &second), Some(1));
}

#[test]
fn struct_schema_is_always_event_zero() {
    assert_eq!(event_index(&SchemaLayout::Struct, &[]), Some(0));
    assert_eq!(event_index(&SchemaLayout::Struct, &[9, 9, 9]), Some(0));
}

#[test]
fn tags_are_little_endian_fixed_width() {
    let enum_of = |variant_count: usize, tag_encoding: TagEncoding| SchemaLayout::Enum { variant_count, tag_encoding };
    assert_eq!(event_index(&enum_of(0x1_0000, TagEncoding::U16), &[1, 2]), Some(0x0201));
    assert_eq!(event_index(&enum_of(0x0201, TagEncoding::U16), &[1, 2]), None);
    assert_eq!(event_index(&enum_of(0x0200_0000, TagEncoding::U32), &[1, 0, 0, 1]), Some(0x0100_0001));
    assert_eq!(event_index(&enum_of(usize::MAX, TagEncoding::U64), &(usize::MAX as u64 - 1).to_le_bytes()), Some(usize::MAX - 1));
    assert_eq!(event_index(&enum_of(300, TagEncoding::I16), &[0x2b, 0x01]), Some(299));
    assert_eq!(event_index(&enum_of(300, TagEncoding::I8), &[0xff]), None);
    assert_eq!(event_index(&enum_of(300, TagEncoding::I16), &[0x00, 0x80]), None);
    assert_eq!(event_index(&enum_of(300, TagEncoding::I32), &(-5i32).to_le_bytes()), None);
    assert_eq!(event_index(&enum_of(300, TagEncoding::I64), &7i64.to_le_bytes()), Some(7));
    assert_eq!(event_index(&enum_of(300, TagEncoding::I64), &i64::MIN.to_le_bytes()), None);
    assert_eq!(event_index(&enum_of(300, TagEncoding::U32), &[1, 2, 3]), None);
    assert_eq!(event_index(&enum_of(300, TagEncoding::Bool), &[1]), None);
    assert_eq!(event_index(&enum_of(300, TagEncoding::F32), &[0, 0, 0, 0]), None);
    assert_eq!(event_index(&enum_of(300, TagEncoding::U8), &[]), None);
}

#[test]
fn out_of_range_tags_name_no_event() {
    assert_eq!(variant_index(2, Some(TagValue::Unsigned(2))), None);
    assert_eq!(variant_index(2, Some(TagValue::Signed(-1))), None);
    assert_eq!(variant_index(3, Some(TagValue::Signed(2))), Some(2));
    assert_eq!(variant_index(3, None), None);
    let schema = SchemaLayout::Enum { variant_count: 3, tag_encoding: TagEncoding::I32 };
    assert_eq!(event_index(&schema, &(-1i32).to_le_bytes()), None);
    assert_eq!(event_index(&schema, &2i32.to_le_bytes()), Some(2));
    assert_eq!(event_index(&schema, &[2, 0]), None);
}
