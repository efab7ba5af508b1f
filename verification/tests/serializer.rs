use serde_envfile::{Error, Serializer, StructuredValue};

#[test]
fn new_serializer_has_written_nothing() {
    assert_eq!(Serializer::new(None).into_string(), "");
    assert_eq!(Serializer::new(Some("app_")).into_string(), "");
}

#[test]
fn strip_line_breaks_takes_every_trailing_break() {
    let mut s = Serializer::new(None);
    s.serialize_str("a\n\n").unwrap();
    s.strip_line_breaks();
    assert_eq!(s.into_string(), "\"a\n\n\"");

    let mut s = Serializer::new(None);
    s.serialize_map_struct_key("a").unwrap();
    s.serialize_map_struct_value(&StructuredValue::UInt(1)).unwrap();
    s.serialize_map_struct_key("b").unwrap();
    s.serialize_map_struct_value(&StructuredValue::Optional(None)).unwrap();
    s.strip_line_breaks();
    assert_eq!(s.into_string(), "A=1\nB=");
}

#[test]
fn scalars_are_written_one_after_the_other() {
    let mut s = Serializer::new(None);
    s.serialize_bool(true).unwrap();
    s.serialize_bool(false).unwrap();
    s.serialize_i8(-128).unwrap();
    s.serialize_i16(-32768).unwrap();
    s.serialize_i32(-2147483648).unwrap();
    s.serialize_i64(-9223372036854775808).unwrap();
    s.serialize_u8(255).unwrap();
    s.serialize_u16(65535).unwrap();
    s.serialize_u32(4294967295).unwrap();
    s.serialize_u64(18446744073709551615).unwrap();
    s.serialize_none().unwrap();
    s.serialize_unit().unwrap();
    s.serialize_f64("3.5").unwrap();
    assert_eq!(
        s.into_string(),
        "truefalse-128-32768-2147483648-922337203685477580825565535429496729518446744073709551615\
         3.5"
    );
}

#[test]
fn integers_at_their_limits() {
    let mut s = Serializer::new(None);
    s.serialize_i64(i64::MAX).unwrap();
    s.serialize_str("").unwrap();
    s.serialize_u64(0).unwrap();
    s.serialize_i64(0).unwrap();
    s.serialize_i64(-1).unwrap();
    s.serialize_i64(10).unwrap();
    s.serialize_u64(909).unwrap();
    assert_eq!(s.into_string(), "922337203685477580700-110909");
}

#[test]
fn string_as_value_is_quoted() {
    let mut s = Serializer::new(None);
    s.serialize_str("hello").unwrap();
    s.serialize_str("").unwrap();
    s.serialize_unit_variant("World").unwrap();
    s.serialize_bytes(&b"x y".to_vec()).unwrap();
    assert_eq!(s.into_string(), "\"hello\"\"World\"\"x y\"");
}

#[test]
fn bytes_that_are_no_utf8_are_a_syntax_error() {
    let mut s = Serializer::new(None);
    assert_eq!(s.serialize_bytes(&vec![0xc3, 0x28]), Err(Error::Syntax));
    assert_eq!(s.into_string(), "");
}

#[test]
fn float_text_is_checked() {
    let mut s = Serializer::new(None);
    assert_eq!(s.serialize_f64("1,5"), Err(Error::Syntax));
    assert_eq!(s.serialize_f64(""), Err(Error::Syntax));
    assert_eq!(s.serialize_f64("-0.25"), Ok(()));
    assert_eq!(s.into_string(), "-0.25");
}

#[test]
fn key_is_written_with_namespace_in_upper_case() {
    let mut s = Serializer::new(Some("app_"));
    s.serialize_map().unwrap();
    s.serialize_map_struct_key("hello").unwrap();
    assert_eq!(s.into_string(), "APP_HELLO");
}

#[test]
fn key_with_forbidden_character_is_a_syntax_error() {
    let mut s = Serializer::new(None);
    assert_eq!(s.serialize_map_struct_key("a b"), Err(Error::Syntax));
    let mut s = Serializer::new(None);
    assert_eq!(s.serialize_map_struct_key("a#b"), Err(Error::Syntax));
    let mut s = Serializer::new(None);
    assert_eq!(s.serialize_field("it's", &StructuredValue::UInt(1)), Err(Error::Syntax));
    let mut s = Serializer::new(Some("a\"b"));
    assert_eq!(s.serialize_field("x", &StructuredValue::UInt(1)), Err(Error::Syntax));
}

#[test]
fn field_is_key_value_and_line_break() {
    let mut s = Serializer::new(None);
    s.serialize_map().unwrap();
    s.serialize_field("a", &StructuredValue::UInt(1)).unwrap();
    s.serialize_field("b", &StructuredValue::Str("x".to_string())).unwrap();
    s.end().unwrap();
    assert_eq!(s.into_string(), "A=1\nB=\"x\"");
}

#[test]
fn opening_of_a_compound_field_is_taken_back() {
    let inner = StructuredValue::Compound(vec![
        ("c".to_string(), StructuredValue::UInt(2)),
        ("d".to_string(), StructuredValue::UInt(3)),
    ]);
    let mut s = Serializer::new(Some("p_"));
    s.serialize_field("a", &StructuredValue::UInt(1)).unwrap();
    s.serialize_map_struct_key("b").unwrap();
    s.serialize_map_struct_value(&inner).unwrap();
    s.serialize_field("e", &StructuredValue::UInt(4)).unwrap();
    s.end().unwrap();
    assert_eq!(s.into_string(), "P_A=1\nP_B_C=2\nP_B_D=3\nP_E=4");
}

#[test]
fn sequence_elements_are_joined_by_commas() {
    let mut s = Serializer::new(None);
    s.serialize_seq().unwrap();
    s.serialize_element(&StructuredValue::UInt(1)).unwrap();
    s.serialize_element(&StructuredValue::Str("x".to_string())).unwrap();
    s.serialize_element(&StructuredValue::Bool(true)).unwrap();
    s.end().unwrap();
    assert_eq!(s.into_string(), "1,\"x\",true");
}

#[test]
fn empty_sequence_writes_nothing() {
    let mut s = Serializer::new(None);
    s.serialize_map_struct_key("a").unwrap();
    s.serialize_map_struct_value(&StructuredValue::Sequence(vec![])).unwrap();
    s.end().unwrap();
    assert_eq!(s.into_string(), "A=");
}

#[test]
fn inside_a_sequence_structures_are_refused() {
    let mut s = Serializer::new(None);
    s.serialize_seq().unwrap();
    assert_eq!(s.serialize_seq(), Err(Error::UnsupportedStructureInSeq));
    assert_eq!(s.serialize_map(), Err(Error::UnsupportedStructureInSeq));
    assert_eq!(s.serialize_map_struct_key("a"), Err(Error::UnsupportedStructureInSeq));
    assert_eq!(
        s.serialize_map_struct_value(&StructuredValue::UInt(1)),
        Err(Error::UnsupportedStructureInSeq)
    );
    assert_eq!(
        s.serialize_field("a", &StructuredValue::UInt(1)),
        Err(Error::UnsupportedStructureInSeq)
    );
    assert_eq!(
        s.serialize_element(&StructuredValue::Compound(vec![])),
        Err(Error::UnsupportedStructureInSeq)
    );
}

#[test]
fn after_a_sequence_structures_are_accepted_again() {
    let mut s = Serializer::new(None);
    s.serialize_seq().unwrap();
    s.end().unwrap();
    assert_eq!(s.serialize_map(), Ok(()));
    assert_eq!(s.serialize_seq(), Ok(()));
}

#[test]
fn tuple_struct_is_always_refused() {
    let mut s = Serializer::new(None);
    assert_eq!(s.serialize_tuple_struct(), Err(Error::UnsupportedTupleStruct));
    s.serialize_seq().unwrap();
    assert_eq!(s.serialize_tuple_struct(), Err(Error::UnsupportedTupleStruct));
}

#[test]
fn variant_with_value_outside_and_inside_a_sequence() {
    let mut s = Serializer::new(None);
    s.serialize_newtype_variant("v", &StructuredValue::UInt(5)).unwrap();
    assert_eq!(s.into_string(), "V=5");

    let mut s = Serializer::new(None);
    s.serialize_seq().unwrap();
    s.serialize_element(&StructuredValue::EnumVariant(
        "v".to_string(),
        Some(Box::new(StructuredValue::UInt(5))),
    ))
    .unwrap();
    s.end().unwrap();
    assert_eq!(s.into_string(), "5");
}

#[test]
fn some_is_its_value() {
    let mut s = Serializer::new(None);
    s.serialize_some(&StructuredValue::Int(-3)).unwrap();
    assert_eq!(s.into_string(), "-3");
}

#[test]
fn encode_walks_the_whole_value() {
    let v = StructuredValue::Compound(vec![
        ("a".to_string(), StructuredValue::Sequence(vec![StructuredValue::UInt(1)])),
        ("b".to_string(), StructuredValue::Compound(vec![])),
    ]);
    let mut s = Serializer::new(Some("x_"));
    s.encode(&v).unwrap();
    assert_eq!(s.into_string(), "X_A=1\nX_B=");
}
