use std::collections::HashMap;

use serde_envfile::ser::{to_writer, to_writer_inner, value_to_string};
use serde_envfile::{from_str, to_string, to_string_inner, Error, StructuredValue, Value};

fn text(s: &str) -> StructuredValue {
    StructuredValue::Str(s.to_string())
}

fn record(fields: Vec<(&str, StructuredValue)>) -> StructuredValue {
    StructuredValue::Compound(fields.into_iter().map(|(k, v)| (k.to_string(), v)).collect())
}

fn some(v: StructuredValue) -> StructuredValue {
    StructuredValue::Optional(Some(Box::new(v)))
}

fn read(value: &Value) -> Vec<(String, String)> {
    value.pairs()
}

fn pairs(items: &[(&str, &str)]) -> Vec<(String, String)> {
    items.iter().map(|(k, v)| (k.to_string(), v.to_string())).collect()
}

#[test]
fn to_string_test() {
    let mut env = Value::new();
    env.insert("HELLO".into(), "WORLD".into());

    let s = to_string(&env.to_structured()).unwrap();

    assert_eq!("HELLO=\"WORLD\"", s);
}

#[test]
fn struct_test() {
    let env = record(vec![
        ("a", StructuredValue::UInt(1)),
        ("b", record(vec![("c", StructuredValue::UInt(2))])),
    ]);

    let s = to_string(&env).unwrap();

    assert_eq!("A=1\nB_C=2", s);
}

#[test]
fn seq_test() {
    let env = record(vec![
        ("a", StructuredValue::Sequence(vec![text("HELLO"), text("WORLD")])),
        ("b", text("control value")),
    ]);

    let s = to_string(&env).unwrap();
    let expected = "A=\"HELLO\",\"WORLD\"\nB=\"control value\"";
    assert_eq!(expected, &s);
    let decoded = from_str(expected).unwrap();
    assert_eq!(
        decoded,
        Value::from_iter(pairs(&[("a", "HELLO,WORLD"), ("b", "control value")]))
    );
    let typed: HashMap<String, Vec<String>> = envy::from_iter(read(&decoded)).unwrap();
    assert_eq!(typed["a"], vec!["HELLO".to_string(), "WORLD".to_string()]);
    let typed: HashMap<String, String> = envy::from_iter(read(&decoded)).unwrap();
    assert_eq!(typed["b"], "control value");
}

#[test]
fn enum_test() {
    let env = record(vec![("a", StructuredValue::EnumVariant("HELLO".to_string(), None))]);

    let s = to_string(&env).unwrap();
    let expected = "A=\"HELLO\"";
    assert_eq!(expected, &s);
    assert_eq!(from_str(&s).unwrap(), Value::from_iter(pairs(&[("a", "HELLO")])));
}

#[test]
fn number_test() {
    let f32_value: f32 = -3.5;
    let f64_value: f64 = 3.5;
    let env = record(vec![
        ("u8", StructuredValue::UInt(255)),
        ("u16", StructuredValue::UInt(65535)),
        ("u32", StructuredValue::UInt(4294967295)),
        ("u64", StructuredValue::UInt(18446744073709551615)),
        ("i8", StructuredValue::Int(-128)),
        ("i16", StructuredValue::Int(-32768)),
        ("i32", StructuredValue::Int(-2147483648)),
        ("i64", StructuredValue::Int(-9223372036854775808)),
        ("f32", StructuredValue::Float(f64::from(f32_value).to_string())),
        ("f64", StructuredValue::Float(f64_value.to_string())),
        ("usize", StructuredValue::UInt(18446744073709551615)),
    ]);

    let s = to_string(&env).unwrap();
    let expected = "U8=255\nU16=65535\nU32=4294967295\nU64=18446744073709551615\nI8=-128\nI16=-32768\nI32=-2147483648\nI64=-9223372036854775808\nF32=-3.5\nF64=3.5\nUSIZE=18446744073709551615";
    assert_eq!(expected, &s);

    let decoded = from_str(&s).unwrap();
    assert_eq!(decoded.len(), 11);
    assert_eq!(decoded.get("u8").unwrap().parse::<u8>().unwrap(), 255);
    assert_eq!(decoded.get("u16").unwrap().parse::<u16>().unwrap(), 65535);
    assert_eq!(decoded.get("u32").unwrap().parse::<u32>().unwrap(), 4294967295);
    assert_eq!(decoded.get("u64").unwrap().parse::<u64>().unwrap(), 18446744073709551615);
    assert_eq!(decoded.get("i8").unwrap().parse::<i8>().unwrap(), -128);
    assert_eq!(decoded.get("i16").unwrap().parse::<i16>().unwrap(), -32768);
    assert_eq!(decoded.get("i32").unwrap().parse::<i32>().unwrap(), -2147483648);
    assert_eq!(decoded.get("i64").unwrap().parse::<i64>().unwrap(), -9223372036854775808);
    assert_eq!(decoded.get("f32").unwrap().parse::<f32>().unwrap(), f32_value);
    assert_eq!(decoded.get("f64").unwrap().parse::<f64>().unwrap(), f64_value);
    assert_eq!(decoded.get("usize").unwrap().parse::<usize>().unwrap(), 18446744073709551615);

    let unsigned = Value::from_iter(
        read(&decoded).into_iter().filter(|(k, _)| k.starts_with('u')).collect(),
    );
    let typed: HashMap<String, u64> = envy::from_iter(read(&unsigned)).unwrap();
    assert_eq!(typed["u8"], 255);
    assert_eq!(typed["u64"], 18446744073709551615);
    let signed = Value::from_iter(
        read(&decoded).into_iter().filter(|(k, _)| k.starts_with('i')).collect(),
    );
    let typed: HashMap<String, i64> = envy::from_iter(read(&signed)).unwrap();
    assert_eq!(typed["i8"], -128);
    assert_eq!(typed["i64"], -9223372036854775808);
}

#[test]
fn bool_test() {
    let env = record(vec![("a", StructuredValue::Bool(true)), ("b", StructuredValue::Bool(false))]);

    let s = to_string(&env).unwrap();
    let expected = "A=true\nB=false";
    assert_eq!(expected, &s);
    assert_eq!(from_str(&s).unwrap(), Value::from_iter(pairs(&[("a", "true"), ("b", "false")])));
}

#[test]
fn option_test() {
    let env = record(vec![("a", some(text("HELLO"))), ("b", StructuredValue::Optional(None))]);

    let s = to_string(&env).unwrap();
    let expected = "A=\"HELLO\"\nB=";
    assert_eq!(expected, &s);

    let decoded = from_str(&s).unwrap();
    assert_eq!(decoded.get("a").unwrap(), "HELLO");
    // an empty right-hand side is read as the empty string, not as an absent value
    assert_eq!(decoded.get("b"), Some(&String::new()));
    let typed: HashMap<String, Option<String>> = envy::from_iter(read(&decoded)).unwrap();
    assert_eq!(typed["a"], Some("HELLO".to_string()));
    assert_eq!(typed["b"], Some(String::new()));
}

#[test]
fn map_test() {
    let env = record(vec![("hello", text("WORLD"))]);

    let s = to_string(&env).unwrap();
    let expected = "HELLO=\"WORLD\"";
    assert_eq!(expected, &s);
    assert_eq!(from_str(&s).unwrap(), Value::from_iter(pairs(&[("hello", "WORLD")])));
}

#[test]
fn nested_map_test() {
    let env = record(vec![("inner", record(vec![("hello", text("WORLD"))]))]);

    let s = to_string(&env).unwrap();
    let expected = "INNER_HELLO=\"WORLD\"";
    assert_eq!(expected, &s);
}

#[test]
fn sequence_in_sequence_is_refused() {
    let env = record(vec![(
        "a",
        StructuredValue::Sequence(vec![StructuredValue::Sequence(vec![text("x")])]),
    )]);
    assert_eq!(to_string(&env), Err(Error::UnsupportedStructureInSeq));
}

#[test]
fn compound_in_sequence_is_refused() {
    let env = record(vec![(
        "a",
        StructuredValue::Sequence(vec![record(vec![("b", StructuredValue::UInt(1))])]),
    )]);
    assert_eq!(to_string(&env), Err(Error::UnsupportedStructureInSeq));
}

#[test]
fn optional_sequence_in_sequence_is_refused() {
    let env = StructuredValue::Sequence(vec![some(StructuredValue::Sequence(vec![]))]);
    assert_eq!(to_string(&env), Err(Error::UnsupportedStructureInSeq));
}

#[test]
fn key_with_space_is_refused() {
    let env = record(vec![("a b", StructuredValue::UInt(1))]);
    assert_eq!(to_string(&env), Err(Error::Syntax));
}

#[test]
fn key_with_hash_or_quote_is_refused() {
    assert_eq!(to_string(&record(vec![("a#", text("x"))])), Err(Error::Syntax));
    assert_eq!(to_string(&record(vec![("a\"", text("x"))])), Err(Error::Syntax));
    assert_eq!(to_string(&record(vec![("a'", text("x"))])), Err(Error::Syntax));
}

#[test]
fn key_is_checked_before_its_value() {
    let env = record(vec![(
        "a b",
        StructuredValue::Sequence(vec![StructuredValue::Sequence(vec![])]),
    )]);
    assert_eq!(to_string(&env), Err(Error::Syntax));
}

#[test]
fn first_refusal_in_order_decides() {
    let env = record(vec![
        ("a", StructuredValue::Sequence(vec![StructuredValue::Sequence(vec![])])),
        ("b c", StructuredValue::UInt(1)),
    ]);
    assert_eq!(to_string(&env), Err(Error::UnsupportedStructureInSeq));
}

#[test]
fn forbidden_character_in_prefix_is_refused() {
    let env = record(vec![("a", StructuredValue::UInt(1))]);
    assert_eq!(to_string_inner(Some("my app_"), &env), Err(Error::Syntax));
}

#[test]
fn tuple_struct_is_refused() {
    let env = StructuredValue::Tuple(vec![StructuredValue::UInt(1), StructuredValue::UInt(2)]);
    assert_eq!(to_string(&env), Err(Error::UnsupportedTupleStruct));
    let nested = record(vec![("a", StructuredValue::Tuple(vec![]))]);
    assert_eq!(to_string(&nested), Err(Error::UnsupportedTupleStruct));
    let in_seq = StructuredValue::Sequence(vec![StructuredValue::Tuple(vec![])]);
    assert_eq!(to_string(&in_seq), Err(Error::UnsupportedTupleStruct));
}

#[test]
fn field_after_nested_compound_keeps_its_own_key() {
    let env = record(vec![
        ("a", StructuredValue::UInt(1)),
        ("b", record(vec![("c", StructuredValue::UInt(2)), ("d", StructuredValue::UInt(3))])),
        ("e", StructuredValue::UInt(4)),
    ]);
    assert_eq!(to_string(&env).unwrap(), "A=1\nB_C=2\nB_D=3\nE=4");
}

#[test]
fn deep_nesting_joins_every_segment() {
    let env = record(vec![(
        "a",
        record(vec![
            ("b", record(vec![("c", StructuredValue::Int(-1))])),
            ("d", text("x")),
        ]),
    )]);
    assert_eq!(to_string(&env).unwrap(), "A_B_C=-1\nA_D=\"x\"");
}

#[test]
fn nested_compound_with_prefix() {
    let env = record(vec![
        ("a", StructuredValue::UInt(1)),
        ("b", record(vec![("c", StructuredValue::UInt(2))])),
    ]);
    assert_eq!(to_string_inner(Some("app_"), &env).unwrap(), "APP_A=1\nAPP_B_C=2");
}

#[test]
fn empty_values_have_an_empty_right_hand_side() {
    let env = record(vec![
        ("a", text("")),
        ("b", StructuredValue::Optional(None)),
        ("c", StructuredValue::Sequence(vec![])),
        ("d", record(vec![])),
        ("e", StructuredValue::UInt(0)),
    ]);
    assert_eq!(to_string(&env).unwrap(), "A=\nB=\nC=\nD=\nE=0");
}

#[test]
fn empty_compound_is_empty_text() {
    assert_eq!(to_string(&record(vec![])).unwrap(), "");
}

#[test]
fn scalars_at_the_root() {
    assert_eq!(to_string(&StructuredValue::Bool(true)).unwrap(), "true");
    assert_eq!(to_string(&StructuredValue::Int(-42)).unwrap(), "-42");
    assert_eq!(to_string(&StructuredValue::Int(0)).unwrap(), "0");
    assert_eq!(to_string(&StructuredValue::UInt(1000)).unwrap(), "1000");
    assert_eq!(to_string(&text("a b")).unwrap(), "\"a b\"");
    assert_eq!(to_string(&text("")).unwrap(), "");
    assert_eq!(to_string(&StructuredValue::Optional(None)).unwrap(), "");
    assert_eq!(to_string(&some(some(StructuredValue::UInt(7)))).unwrap(), "7");
}

#[test]
fn sequence_of_mixed_scalars() {
    let env = StructuredValue::Sequence(vec![
        StructuredValue::UInt(1),
        text(""),
        StructuredValue::Bool(false),
        StructuredValue::Optional(None),
        StructuredValue::EnumVariant("X".to_string(), None),
        some(StructuredValue::Int(-5)),
    ]);
    assert_eq!(to_string(&env).unwrap(), "1,,false,,\"X\",-5");
}

#[test]
fn sequence_of_empty_strings() {
    let env = record(vec![("a", StructuredValue::Sequence(vec![text(""), text("")]))]);
    assert_eq!(to_string(&env).unwrap(), "A=,");
}

#[test]
fn sequences_side_by_side() {
    let env = record(vec![
        ("a", StructuredValue::Sequence(vec![StructuredValue::UInt(1), StructuredValue::UInt(2)])),
        ("b", StructuredValue::Sequence(vec![StructuredValue::UInt(3)])),
    ]);
    assert_eq!(to_string(&env).unwrap(), "A=1,2\nB=3");
}

#[test]
fn strings_are_not_escaped() {
    let env = record(vec![("a", text("say \"hi\"\n"))]);
    assert_eq!(to_string(&env).unwrap(), "A=\"say \"hi\"\n\"");
}

#[test]
fn bytes_are_written_as_their_text() {
    let env = record(vec![("a", StructuredValue::Bytes("héllo".as_bytes().to_vec()))]);
    assert_eq!(to_string(&env).unwrap(), "A=\"héllo\"");
    assert_eq!(to_string(&StructuredValue::Bytes(vec![])).unwrap(), "");
}

#[test]
fn bytes_that_are_no_utf8_are_refused() {
    let env = record(vec![("a", StructuredValue::Bytes(vec![0xff, 0xfe]))]);
    assert_eq!(to_string(&env), Err(Error::Syntax));
}

#[test]
fn float_text_is_written_bare() {
    let env = record(vec![
        ("a", StructuredValue::Float("1.5e10".to_string())),
        ("b", StructuredValue::Float("NaN".to_string())),
        ("c", StructuredValue::Float("-inf".to_string())),
    ]);
    assert_eq!(to_string(&env).unwrap(), "A=1.5e10\nB=NaN\nC=-inf");
}

#[test]
fn float_text_that_is_no_number_is_refused() {
    assert_eq!(to_string(&StructuredValue::Float(String::new())), Err(Error::Syntax));
    assert_eq!(to_string(&StructuredValue::Float("1 2".to_string())), Err(Error::Syntax));
    assert_eq!(to_string(&StructuredValue::Float("1\nA=2".to_string())), Err(Error::Syntax));
}

#[test]
fn variant_with_a_value_is_a_compound_of_one_field() {
    let carried = StructuredValue::EnumVariant(
        "Port".to_string(),
        Some(Box::new(StructuredValue::UInt(80))),
    );
    assert_eq!(to_string(&carried).unwrap(), "PORT=80");

    let env = record(vec![
        (
            "listen",
            StructuredValue::EnumVariant(
                "Tcp".to_string(),
                Some(Box::new(record(vec![("port", StructuredValue::UInt(80))]))),
            ),
        ),
        ("name", text("x")),
    ]);
    assert_eq!(to_string(&env).unwrap(), "LISTEN_TCP_PORT=80\nNAME=\"x\"");
}

#[test]
fn variant_with_a_value_in_a_sequence_is_its_value() {
    let env = StructuredValue::Sequence(vec![
        StructuredValue::EnumVariant("A".to_string(), Some(Box::new(StructuredValue::UInt(1)))),
        StructuredValue::EnumVariant("B".to_string(), Some(Box::new(text("x")))),
    ]);
    assert_eq!(to_string(&env).unwrap(), "1,\"x\"");
}

#[test]
fn keys_are_upper_cased() {
    let env = record(vec![("database_url", text("x")), ("Port", StructuredValue::UInt(1))]);
    assert_eq!(to_string(&env).unwrap(), "DATABASE_URL=\"x\"\nPORT=1");
}

#[test]
fn value_to_string_writes_pairs_in_order() {
    let env = Value::from_iter(pairs(&[("b", "2"), ("a", "1"), ("b", "")]));
    assert_eq!(value_to_string(None, &env).unwrap(), "B=\nA=\"1\"");
    assert_eq!(value_to_string(Some("x_"), &env).unwrap(), "X_B=\nX_A=\"1\"");
    assert_eq!(
        value_to_string(None, &Value::from_iter(pairs(&[("a b", "1")]))),
        Err(Error::Syntax)
    );
}

#[test]
fn to_writer_appends_the_bytes_of_the_text() {
    let env = record(vec![("name", text("zoë")), ("n", StructuredValue::UInt(1))]);
    let mut buffer = b"# head\n".to_vec();
    to_writer(&mut buffer, &env).unwrap();
    assert_eq!(buffer, "# head\nNAME=\"zoë\"\nN=1".as_bytes());
    to_writer_inner(Some("p_"), &mut buffer, &StructuredValue::Bool(true)).unwrap();
    assert_eq!(buffer, "# head\nNAME=\"zoë\"\nN=1true".as_bytes());
}

#[test]
fn to_writer_leaves_the_writer_when_the_value_is_refused() {
    let mut buffer = b"x".to_vec();
    let r = to_writer(&mut buffer, &record(vec![("a b", StructuredValue::UInt(1))]));
    assert_eq!(r, Err(Error::Syntax));
    assert_eq!(buffer, b"x");
}
