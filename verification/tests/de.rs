use serde_envfile::de::from_iter_inner;
use serde_envfile::de::from_str_inner;
use serde_envfile::de::{
    from_reader, from_reader_inner, pairs_from_read, pairs_from_str, strip_prefix,
};
use serde_envfile::{from_iter, from_str, Error, Value};

fn pairs(items: &[(&str, &str)]) -> Vec<(String, String)> {
    items.iter().map(|(k, v)| (k.to_string(), v.to_string())).collect()
}

#[test]
fn from_str_test() {
    let input = "HELLO=world";
    let env: Value = from_str(input).unwrap();

    assert_eq!(env.len(), 1);
    assert_eq!("world", env.get("hello").unwrap());
}

#[test]
fn from_str_reads_every_line_in_order() {
    let env = from_str("B=2\n# a comment\n\nA=\"one two\"\nC='3'\n").unwrap();
    assert_eq!(env.len(), 3);
    assert_eq!(env.get_index(0), Some((&"b".to_string(), &"2".to_string())));
    assert_eq!(env.get_index(1), Some((&"a".to_string(), &"one two".to_string())));
    assert_eq!(env.get_index(2), Some((&"c".to_string(), &"3".to_string())));
    assert_eq!(env.get_index(3), None);
}

#[test]
fn from_str_refuses_a_line_that_cannot_be_read() {
    let r = from_str("not a line");
    match r {
        Err(Error::Message(m)) => assert!(m.contains("not a line")),
        other => panic!("{:?}", other),
    }
}

#[test]
fn from_str_refuses_an_open_quote() {
    assert!(matches!(from_str("A=\"open"), Err(Error::Message(_))));
}

#[test]
fn from_str_of_nothing_is_empty() {
    let env = from_str("").unwrap();
    assert!(env.is_empty());
    assert_eq!(env.len(), 0);
}

#[test]
fn from_iter_lower_cases_keys() {
    let env = from_iter(pairs(&[("HELLO_World", "A b"), ("x", "Y")])).unwrap();
    assert_eq!(env, Value::from_iter(pairs(&[("hello_world", "A b"), ("x", "Y")])));
    assert!(env.contains_key("hello_world"));
    assert!(!env.contains_key("HELLO_World"));
}

#[test]
fn from_iter_later_assignment_wins_and_keeps_the_place() {
    let env = from_iter(pairs(&[("A", "1"), ("B", "2"), ("a", "3")])).unwrap();
    assert_eq!(env.len(), 2);
    assert_eq!(env.get_index(0), Some((&"a".to_string(), &"3".to_string())));
    assert_eq!(env.get_index(1), Some((&"b".to_string(), &"2".to_string())));
}

#[test]
fn from_iter_inner_keeps_what_belongs_to_the_prefix() {
    let env = from_iter_inner(
        Some("APP_"),
        pairs(&[("APP_HELLO", "world"), ("OTHER", "x"), ("app_port", "80"), ("APP", "y"), ("XAPP_A", "z")]),
    )
    .unwrap();
    assert_eq!(env, Value::from_iter(pairs(&[("hello", "world"), ("port", "80")])));
    assert_eq!(env.get_index(0), Some((&"hello".to_string(), &"world".to_string())));
}

#[test]
fn from_iter_inner_matches_the_prefix_in_any_case() {
    let env = from_iter_inner(Some("app_"), pairs(&[("APP_HELLO", "world")])).unwrap();
    assert_eq!(env.get("hello").unwrap(), "world");
    let env = from_iter_inner(Some("App_"), pairs(&[("aPP_hello", "world")])).unwrap();
    assert_eq!(env.get("hello").unwrap(), "world");
}

#[test]
fn from_iter_inner_takes_the_prefix_off_once() {
    let env = from_iter_inner(Some("A_"), pairs(&[("A_A_B", "1"), ("A_", "2")])).unwrap();
    assert_eq!(env, Value::from_iter(pairs(&[("a_b", "1"), ("", "2")])));
}

#[test]
fn from_iter_inner_without_prefix_keeps_everything() {
    let env = from_iter_inner(None, pairs(&[("APP_HELLO", "world")])).unwrap();
    assert_eq!(env, Value::from_iter(pairs(&[("app_hello", "world")])));
}

#[test]
fn from_str_inner_with_prefix() {
    let env = from_str_inner(Some("APP_"), "APP_HELLO=\"world\"\nOTHER=1").unwrap();
    assert_eq!(env, Value::from_iter(pairs(&[("hello", "world")])));
}

#[test]
fn from_reader_reads_utf8_bytes() {
    let env = from_reader("NAME=\"zoë\"\nB=2".as_bytes()).unwrap();
    assert_eq!(env, Value::from_iter(pairs(&[("name", "zoë"), ("b", "2")])));
    let env = from_reader_inner(Some("x_"), b"X_A=1\nA=2").unwrap();
    assert_eq!(env, Value::from_iter(pairs(&[("a", "1")])));
}

#[test]
fn from_reader_refuses_bytes_that_are_no_utf8() {
    assert!(matches!(from_reader(&[b'A', b'=', 0xff]), Err(Error::Message(_))));
}

#[test]
fn strip_prefix_keeps_order_and_repeated_keys() {
    let kept = strip_prefix(
        Some("app_"),
        pairs(&[("APP_B", "1"), ("X", "2"), ("app_a", "3"), ("APP_B", "4"), ("APP_", "5")]),
    );
    assert_eq!(kept, pairs(&[("b", "1"), ("a", "3"), ("b", "4"), ("", "5")]));
}

#[test]
fn strip_prefix_without_prefix_lower_cases_keys() {
    let kept = strip_prefix(None, pairs(&[("APP_B", "One"), ("x", "2")]));
    assert_eq!(kept, pairs(&[("app_b", "One"), ("x", "2")]));
    assert_eq!(strip_prefix(Some("a"), pairs(&[])), pairs(&[]));
}

#[test]
fn pairs_from_str_reads_assignments_as_they_stand() {
    let read = pairs_from_str("A=1\nexport B=\"two words\"\nA=3 # again\nC.d='x'").unwrap();
    assert_eq!(read, pairs(&[("A", "1"), ("B", "two words"), ("A", "3"), ("C.d", "x")]));
    assert!(matches!(pairs_from_str("1A=2"), Err(Error::Message(_))));
}

#[test]
fn pairs_from_read_hands_on_what_was_read() {
    let read: Result<Vec<(String, String)>, String> = Ok(pairs(&[("B", "2"), ("A", "1"), ("B", "")]));
    assert_eq!(pairs_from_read(read), Ok(pairs(&[("B", "2"), ("A", "1"), ("B", "")])));
    let nothing: Result<Vec<(String, String)>, String> = Ok(Vec::new());
    assert_eq!(pairs_from_read(nothing), Ok(Vec::new()));
}

#[test]
fn pairs_from_read_turns_a_failure_into_its_message() {
    let failed: Result<Vec<(String, String)>, &str> = Err("cannot read");
    assert_eq!(pairs_from_read(failed), Err(Error::Message("cannot read".to_string())));
    let failed: Result<Vec<(String, String)>, dotenvy::Error> =
        Err(dotenvy::Error::LineParse("1A=2".to_string(), 0));
    assert_eq!(
        pairs_from_read(failed),
        Err(Error::Message("Error parsing line: '1A=2', error at line index: 0".to_string()))
    );
}

#[test]
fn pairs_from_str_gives_the_message_of_the_line_that_cannot_be_read() {
    assert_eq!(
        pairs_from_str("A=1\n1A=2\nB=3"),
        Err(Error::Message("Error parsing line: '1A=2', error at line index: 0".to_string()))
    );
    assert_eq!(pairs_from_str(""), Ok(Vec::new()));
    assert_eq!(pairs_from_str("# only a comment\n\n"), Ok(Vec::new()));
}
