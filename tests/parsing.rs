use gml_parser::{ErrorKind, GMLObject, GMLValue};

fn syntax_offset(text: &str) -> usize {
    match GMLObject::from_str(text).unwrap_err().kind {
        ErrorKind::Syntax { offset } => offset,
        other => panic!("expected a syntax error, found {:?}", other),
    }
}

#[test]
fn empty_text_is_empty_object() {
    assert_eq!(GMLObject::from_str("").unwrap(), GMLObject { pairs: vec![] });
    assert_eq!(GMLObject::from_str(" \n\t\r ").unwrap(), GMLObject { pairs: vec![] });
}

#[test]
fn values_of_each_kind() {
    let root = GMLObject::from_str("a 1 b -2 c +3 d \"x y\" e [ f 0 ] g\"\"").unwrap();
    assert_eq!(
        root.pairs,
        vec![
            ("a".to_string(), GMLValue::GMLInt(1)),
            ("b".to_string(), GMLValue::GMLInt(-2)),
            ("c".to_string(), GMLValue::GMLInt(3)),
            ("d".to_string(), GMLValue::GMLString("x y".into())),
            (
                "e".to_string(),
                GMLValue::GMLObject(Box::new(GMLObject {
                    pairs: vec![("f".to_string(), GMLValue::GMLInt(0))]
                }))
            ),
            ("g".to_string(), GMLValue::GMLString(String::new())),
        ]
    );
}

#[test]
fn repeated_keys_keep_their_order() {
    let root = GMLObject::from_str("x 1 y 2 x 3").unwrap();
    let keys: Vec<&str> = root.pairs.iter().map(|p| p.0.as_str()).collect();
    assert_eq!(keys, vec!["x", "y", "x"]);
    assert_eq!(root.pairs[2].1, GMLValue::GMLInt(3));
}

#[test]
fn keys_with_digits_and_underscores() {
    let root = GMLObject::from_str("_k9 7 node2 [ ]").unwrap();
    assert_eq!(root.pairs[0].0, "_k9");
    assert_eq!(root.pairs[1].0, "node2");
}

#[test]
fn strings_are_taken_verbatim() {
    let root = GMLObject::from_str("s \"a [b] 1 &quot; é\"").unwrap();
    assert_eq!(root.pairs[0].1, GMLValue::GMLString("a [b] 1 &quot; é".into()));
}

#[test]
fn integer_limits() {
    let root = GMLObject::from_str("a 9223372036854775807 b -9223372036854775808").unwrap();
    assert_eq!(root.pairs[0].1, GMLValue::GMLInt(i64::MAX));
    assert_eq!(root.pairs[1].1, GMLValue::GMLInt(i64::MIN));
}

#[test]
fn integer_overflow_is_number_format() {
    let err = GMLObject::from_str("a 9223372036854775808").unwrap_err();
    assert_eq!(err.kind, ErrorKind::NumberFormat);
    let err = GMLObject::from_str("a [ b -9223372036854775809 ]").unwrap_err();
    assert_eq!(err.kind, ErrorKind::NumberFormat);
    let err = GMLObject::from_str("a 123456789012345678901234567890").unwrap_err();
    assert_eq!(err.kind, ErrorKind::NumberFormat);
}

#[test]
fn syntax_error_wins_over_number_format() {
    assert_eq!(syntax_offset("a 99999999999999999999 b"), 24);
}

#[test]
fn unclosed_object() {
    assert_eq!(syntax_offset("graph ["), 7);
}

#[test]
fn stray_closing_bracket() {
    assert_eq!(syntax_offset("graph [ id 4 ] ]"), 15);
}

#[test]
fn fraction_is_rejected() {
    assert_eq!(syntax_offset("graph [ id 4.5 ]"), 12);
}

#[test]
fn unterminated_string() {
    assert_eq!(syntax_offset("k \"abc"), 6);
}

#[test]
fn sign_without_digits() {
    assert_eq!(syntax_offset("k -x"), 3);
}

#[test]
fn key_without_value() {
    assert_eq!(syntax_offset("k"), 1);
    assert_eq!(syntax_offset("1 2"), 0);
}
