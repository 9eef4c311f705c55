//! Tests of the value bridge and the canonical serializer.

use replay_bridge::bridge::convert;
use replay_bridge::serial::{i64_text, to_canonical_text, u64_text};
use replay_bridge::value::{check_tree_wf, HostValue, NumKind, Tree};

fn text(s: &str) -> String {
    String::from(s)
}

#[test]
fn unsigned_number_stays_integer() {
    let h = convert(&Tree::Num(NumKind::Unsigned(18446744073709551615)));
    assert_eq!(h, HostValue::UInt(u64::MAX));
}

#[test]
fn signed_number_stays_integer() {
    let h = convert(&Tree::Num(NumKind::Signed(-42)));
    assert_eq!(h, HostValue::Int(-42));
}

#[test]
fn float_number_keeps_exact_bits() {
    let bits = (2.5f64).to_bits();
    let h = convert(&Tree::Num(NumKind::FloatBits(bits)));
    assert_eq!(h, HostValue::FloatBits(bits));
    match h {
        HostValue::FloatBits(b) => assert_eq!(f64::from_bits(b), 2.5f64),
        _ => panic!("expected a float"),
    }
}

#[test]
fn malformed_number_falls_back_to_null() {
    let h = convert(&Tree::Num(NumKind::Malformed));
    assert_eq!(h, HostValue::Null);
}

#[test]
fn scalars_convert_directly() {
    assert_eq!(convert(&Tree::Null), HostValue::Null);
    assert_eq!(convert(&Tree::Bool(true)), HostValue::Bool(true));
    assert_eq!(convert(&Tree::Bool(false)), HostValue::Bool(false));
    assert_eq!(convert(&Tree::Text(text("hi"))), HostValue::Text(text("hi")));
}

#[test]
fn list_order_is_preserved() {
    let v = Tree::List(vec![
        Tree::Num(NumKind::Unsigned(3)),
        Tree::Num(NumKind::Unsigned(1)),
        Tree::Num(NumKind::Unsigned(2)),
    ]);
    let h = convert(&v);
    assert_eq!(
        h,
        HostValue::List(vec![HostValue::UInt(3), HostValue::UInt(1), HostValue::UInt(2)])
    );
}

#[test]
fn map_keys_come_out_sorted() {
    let v = Tree::Object(vec![
        (text("b"), Tree::Num(NumKind::Unsigned(1))),
        (text("a"), Tree::Num(NumKind::Unsigned(2))),
    ]);
    let h = convert(&v);
    assert_eq!(
        h,
        HostValue::Dict(vec![
            (text("a"), HostValue::UInt(2)),
            (text("b"), HostValue::UInt(1)),
        ])
    );
    assert_eq!(to_canonical_text(&h), text("{\"a\":2,\"b\":1}"));
}

#[test]
fn differently_ordered_maps_serialize_identically() {
    let one = Tree::Object(vec![
        (text("x"), Tree::Num(NumKind::Unsigned(7))),
        (text("deep"), Tree::Object(vec![
            (text("q"), Tree::Bool(true)),
            (text("p"), Tree::Null),
        ])),
    ]);
    let two = Tree::Object(vec![
        (text("deep"), Tree::Object(vec![
            (text("p"), Tree::Null),
            (text("q"), Tree::Bool(true)),
        ])),
        (text("x"), Tree::Num(NumKind::Unsigned(7))),
    ]);
    let s1 = to_canonical_text(&convert(&one));
    let s2 = to_canonical_text(&convert(&two));
    assert_eq!(s1, s2);
    assert_eq!(s1, text("{\"deep\":{\"p\":null,\"q\":true},\"x\":7}"));
}

#[test]
fn canonical_text_matches_reference_serializer() {
    // the same logical tree, given to the bridge in reverse key order
    let v = Tree::Object(vec![
        (text("b"), Tree::Num(NumKind::Unsigned(1))),
        (text("a"), Tree::List(vec![
            Tree::Num(NumKind::Signed(-5)),
            Tree::Text(text("s")),
        ])),
    ]);
    let ours = to_canonical_text(&convert(&v));

    let mut m = serde_json::Map::new();
    m.insert("b".to_string(), serde_json::Value::from(1u64));
    m.insert(
        "a".to_string(),
        serde_json::Value::Array(vec![
            serde_json::Value::from(-5i64),
            serde_json::Value::String("s".to_string()),
        ]),
    );
    let reference = serde_json::to_string(&serde_json::Value::Object(m)).unwrap();
    assert_eq!(ours, reference);
}

#[test]
fn empty_containers_serialize() {
    assert_eq!(to_canonical_text(&convert(&Tree::List(vec![]))), text("[]"));
    assert_eq!(to_canonical_text(&convert(&Tree::Object(vec![]))), text("{}"));
}

#[test]
fn integer_text_is_decimal() {
    assert_eq!(u64_text(0), text("0"));
    assert_eq!(u64_text(907), text("907"));
    assert_eq!(u64_text(u64::MAX), text("18446744073709551615"));
    assert_eq!(i64_text(-1), text("-1"));
    assert_eq!(i64_text(i64::MIN), text("-9223372036854775808"));
    assert_eq!(i64_text(25), text("25"));
}

#[test]
fn float_serializes_as_its_bit_pattern() {
    let bits = (1.5f64).to_bits();
    let h = convert(&Tree::Num(NumKind::FloatBits(bits)));
    let expected = format!("f{}", bits);
    assert_eq!(to_canonical_text(&h), expected);
}

#[test]
fn quotes_and_backslashes_are_escaped_like_the_reference() {
    let v = Tree::Object(vec![(
        text("a\"key"),
        Tree::Text(text("back\\slash and \"quote\"")),
    )]);
    let ours = to_canonical_text(&convert(&v));

    let mut m = serde_json::Map::new();
    m.insert(
        "a\"key".to_string(),
        serde_json::Value::String("back\\slash and \"quote\"".to_string()),
    );
    let reference = serde_json::to_string(&serde_json::Value::Object(m)).unwrap();
    assert_eq!(ours, reference);
}

#[test]
fn well_formedness_check_agrees_with_the_invariant() {
    let good = Tree::Object(vec![
        (text("a"), Tree::Num(NumKind::Signed(-1))),
        (text("b"), Tree::List(vec![Tree::Null, Tree::Bool(true)])),
    ]);
    assert!(check_tree_wf(&good));

    let duplicate_keys = Tree::Object(vec![
        (text("a"), Tree::Null),
        (text("a"), Tree::Bool(false)),
    ]);
    assert!(!check_tree_wf(&duplicate_keys));

    let wrong_representation = Tree::Num(NumKind::Signed(7));
    assert!(!check_tree_wf(&wrong_representation));

    let nested_bad = Tree::List(vec![Tree::Object(vec![
        (text("k"), Tree::Null),
        (text("k"), Tree::Null),
    ])]);
    assert!(!check_tree_wf(&nested_bad));
}

#[test]
fn deep_nesting_converts() {
    let mut v = Tree::Num(NumKind::Unsigned(1));
    for _ in 0..200 {
        v = Tree::List(vec![v]);
    }
    let mut h = convert(&v);
    for _ in 0..200 {
        match h {
            HostValue::List(items) => {
                assert_eq!(items.len(), 1);
                h = items.into_iter().next().unwrap();
            }
            _ => panic!("expected a list"),
        }
    }
    assert_eq!(h, HostValue::UInt(1));
}
