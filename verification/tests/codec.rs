//! The wire encoding: round trips, exact byte forms, and rejected inputs.

use equation::codec::{decode, encode};
use equation::parse::MathAST;

fn round_trip(ast: MathAST) {
    let bytes = encode(&ast);
    assert_eq!(decode(&bytes), Some(ast));
}

#[test]
fn round_trip_literals() {
    for v in [0, 1, -1, 7, -7, 42, 1000000, -1000000, i32::MAX, i32::MIN] {
        round_trip(MathAST::Value(v));
    }
}

#[test]
fn round_trip_fixture_tree() {
    round_trip(equation::parse::test_value());
}

#[test]
fn round_trip_one_node_of_each_kind() {
    round_trip(MathAST::Add(Box::new(MathAST::Value(1)), Box::new(MathAST::Value(-2))));
    round_trip(MathAST::Subtract(Box::new(MathAST::Value(5)), Box::new(MathAST::Value(2))));
    round_trip(MathAST::Multiply(Box::new(MathAST::Value(5)), Box::new(MathAST::Value(2))));
    round_trip(MathAST::Divide(Box::new(MathAST::Value(10)), Box::new(MathAST::Value(0))));
}

#[test]
fn round_trip_deep_tree() {
    let mut ast = MathAST::Value(-2147483648);
    for k in 0..40 {
        ast = MathAST::Add(Box::new(ast), Box::new(MathAST::Value(k)));
    }
    round_trip(ast);
}

#[test]
fn encoding_of_a_literal_is_its_decimal_digits() {
    assert_eq!(encode(&MathAST::Value(42)), b"V42;".to_vec());
    assert_eq!(encode(&MathAST::Value(0)), b"V0;".to_vec());
    assert_eq!(encode(&MathAST::Value(-7)), b"V-7;".to_vec());
    assert_eq!(encode(&MathAST::Value(2147483647)), b"V2147483647;".to_vec());
    assert_eq!(encode(&MathAST::Value(-2147483648)), b"V-2147483648;".to_vec());
}

#[test]
fn encoding_of_an_operation_is_tag_then_both_sides() {
    let ast = MathAST::Add(Box::new(MathAST::Value(1)), Box::new(MathAST::Value(2)));
    assert_eq!(encode(&ast), b"AV1;V2;".to_vec());
    let fixture = equation::parse::test_value();
    assert_eq!(encode(&fixture), b"SDMAV3;V3;V2;V4;V2;".to_vec());
}

#[test]
fn decode_accepts_hand_written_canonical_bytes() {
    assert_eq!(decode(&b"V42;".to_vec()), Some(MathAST::Value(42)));
    assert_eq!(decode(&b"V-2147483648;".to_vec()), Some(MathAST::Value(i32::MIN)));
    assert_eq!(
        decode(&b"DV10;V0;".to_vec()),
        Some(MathAST::Divide(Box::new(MathAST::Value(10)), Box::new(MathAST::Value(0))))
    );
}

#[test]
fn decode_rejects_malformed_bytes() {
    let rejected: &[&[u8]] = &[
        b"",
        b"V;",
        b"V42",
        b"V42;x",
        b"X42;",
        b"V01;",
        b"V-0;",
        b"V--1;",
        b"V2147483648;",
        b"V-2147483649;",
        b"V99999999999999999999;",
        b"A",
        b"AV1;",
        b"AV1;V2;V3;",
        b"V1;V2;",
    ];
    for bytes in rejected {
        assert_eq!(decode(&bytes.to_vec()), None);
    }
}

#[test]
fn decode_is_strict_about_the_canonical_form() {
    // The same value in a padded form is refused, so each tree has exactly
    // one accepted spelling.
    assert_eq!(decode(&b"V007;".to_vec()), None);
    assert_eq!(decode(&b"V7;".to_vec()), Some(MathAST::Value(7)));
}
