//! Evaluation: the reducer, the loop, and its boundary behavior.

use equation::parse::{eval, evaluate, try_from_ast, LocalEvaluator, MathAST};
use equation::server::Error;

#[test]
fn it_works() {}

#[test]
fn test_ast_eval() {
    let mut ast = equation::parse::test_value();
    let evaluator = LocalEvaluator;

    let depth = 10;

    for _ in 0..depth {
        ast = eval(&evaluator, ast.clone()).unwrap();

        if let MathAST::Value(_) = ast {
            break;
        }
    }

    assert!(matches!(ast, MathAST::Value(v) if v == 1));
}

#[test]
fn evaluate_literal_is_identity() {
    for v in [0, 1, -1, 42, i32::MAX, i32::MIN] {
        assert_eq!(evaluate(&LocalEvaluator, MathAST::Value(v)), Ok(v));
    }
}

#[test]
fn evaluate_single_add() {
    let ast = MathAST::Add(Box::new(MathAST::Value(1)), Box::new(MathAST::Value(2)));
    assert_eq!(evaluate(&LocalEvaluator, ast), Ok(3));
}

#[test]
fn evaluate_single_ops_match_primitives() {
    let pairs = [(5, 2), (-5, 2), (0, 7), (i32::MAX, i32::MIN)];
    for (a, b) in pairs {
        let add = MathAST::Add(Box::new(MathAST::Value(a)), Box::new(MathAST::Value(b)));
        assert_eq!(evaluate(&LocalEvaluator, add), Ok(a.wrapping_add(b)));
        let sub = MathAST::Subtract(Box::new(MathAST::Value(a)), Box::new(MathAST::Value(b)));
        assert_eq!(evaluate(&LocalEvaluator, sub), Ok(a.wrapping_sub(b)));
        let mul = MathAST::Multiply(Box::new(MathAST::Value(a)), Box::new(MathAST::Value(b)));
        assert_eq!(evaluate(&LocalEvaluator, mul), Ok(a.wrapping_mul(b)));
        let div = MathAST::Divide(Box::new(MathAST::Value(a)), Box::new(MathAST::Value(b)));
        assert_eq!(evaluate(&LocalEvaluator, div), Ok(a.wrapping_div(b)));
    }
}

#[test]
fn evaluate_wraps_on_overflow() {
    let ast = MathAST::Add(Box::new(MathAST::Value(i32::MAX)), Box::new(MathAST::Value(1)));
    assert_eq!(evaluate(&LocalEvaluator, ast), Ok(i32::MIN));
}

#[test]
fn evaluate_truncates_toward_zero() {
    let pos = MathAST::Divide(Box::new(MathAST::Value(7)), Box::new(MathAST::Value(2)));
    assert_eq!(evaluate(&LocalEvaluator, pos), Ok(3));
    let neg = MathAST::Divide(Box::new(MathAST::Value(-7)), Box::new(MathAST::Value(2)));
    assert_eq!(evaluate(&LocalEvaluator, neg), Ok(-3));
}

#[test]
fn evaluate_wraps_the_one_overflowing_quotient() {
    let ast = MathAST::Divide(Box::new(MathAST::Value(i32::MIN)), Box::new(MathAST::Value(-1)));
    assert_eq!(evaluate(&LocalEvaluator, ast), Ok(i32::MIN));
}

#[test]
fn evaluate_division_by_zero_is_an_error() {
    let ast = MathAST::Divide(Box::new(MathAST::Value(10)), Box::new(MathAST::Value(0)));
    assert_eq!(evaluate(&LocalEvaluator, ast), Err(Error::DivisionByZero));
}

#[test]
fn evaluate_division_by_zero_surfaces_from_deep_in_the_tree() {
    let zero = MathAST::Subtract(Box::new(MathAST::Value(2)), Box::new(MathAST::Value(2)));
    let ast = MathAST::Add(
        Box::new(MathAST::Value(1)),
        Box::new(MathAST::Divide(Box::new(MathAST::Value(1)), Box::new(zero))),
    );
    assert_eq!(evaluate(&LocalEvaluator, ast), Err(Error::DivisionByZero));
}

#[test]
fn evaluate_fixture_tree() {
    assert_eq!(evaluate(&LocalEvaluator, equation::parse::test_value()), Ok(1));
}

#[test]
fn evaluate_nested_tree_with_all_four_ops() {
    let ast = MathAST::Multiply(
        Box::new(MathAST::Add(Box::new(MathAST::Value(2)), Box::new(MathAST::Value(3)))),
        Box::new(MathAST::Subtract(Box::new(MathAST::Value(10)), Box::new(MathAST::Value(4)))),
    );
    assert_eq!(evaluate(&LocalEvaluator, ast), Ok(30));
}

#[test]
fn evaluate_same_tree_twice_gives_the_same_integer() {
    let first = evaluate(&LocalEvaluator, equation::parse::test_value());
    let second = evaluate(&LocalEvaluator, equation::parse::test_value());
    assert_eq!(first, Ok(1));
    assert_eq!(first, second);
}

#[test]
fn try_from_ast_reduces_to_the_literal() {
    let reduced = try_from_ast(&LocalEvaluator, equation::parse::test_value()).unwrap();
    assert_eq!(reduced, MathAST::Value(1));
}

#[test]
fn test_value_builds_the_fixture_tree() {
    let expected = MathAST::Subtract(
        Box::new(MathAST::Divide(
            Box::new(MathAST::Multiply(
                Box::new(MathAST::Add(
                    Box::new(MathAST::Value(3)),
                    Box::new(MathAST::Value(3)),
                )),
                Box::new(MathAST::Value(2)),
            )),
            Box::new(MathAST::Value(4)),
        )),
        Box::new(MathAST::Value(2)),
    );
    assert_eq!(equation::parse::test_value(), expected);
}

#[test]
fn clone_copies_the_tree() {
    let ast = equation::parse::test_value();
    assert_eq!(ast.clone(), ast);
}
