//! The service surface: the calculation handler, the orchestrator dispatch,
//! the peer-connection slots, and the shutdown latch.

use equation::client::{build_url, dispatch_root, peer_request, Dispatch, PeerSlot};
use equation::codec::encode;
use equation::parse::{LocalEvaluator, MathAST, OpKind};
use equation::proto::{CalculationRequest, CalculationResponse};
use equation::server::{handle_calculation, term, Error, ShutdownLatch};

fn request(first: &MathAST, second: &MathAST) -> CalculationRequest {
    CalculationRequest { first_arg: encode(first), second_arg: encode(second) }
}

#[test]
fn test_adder() {
    let req = request(&MathAST::Value(1), &MathAST::Value(2));
    let resp = handle_calculation(&LocalEvaluator, OpKind::Add, &req).unwrap();
    assert_eq!(resp.result, 3);
}

#[test]
fn test_subtractor() {
    let req = request(&MathAST::Value(5), &MathAST::Value(2));
    let resp = handle_calculation(&LocalEvaluator, OpKind::Subtract, &req).unwrap();
    assert_eq!(resp.result, 3);
}

#[test]
fn test_multiplier() {
    let req = request(&MathAST::Value(5), &MathAST::Value(2));
    let resp = handle_calculation(&LocalEvaluator, OpKind::Multiply, &req).unwrap();
    assert_eq!(resp.result, 10);
}

#[test]
fn test_divider() {
    let req = request(&MathAST::Value(4), &MathAST::Value(2));
    let resp = handle_calculation(&LocalEvaluator, OpKind::Divide, &req).unwrap();
    assert_eq!(resp.result, 2);
}

#[test]
fn test_e2e() {
    let ast = equation::parse::test_value();
    let res = match dispatch_root(&ast) {
        Dispatch::Immediate(v) => Ok(v),
        Dispatch::Delegate(op, req) => {
            handle_calculation(&LocalEvaluator, op, &req).map(|resp| resp.result)
        },
    }
    .expect("Result");
    assert_eq!(res, 1);
}

#[test]
fn handler_surfaces_division_by_zero() {
    let req = request(&MathAST::Value(10), &MathAST::Value(0));
    let r = handle_calculation(&LocalEvaluator, OpKind::Divide, &req);
    assert_eq!(r, Err(Error::DivisionByZero));
}

#[test]
fn handler_rejects_undecodable_arguments() {
    let bad = CalculationRequest {
        first_arg: b"not an expression".to_vec(),
        second_arg: encode(&MathAST::Value(2)),
    };
    assert_eq!(handle_calculation(&LocalEvaluator, OpKind::Add, &bad), Err(Error::InvalidArgument));
    let bad_second = CalculationRequest {
        first_arg: encode(&MathAST::Value(2)),
        second_arg: Vec::new(),
    };
    assert_eq!(
        handle_calculation(&LocalEvaluator, OpKind::Add, &bad_second),
        Err(Error::InvalidArgument)
    );
}

#[test]
fn handler_evaluates_nested_sides() {
    // The multiplier owns the root and is handed one whole subtree per side.
    let left = MathAST::Add(Box::new(MathAST::Value(2)), Box::new(MathAST::Value(3)));
    let right = MathAST::Subtract(Box::new(MathAST::Value(10)), Box::new(MathAST::Value(4)));
    let req = request(&left, &right);
    let resp = handle_calculation(&LocalEvaluator, OpKind::Multiply, &req).unwrap();
    assert_eq!(resp.result, 30);
}

#[test]
fn dispatch_answers_a_literal_without_any_call() {
    assert!(matches!(dispatch_root(&MathAST::Value(42)), Dispatch::Immediate(42)));
}

#[test]
fn dispatch_hands_the_root_to_its_owner() {
    let ast = equation::parse::test_value();
    match dispatch_root(&ast) {
        Dispatch::Delegate(op, req) => {
            assert_eq!(op, OpKind::Subtract);
            assert_eq!(req.first_arg, b"DMAV3;V3;V2;V4;".to_vec());
            assert_eq!(req.second_arg, b"V2;".to_vec());
        },
        Dispatch::Immediate(_) => panic!("a non-literal root must be delegated"),
    }
}

#[test]
fn peer_request_carries_two_literals() {
    let req = peer_request(-3, 12);
    assert_eq!(req.first_arg, b"V-3;".to_vec());
    assert_eq!(req.second_arg, b"V12;".to_vec());
}

#[test]
fn response_comes_only_from_a_literal() {
    assert_eq!(
        CalculationResponse::try_from(MathAST::Value(9)),
        Ok(CalculationResponse { result: 9 })
    );
    let unreduced = MathAST::Add(Box::new(MathAST::Value(1)), Box::new(MathAST::Value(2)));
    assert_eq!(CalculationResponse::try_from(unreduced), Err(Error::InvalidArgument));
}

#[test]
fn slot_starts_empty_and_fills_on_the_first_success() {
    let mut slot: PeerSlot<i32> = PeerSlot::new();
    assert!(slot.needs_dial());
    assert_eq!(slot.channel(), None);
    slot.record_dial(None);
    assert!(slot.needs_dial());
    slot.record_dial(Some(7));
    assert!(!slot.needs_dial());
    assert_eq!(slot.channel(), Some(&7));
}

#[test]
fn slot_never_regresses_once_connected() {
    let mut slot: PeerSlot<i32> = PeerSlot::new();
    slot.record_dial(Some(7));
    slot.record_dial(None);
    assert_eq!(slot.channel(), Some(&7));
    slot.record_dial(Some(9));
    assert_eq!(slot.channel(), Some(&7));
}

#[test]
fn slot_tolerates_a_cold_start() {
    // Peers that bind late: every early dial fails, the slot stays usable,
    // and the first dial after the peer is up connects it.
    let mut slot: PeerSlot<i32> = PeerSlot::new();
    for _ in 0..5 {
        assert!(slot.needs_dial());
        slot.record_dial(None);
        assert_eq!(slot.channel(), None);
    }
    slot.record_dial(Some(1));
    assert_eq!(slot.channel(), Some(&1));
}

#[test]
fn latch_starts_unfired_and_term_fires_it() {
    let mut latch = ShutdownLatch::new();
    assert!(!latch.is_fired());
    term(&mut latch);
    assert!(latch.is_fired());
}

#[test]
fn term_is_idempotent() {
    let mut latch = ShutdownLatch::new();
    term(&mut latch);
    assert!(latch.is_fired());
    for _ in 0..3 {
        term(&mut latch);
        assert!(latch.is_fired());
    }
}

#[test]
fn build_url_prefixes_the_scheme() {
    assert_eq!(build_url("localhost:50051"), "http://localhost:50051");
    assert_eq!(build_url(""), "http://");
}
