//! The messages on the wire between the orchestrator and the four services.

use crate::parse::MathAST;
use crate::server::Error;
use vstd::prelude::*;

verus! {

/// A calculation request: two encoded sub-expressions.  The receiving
/// service combines them under its own operation and evaluates the result.
#[derive(Debug)]
pub struct CalculationRequest {
    pub first_arg: Vec<u8>,
    pub second_arg: Vec<u8>,
}

/// A calculation response: the integer the fully evaluated expression came
/// to.
#[derive(Debug, Clone, Copy, PartialEq, Eq, Structural)]
pub struct CalculationResponse {
    pub result: i32,
}

/// The empty message, sent and returned by the termination endpoint.
#[derive(Debug, Clone, Copy, PartialEq, Eq, Structural)]
pub struct Empty {}

impl CalculationResponse {
    /// The response carrying the value of a fully reduced tree; a tree that
    /// still holds an operation is rejected.
    pub fn try_from(value: MathAST) -> (r: Result<CalculationResponse, Error>)
        ensures
            value matches MathAST::Value(v) ==> r == Ok::<CalculationResponse, Error>(
                CalculationResponse { result: v },
            ),
            !(value is Value) ==> r == Err::<CalculationResponse, Error>(Error::InvalidArgument),
    {
        if let MathAST::Value(v) = value {
            Ok(CalculationResponse { result: v })
        } else {
            Err(Error::InvalidArgument)
        }
    }
}

} // verus!
