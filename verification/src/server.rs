//! What an operator service computes: its error classification, the handler
//! for its calculation endpoint, and its shutdown latch.

use crate::codec::{decode, spec_decode};
use crate::parse::{try_from_ast, MathASTEvaluator, OpKind};
use crate::proto::{CalculationRequest, CalculationResponse, Empty};
use vstd::prelude::*;

verus! {

/// The error classifications a service surfaces.
///
/// `InvalidArgument` is a request whose encoded expression did not decode;
/// `EncodingError` a sub-expression the service could not encode for a peer;
/// `PeerUnavailable` an empty peer-connection slot whose fresh open attempt
/// failed; `PeerError` a peer call that returned a non-success status; and
/// `DivisionByZero` a division primitive that received a zero divisor.
#[derive(Debug, Clone, Copy, PartialEq, Eq, Structural)]
pub enum Error {
    InvalidArgument,
    EncodingError,
    PeerUnavailable,
    PeerError,
    DivisionByZero,
}

/// The calculation endpoint shared by the four operator services.
///
/// Decode the two sub-expressions of the request — a failure of either is an
/// `InvalidArgument` — combine them under the service's own operation, and
/// evaluate the whole tree with the service's evaluator.  Success pins the
/// answer: the response carries the one value the combined tree evaluates
/// to.  With a reliable evaluator the outcome is exact in both directions:
/// the value whenever the tree has one, the evaluator's division-by-zero
/// error otherwise.
pub fn handle_calculation<T: MathASTEvaluator<Error>>(
    service: &T,
    owner: OpKind,
    request: &CalculationRequest,
) -> (r: Result<CalculationResponse, Error>)
    ensures
        spec_decode(request.first_arg@) is None || spec_decode(request.second_arg@) is None ==> r
            == Err::<CalculationResponse, Error>(Error::InvalidArgument),
        r matches Ok(resp) ==> (spec_decode(request.first_arg@) matches Some(first)
            && spec_decode(request.second_arg@) matches Some(second) && owner.spec_apply(
            first,
            second,
        ).spec_eval() == Some(resp.result)),
        service.reliable() ==> (spec_decode(request.first_arg@) matches Some(first) ==> (
        spec_decode(request.second_arg@) matches Some(second) ==> (match owner.spec_apply(
            first,
            second,
        ).spec_eval() {
            Some(v) => r == Ok::<CalculationResponse, Error>(CalculationResponse { result: v }),
            None => r == Err::<CalculationResponse, Error>(service.div_zero_err()),
        }))),
{
    let first = match decode(&request.first_arg) {
        Some(ast) => ast,
        None => {
            return Err(Error::InvalidArgument);
        },
    };
    let second = match decode(&request.second_arg) {
        Some(ast) => ast,
        None => {
            return Err(Error::InvalidArgument);
        },
    };
    let combined = owner.apply(first, second);
    let reduced = try_from_ast(service, combined)?;
    CalculationResponse::try_from(reduced)
}

/// The shutdown latch of a service: a single-shot signal fired by the
/// termination endpoint or by an operator interrupt, and awaited by the
/// serving loop.
pub struct ShutdownLatch {
    fired: bool,
}

impl ShutdownLatch {
    /// Whether the latch has been fired.
    pub closed spec fn spec_fired(self) -> bool {
        self.fired
    }

    /// The latch after one fire: fired, whatever it was before.
    pub closed spec fn spec_fire(self) -> ShutdownLatch {
        ShutdownLatch { fired: true }
    }

    /// A fresh latch, not yet fired.
    pub fn new() -> (latch: ShutdownLatch)
        ensures
            !latch.spec_fired(),
    {
        ShutdownLatch { fired: false }
    }

    /// Fire the latch.  Firing is idempotent: the resulting state does not
    /// depend on how often the latch was fired before.
    pub fn fire(&mut self)
        ensures
            *final(self) == old(self).spec_fire(),
            final(self).spec_fired(),
    {
        self.fired = true;
    }

    /// Whether the latch has been fired; the serving loop polls this.
    pub fn is_fired(&self) -> (b: bool)
        ensures
            b == self.spec_fired(),
    {
        self.fired
    }
}

/// The termination endpoint, `term`: fire the service's shutdown latch and
/// acknowledge at once — the caller gets its answer before the server exits.
pub fn term(latch: &mut ShutdownLatch) -> (r: Empty)
    ensures
        *final(latch) == old(latch).spec_fire(),
        final(latch).spec_fired(),
        r == (Empty {  }),
{
    latch.fire();
    Empty {  }
}

/// Firing the latch is idempotent: sending `term` any number of further
/// times leaves the latch exactly as the first `term` left it.
pub proof fn lemma_term_idempotent(latch: ShutdownLatch)
    ensures
        latch.spec_fire().spec_fire() == latch.spec_fire(),
{
}

} // verus!
