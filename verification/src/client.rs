//! The client side of a service: peer-connection slots, peer requests, and
//! the orchestrator's dispatch of a root expression.

use crate::codec::encode;
use crate::parse::{MathAST, OpKind};
use crate::proto::CalculationRequest;
use vstd::prelude::*;
use vstd::string::StringExecFns;

verus! {

/// A peer-connection slot: the lazily filled cell in which a service keeps
/// its channel to one peer.  It starts empty, is filled by the first dial
/// that succeeds, and never goes back: a failed dial leaves an empty slot
/// empty and a filled slot untouched, so the services tolerate starting
/// before their peers are reachable and retry on the next request.
pub struct PeerSlot<C> {
    chan: Option<C>,
}

impl<C> PeerSlot<C> {
    /// The channel the slot holds, if any.
    pub closed spec fn spec_channel(self) -> Option<C> {
        self.chan
    }

    /// Whether the slot holds an established channel.
    pub open spec fn is_connected(self) -> bool {
        self.spec_channel() is Some
    }

    /// The slot after recording a dial outcome: a connected slot is left as
    /// it is, an empty one takes whatever the dial produced.
    pub closed spec fn spec_record(self, outcome: Option<C>) -> PeerSlot<C> {
        if self.is_connected() {
            self
        } else {
            PeerSlot { chan: outcome }
        }
    }

    /// A fresh slot, not yet connected.
    pub fn new() -> (slot: PeerSlot<C>)
        ensures
            !slot.is_connected(),
    {
        PeerSlot { chan: None }
    }

    /// Whether a dial should be attempted before using the slot.
    pub fn needs_dial(&self) -> (b: bool)
        ensures
            b == !self.is_connected(),
    {
        self.chan.is_none()
    }

    /// Record the outcome of a dial attempt.
    pub fn record_dial(&mut self, outcome: Option<C>)
        ensures
            *final(self) == old(self).spec_record(outcome),
            old(self).is_connected() ==> *final(self) == *old(self),
            !old(self).is_connected() ==> final(self).spec_channel() == outcome,
            final(self).is_connected() <==> old(self).is_connected() || outcome is Some,
    {
        if self.chan.is_none() {
            self.chan = outcome;
        }
    }

    /// The held channel, if the slot is connected.
    pub fn channel(&self) -> (r: Option<&C>)
        ensures
            match r {
                Some(c) => self.spec_channel() == Some(*c),
                None => self.spec_channel() is None,
            },
    {
        self.chan.as_ref()
    }
}

/// A slot never regresses: once it is connected, every later dial outcome —
/// success or failure — leaves it connected, with the same channel.
pub proof fn lemma_slot_never_regresses<C>(slot: PeerSlot<C>, outcome: Option<C>)
    requires
        slot.is_connected(),
    ensures
        slot.spec_record(outcome) == slot,
        slot.spec_record(outcome).is_connected(),
{
}

/// The connection URL for an endpoint address.
pub fn build_url(conn_str: &str) -> (url: String)
    ensures
        url@ == "http://"@ + conn_str@,
{
    let mut url = String::from_str("http://");
    url.append(conn_str);
    url
}

/// The request one service sends a peer to have a single primitive computed:
/// both arguments go over the wire as encoded literal trees, so a peer call
/// is an ordinary calculation request that the peer reduces in one step.
pub fn peer_request(first: i32, second: i32) -> (req: CalculationRequest)
    ensures
        req.first_arg@ == MathAST::Value(first).spec_encode(),
        req.second_arg@ == MathAST::Value(second).spec_encode(),
{
    let first_arg = encode(&MathAST::Value(first));
    let second_arg = encode(&MathAST::Value(second));
    CalculationRequest { first_arg, second_arg }
}

/// What the orchestrator does with a root expression.
pub enum Dispatch {
    /// The root is already a literal: answer it directly, no call made.
    Immediate(i32),
    /// Hand the request to the service owning the root's operation.
    Delegate(OpKind, CalculationRequest),
}

/// Decide how to run a root expression: a literal is answered on the spot
/// with its own value, and any other tree goes to the service that owns the
/// root operation, its two sides encoded as the request arguments.
pub fn dispatch_root(ast: &MathAST) -> (r: Dispatch)
    ensures
        ast matches MathAST::Value(v) ==> (r matches Dispatch::Immediate(w) && w == v),
        !(ast is Value) ==> (r matches Dispatch::Delegate(op, req) && ast.root_op() == Some(op)
            && req.first_arg@ == ast.children().0.spec_encode() && req.second_arg@
            == ast.children().1.spec_encode()),
{
    match ast {
        MathAST::Value(v) => Dispatch::Immediate(*v),
        MathAST::Add(l, r) => Dispatch::Delegate(
            OpKind::Add,
            CalculationRequest { first_arg: encode(&**l), second_arg: encode(&**r) },
        ),
        MathAST::Subtract(l, r) => Dispatch::Delegate(
            OpKind::Subtract,
            CalculationRequest { first_arg: encode(&**l), second_arg: encode(&**r) },
        ),
        MathAST::Multiply(l, r) => Dispatch::Delegate(
            OpKind::Multiply,
            CalculationRequest { first_arg: encode(&**l), second_arg: encode(&**r) },
        ),
        MathAST::Divide(l, r) => Dispatch::Delegate(
            OpKind::Divide,
            CalculationRequest { first_arg: encode(&**l), second_arg: encode(&**r) },
        ),
    }
}

} // verus!
