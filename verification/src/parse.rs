//! The expression tree and its reduction semantics.

use crate::arith::{prim_add, prim_divide, prim_multiply, prim_subtract};
use crate::arith::{spec_add, spec_divide, spec_multiply, spec_subtract};
use crate::server::Error;
use vstd::pervasive::unreached;
use vstd::prelude::*;

verus! {

/// A finite arithmetic expression over 32-bit signed integers: a literal, or
/// one of the four operations applied to two sub-expressions.
#[derive(Debug, PartialEq)]
pub enum MathAST {
    Value(i32),
    Add(Box<MathAST>, Box<MathAST>),
    Subtract(Box<MathAST>, Box<MathAST>),
    Multiply(Box<MathAST>, Box<MathAST>),
    Divide(Box<MathAST>, Box<MathAST>),
}

impl MathAST {
    /// The number of operation nodes above the deepest leaf: a literal has
    /// depth zero, an operation is one deeper than its deeper side.
    pub open spec fn depth(self) -> nat
        decreases self,
    {
        match self {
            MathAST::Value(_) => 0,
            MathAST::Add(l, r) => 1 + if l.depth() >= r.depth() {
                l.depth()
            } else {
                r.depth()
            },
            MathAST::Subtract(l, r) => 1 + if l.depth() >= r.depth() {
                l.depth()
            } else {
                r.depth()
            },
            MathAST::Multiply(l, r) => 1 + if l.depth() >= r.depth() {
                l.depth()
            } else {
                r.depth()
            },
            MathAST::Divide(l, r) => 1 + if l.depth() >= r.depth() {
                l.depth()
            } else {
                r.depth()
            },
        }
    }

    /// The value of the tree, or `None` if some division in it has a zero
    /// divisor.  Addition, subtraction and multiplication wrap; division
    /// truncates toward zero.
    pub open spec fn spec_eval(self) -> Option<i32>
        decreases self,
    {
        match self {
            MathAST::Value(v) => Some(v),
            MathAST::Add(l, r) => match (l.spec_eval(), r.spec_eval()) {
                (Some(a), Some(b)) => Some(spec_add(a, b)),
                _ => None,
            },
            MathAST::Subtract(l, r) => match (l.spec_eval(), r.spec_eval()) {
                (Some(a), Some(b)) => Some(spec_subtract(a, b)),
                _ => None,
            },
            MathAST::Multiply(l, r) => match (l.spec_eval(), r.spec_eval()) {
                (Some(a), Some(b)) => Some(spec_multiply(a, b)),
                _ => None,
            },
            MathAST::Divide(l, r) => match (l.spec_eval(), r.spec_eval()) {
                (Some(a), Some(b)) => if b == 0 {
                    None
                } else {
                    Some(spec_divide(a, b))
                },
                _ => None,
            },
        }
    }

    /// The operation at the root, or `None` for a literal.
    pub open spec fn root_op(self) -> Option<OpKind> {
        match self {
            MathAST::Value(_) => None,
            MathAST::Add(_, _) => Some(OpKind::Add),
            MathAST::Subtract(_, _) => Some(OpKind::Subtract),
            MathAST::Multiply(_, _) => Some(OpKind::Multiply),
            MathAST::Divide(_, _) => Some(OpKind::Divide),
        }
    }

    /// The two sides of an operation node; a literal, which has none, stands
    /// in for both of its own.
    pub open spec fn children(self) -> (MathAST, MathAST) {
        match self {
            MathAST::Value(_) => (self, self),
            MathAST::Add(l, r) => (*l, *r),
            MathAST::Subtract(l, r) => (*l, *r),
            MathAST::Multiply(l, r) => (*l, *r),
            MathAST::Divide(l, r) => (*l, *r),
        }
    }

    /// One reduction of the tree: every operation node whose two sides are
    /// both literals becomes the literal result of its primitive, and every
    /// other operation node keeps its kind with both sides reduced.  A literal
    /// is a fixed point, and so is a division whose two literal sides have a
    /// zero divisor: reduction leaves it in place, and evaluation reports it.
    pub open spec fn spec_step(self) -> MathAST
        decreases self,
    {
        match self {
            MathAST::Value(v) => MathAST::Value(v),
            MathAST::Add(l, r) => match (*l, *r) {
                (MathAST::Value(a), MathAST::Value(b)) => MathAST::Value(spec_add(a, b)),
                (x, y) => MathAST::Add(Box::new(x.spec_step()), Box::new(y.spec_step())),
            },
            MathAST::Subtract(l, r) => match (*l, *r) {
                (MathAST::Value(a), MathAST::Value(b)) => MathAST::Value(spec_subtract(a, b)),
                (x, y) => MathAST::Subtract(Box::new(x.spec_step()), Box::new(y.spec_step())),
            },
            MathAST::Multiply(l, r) => match (*l, *r) {
                (MathAST::Value(a), MathAST::Value(b)) => MathAST::Value(spec_multiply(a, b)),
                (x, y) => MathAST::Multiply(Box::new(x.spec_step()), Box::new(y.spec_step())),
            },
            MathAST::Divide(l, r) => match (*l, *r) {
                (MathAST::Value(a), MathAST::Value(b)) => if b == 0 {
                    MathAST::Divide(Box::new(MathAST::Value(a)), Box::new(MathAST::Value(b)))
                } else {
                    MathAST::Value(spec_divide(a, b))
                },
                (x, y) => MathAST::Divide(Box::new(x.spec_step()), Box::new(y.spec_step())),
            },
        }
    }

    /// The tree after `n` reductions.
    pub open spec fn spec_steps(self, n: nat) -> MathAST
        decreases n,
    {
        if n == 0 {
            self
        } else {
            self.spec_step().spec_steps((n - 1) as nat)
        }
    }

    /// Reduction never changes what the tree evaluates to.
    pub proof fn lemma_step_preserves_eval(self)
        ensures
            self.spec_step().spec_eval() == self.spec_eval(),
        decreases self,
    {
        match self {
            MathAST::Value(_) => {},
            MathAST::Add(l, r) => {
                l.lemma_step_preserves_eval();
                r.lemma_step_preserves_eval();
            },
            MathAST::Subtract(l, r) => {
                l.lemma_step_preserves_eval();
                r.lemma_step_preserves_eval();
            },
            MathAST::Multiply(l, r) => {
                l.lemma_step_preserves_eval();
                r.lemma_step_preserves_eval();
            },
            MathAST::Divide(l, r) => {
                l.lemma_step_preserves_eval();
                r.lemma_step_preserves_eval();
            },
        }
    }

    /// On a tree that evaluates to a value, every reduction of a non-literal
    /// strictly lowers the depth.
    pub proof fn lemma_step_decreases_depth(self)
        requires
            !(self is Value),
            self.spec_eval() is Some,
        ensures
            self.spec_step().depth() < self.depth(),
        decreases self,
    {
        match self {
            MathAST::Value(_) => {},
            MathAST::Add(l, r) => {
                if !(*l is Value) {
                    l.lemma_step_decreases_depth();
                }
                if !(*r is Value) {
                    r.lemma_step_decreases_depth();
                }
            },
            MathAST::Subtract(l, r) => {
                if !(*l is Value) {
                    l.lemma_step_decreases_depth();
                }
                if !(*r is Value) {
                    r.lemma_step_decreases_depth();
                }
            },
            MathAST::Multiply(l, r) => {
                if !(*l is Value) {
                    l.lemma_step_decreases_depth();
                }
                if !(*r is Value) {
                    r.lemma_step_decreases_depth();
                }
            },
            MathAST::Divide(l, r) => {
                if !(*l is Value) {
                    l.lemma_step_decreases_depth();
                }
                if !(*r is Value) {
                    r.lemma_step_decreases_depth();
                }
            },
        }
    }

    /// Extra reductions of a literal change nothing.
    pub proof fn lemma_value_steps(self, n: nat)
        requires
            self is Value,
        ensures
            self.spec_steps(n) == self,
        decreases n,
    {
        if n > 0 {
            self.lemma_value_steps((n - 1) as nat);
        }
    }

    /// Reductions compose: `a + b` reductions are `a` reductions then `b`.
    pub proof fn lemma_steps_compose(self, a: nat, b: nat)
        ensures
            self.spec_steps(a + b) == self.spec_steps(a).spec_steps(b),
        decreases a,
    {
        if a > 0 {
            self.spec_step().lemma_steps_compose((a - 1) as nat, b);
        }
    }

    /// Convergence of the reducer: a tree with no division by zero reduces to
    /// the literal of its value in at most `depth` reductions.
    pub proof fn lemma_reducer_converges(self)
        ensures
            self.spec_eval() matches Some(v) ==> self.spec_steps(self.depth()) == MathAST::Value(
                v,
            ),
        decreases self.depth(),
    {
        if self.spec_eval() is Some {
            if self is Value {
            } else {
                let stepped = self.spec_step();
                self.lemma_step_preserves_eval();
                self.lemma_step_decreases_depth();
                stepped.lemma_reducer_converges();
                let d = self.depth();
                let d1 = stepped.depth();
                stepped.lemma_steps_compose(d1, (d - 1 - d1) as nat);
                stepped.spec_steps(d1).lemma_value_steps((d - 1 - d1) as nat);
                assert(self.spec_steps(d) == stepped.spec_steps((d - 1) as nat));
            }
        }
    }
}

/// One of the four operations: a tree case, and the role of the service that
/// owns it.
#[derive(Debug, Clone, Copy, PartialEq, Eq, Structural)]
pub enum OpKind {
    Add,
    Subtract,
    Multiply,
    Divide,
}

impl OpKind {
    /// The tree with this operation at the root and the given two sides.
    pub open spec fn spec_apply(self, l: MathAST, r: MathAST) -> MathAST {
        match self {
            OpKind::Add => MathAST::Add(Box::new(l), Box::new(r)),
            OpKind::Subtract => MathAST::Subtract(Box::new(l), Box::new(r)),
            OpKind::Multiply => MathAST::Multiply(Box::new(l), Box::new(r)),
            OpKind::Divide => MathAST::Divide(Box::new(l), Box::new(r)),
        }
    }

    /// Build the tree with this operation at the root.
    pub fn apply(self, l: MathAST, r: MathAST) -> (t: MathAST)
        ensures
            t == self.spec_apply(l, r),
    {
        match self {
            OpKind::Add => MathAST::Add(Box::new(l), Box::new(r)),
            OpKind::Subtract => MathAST::Subtract(Box::new(l), Box::new(r)),
            OpKind::Multiply => MathAST::Multiply(Box::new(l), Box::new(r)),
            OpKind::Divide => MathAST::Divide(Box::new(l), Box::new(r)),
        }
    }

    /// What the operation yields on two values: the wrapping sum, difference
    /// or product, or the truncated quotient — absent for a zero divisor.
    pub open spec fn spec_eval_on(self, a: i32, b: i32) -> Option<i32> {
        match self {
            OpKind::Add => Some(spec_add(a, b)),
            OpKind::Subtract => Some(spec_subtract(a, b)),
            OpKind::Multiply => Some(spec_multiply(a, b)),
            OpKind::Divide => if b == 0 {
                None
            } else {
                Some(spec_divide(a, b))
            },
        }
    }
}

/// Splitting a non-literal tree at its root and recombining it changes
/// nothing, so the tree the owning service reassembles from a dispatched
/// root evaluates to exactly the value of the original: distributed
/// evaluation and single-host evaluation agree.
pub proof fn lemma_dispatch_equivalence(ast: MathAST, op: OpKind, l: MathAST, r: MathAST)
    requires
        ast.root_op() == Some(op),
        ast.children() == (l, r),
    ensures
        op.spec_apply(l, r) == ast,
        op.spec_apply(l, r).spec_eval() == ast.spec_eval(),
{
}

/// An operation over two literals evaluates to its primitive's answer,
/// whenever that primitive is defined.  In particular a delegated primitive
/// terminates at the peer in one reduction: the tree a peer reassembles from
/// two literal arguments evaluates directly, so no chain of peer calls can
/// form.
pub proof fn lemma_peer_call_is_primitive(op: OpKind, a: i32, b: i32)
    ensures
        op.spec_apply(MathAST::Value(a), MathAST::Value(b)).spec_eval() == op.spec_eval_on(a, b),
        op.spec_apply(MathAST::Value(a), MathAST::Value(b)).depth() == 1,
{
    assert(MathAST::Value(a).spec_eval() == Some(a));
    assert(MathAST::Value(b).spec_eval() == Some(b));
    assert(MathAST::Value(a).depth() == 0);
    assert(MathAST::Value(b).depth() == 0);
}

/// Evaluation is a function of the tree alone, so two successful runs on the
/// same tree — submitting it to the fleet twice in sequence, say — return
/// the same integer.
pub proof fn lemma_evaluation_deterministic(ast: MathAST, v1: i32, v2: i32)
    requires
        ast.spec_eval() == Some(v1),
        ast.spec_eval() == Some(v2),
    ensures
        v1 == v2,
{
}

/// The evaluator contract every operator service implements.
///
/// An implementor supplies the four primitives; each one either computes the
/// operation of [`crate::arith`] or delegates it to a peer, and may fail.  The
/// provided [`eval`](Self::eval) performs one reduction of a tree with those
/// primitives.  The two spec members classify the implementor: a `reliable`
/// evaluator is one whose primitives always answer — in-process arithmetic,
/// as opposed to delegation over a network — and `div_zero_err` is the error
/// it returns for a zero divisor.
pub trait MathASTEvaluator<E>: Sized {
    /// Whether the four primitives are guaranteed to answer whenever the
    /// operation itself is defined.
    spec fn reliable(&self) -> bool;

    /// The error this evaluator surfaces for a division by zero.
    spec fn div_zero_err(&self) -> E;

    /// The addition primitive: on success, the wrapping sum.
    fn add(&self, first: i32, second: i32) -> (r: Result<i32, E>)
        ensures
            r matches Ok(v) ==> v == spec_add(first, second),
            self.reliable() ==> r is Ok,
    ;

    /// The subtraction primitive: on success, the wrapping difference.
    fn subtract(&self, first: i32, second: i32) -> (r: Result<i32, E>)
        ensures
            r matches Ok(v) ==> v == spec_subtract(first, second),
            self.reliable() ==> r is Ok,
    ;

    /// The multiplication primitive: on success, the wrapping product.
    fn multiply(&self, first: i32, second: i32) -> (r: Result<i32, E>)
        ensures
            r matches Ok(v) ==> v == spec_multiply(first, second),
            self.reliable() ==> r is Ok,
    ;

    /// The division primitive: on success, the divisor was non-zero and the
    /// result is the truncated quotient.  A reliable evaluator answers every
    /// division with a non-zero divisor and reports its division-by-zero
    /// error for the rest.
    fn divide(&self, first: i32, second: i32) -> (r: Result<i32, E>)
        ensures
            r matches Ok(v) ==> second != 0 && v == spec_divide(first, second),
            self.reliable() && second != 0 ==> r == Ok::<i32, E>(spec_divide(first, second)),
            self.reliable() && second == 0 ==> r == Err::<i32, E>(self.div_zero_err()),
    ;

}

/// One reduction of `ast` with the given evaluator's primitives: every
/// operation node over two literals becomes the literal answer of the
/// matching primitive, every other node is reduced on both sides.  The first
/// failing primitive aborts the walk and its error is returned.
pub fn eval<E, T: MathASTEvaluator<E>>(service: &T, ast: MathAST) -> (r: Result<MathAST, E>)
    ensures
        ast is Value ==> r == Ok::<MathAST, E>(ast),
        r matches Ok(reduced) ==> reduced.spec_eval() == ast.spec_eval() && (!(ast is Value)
            ==> reduced.depth() < ast.depth()),
        service.reliable() && ast.spec_eval() is Some ==> r is Ok,
        service.reliable() ==> (r matches Err(e) ==> e == service.div_zero_err() && ast.spec_eval()
            is None),
        service.reliable() ==> (r matches Ok(reduced) ==> reduced == ast.spec_step()),
    decreases ast,
{
    match ast {
        MathAST::Value(_) => Ok(ast),
        MathAST::Add(f, s) => match (*f, *s) {
            (MathAST::Value(first), MathAST::Value(second)) => {
                proof {
                    assert(MathAST::Value(first).spec_eval() == Some(first));
                    assert(MathAST::Value(second).spec_eval() == Some(second));
                }
                Ok(MathAST::Value(service.add(first, second)?))
            },
            (first, second) => Ok(
                MathAST::Add(Box::new(eval(service, first)?), Box::new(eval(service, second)?)),
            ),
        },
        MathAST::Subtract(f, s) => match (*f, *s) {
            (MathAST::Value(first), MathAST::Value(second)) => {
                proof {
                    assert(MathAST::Value(first).spec_eval() == Some(first));
                    assert(MathAST::Value(second).spec_eval() == Some(second));
                }
                Ok(MathAST::Value(service.subtract(first, second)?))
            },
            (first, second) => Ok(
                MathAST::Subtract(
                    Box::new(eval(service, first)?),
                    Box::new(eval(service, second)?),
                ),
            ),
        },
        MathAST::Multiply(f, s) => match (*f, *s) {
            (MathAST::Value(first), MathAST::Value(second)) => {
                proof {
                    assert(MathAST::Value(first).spec_eval() == Some(first));
                    assert(MathAST::Value(second).spec_eval() == Some(second));
                }
                Ok(MathAST::Value(service.multiply(first, second)?))
            },
            (first, second) => Ok(
                MathAST::Multiply(
                    Box::new(eval(service, first)?),
                    Box::new(eval(service, second)?),
                ),
            ),
        },
        MathAST::Divide(f, s) => match (*f, *s) {
            (MathAST::Value(first), MathAST::Value(second)) => {
                proof {
                    assert(MathAST::Value(first).spec_eval() == Some(first));
                    assert(MathAST::Value(second).spec_eval() == Some(second));
                }
                Ok(MathAST::Value(service.divide(first, second)?))
            },
            (first, second) => Ok(
                MathAST::Divide(
                    Box::new(eval(service, first)?),
                    Box::new(eval(service, second)?),
                ),
            ),
        },
    }
}

/// The in-process evaluator: all four primitives computed locally, as the
/// test harness and the owner side of each operator service run them.
pub struct LocalEvaluator;

impl MathASTEvaluator<Error> for LocalEvaluator {
    open spec fn reliable(&self) -> bool {
        true
    }

    open spec fn div_zero_err(&self) -> Error {
        Error::DivisionByZero
    }

    fn add(&self, first: i32, second: i32) -> (r: Result<i32, Error>) {
        Ok(prim_add(first, second))
    }

    fn subtract(&self, first: i32, second: i32) -> (r: Result<i32, Error>) {
        Ok(prim_subtract(first, second))
    }

    fn multiply(&self, first: i32, second: i32) -> (r: Result<i32, Error>) {
        Ok(prim_multiply(first, second))
    }

    fn divide(&self, first: i32, second: i32) -> (r: Result<i32, Error>) {
        if second == 0 {
            Err(Error::DivisionByZero)
        } else {
            Ok(prim_divide(first, second))
        }
    }
}

/// Reduce `ast` with the given evaluator until it is a single literal, and
/// return that literal tree.  Success pins the answer: the returned literal
/// holds the one value the tree evaluates to.
pub fn try_from_ast<E, T: MathASTEvaluator<E>>(service: &T, ast: MathAST) -> (r: Result<
    MathAST,
    E,
>)
    ensures
        ast is Value ==> r == Ok::<MathAST, E>(ast),
        r matches Ok(reduced) ==> ast.spec_eval() matches Some(v) && reduced == MathAST::Value(v),
        service.reliable() && ast.spec_eval() is Some ==> r is Ok,
        service.reliable() ==> (r matches Err(e) ==> e == service.div_zero_err() && ast.spec_eval()
            is None),
    decreases ast.depth(),
{
    if let MathAST::Value(_) = &ast {
        Ok(ast)
    } else {
        let next = eval(service, ast)?;
        try_from_ast(service, next)
    }
}

/// Evaluate `ast` to its integer value with the given evaluator.  A literal
/// is its own value, whatever the evaluator: no primitive is consulted.
pub fn evaluate<E, T: MathASTEvaluator<E>>(service: &T, ast: MathAST) -> (r: Result<i32, E>)
    ensures
        ast matches MathAST::Value(v) ==> r == Ok::<i32, E>(v),
        r matches Ok(v) ==> ast.spec_eval() == Some(v),
        service.reliable() && ast.spec_eval() is Some ==> r is Ok,
        service.reliable() ==> (r matches Err(e) ==> e == service.div_zero_err() && ast.spec_eval()
            is None),
{
    match try_from_ast(service, ast) {
        Ok(MathAST::Value(v)) => Ok(v),
        Ok(_) => unreached(),
        Err(e) => Err(e),
    }
}

impl Clone for MathAST {
    /// A deep copy of the tree, equal to the original.
    fn clone(&self) -> (r: Self)
        ensures
            r == *self,
        decreases *self,
    {
        match self {
            MathAST::Value(v) => MathAST::Value(*v),
            MathAST::Add(l, r) => MathAST::Add(Box::new((**l).clone()), Box::new((**r).clone())),
            MathAST::Subtract(l, r) => MathAST::Subtract(
                Box::new((**l).clone()),
                Box::new((**r).clone()),
            ),
            MathAST::Multiply(l, r) => MathAST::Multiply(
                Box::new((**l).clone()),
                Box::new((**r).clone()),
            ),
            MathAST::Divide(l, r) => MathAST::Divide(
                Box::new((**l).clone()),
                Box::new((**r).clone()),
            ),
        }
    }
}

/// Fixture tree for `((3 + 3) * 2 / 4) - 2`, which evaluates to `1`.
pub fn test_value() -> (r: MathAST)
    ensures
        r == MathAST::Subtract(
            Box::new(
                MathAST::Divide(
                    Box::new(
                        MathAST::Multiply(
                            Box::new(
                                MathAST::Add(
                                    Box::new(MathAST::Value(3)),
                                    Box::new(MathAST::Value(3)),
                                ),
                            ),
                            Box::new(MathAST::Value(2)),
                        ),
                    ),
                    Box::new(MathAST::Value(4)),
                ),
            ),
            Box::new(MathAST::Value(2)),
        ),
{
    MathAST::Subtract(
        Box::new(
            MathAST::Divide(
                Box::new(
                    MathAST::Multiply(
                        Box::new(
                            MathAST::Add(Box::new(MathAST::Value(3)), Box::new(MathAST::Value(3))),
                        ),
                        Box::new(MathAST::Value(2)),
                    ),
                ),
                Box::new(MathAST::Value(4)),
            ),
        ),
        Box::new(MathAST::Value(2)),
    )
}

} // verus!
