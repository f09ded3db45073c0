//! What an expression is worth and what a statement does, for any answers
//! that the caller's arithmetic may give.

use vstd::prelude::*;
use crate::ast::{Assign, BinaryOpType, Expr, UnaryOpType};
use crate::error::Fault;
use crate::number::Number;
use crate::symbol_table::{bind, resolve};

verus! {

/// The arithmetic that the caller brings: how a numeral becomes a number,
/// if it is one, and what an operator makes of two numbers.
pub ghost struct Unit {
    pub convert: spec_fn(Seq<char>) -> Option<Number>,
    pub apply: spec_fn(BinaryOpType, Number, Number) -> Number,
}

/// A value or a fault, and the variables afterwards.
pub ghost struct Outcome {
    pub result: Result<Number, Fault>,
    pub locals: Map<Seq<char>, Number>,
}

/// What a prefix operator makes of a number: `+` nothing, `-` its negation.
pub open spec fn signed(op: UnaryOpType, value: Number) -> Number {
    match op {
        UnaryOpType::PLUS => value,
        UnaryOpType::MINUS => value.negated(),
    }
}

impl Expr {
    /// The value of the expression where the variables are `locals`.
    ///
    /// The operands of an operator are taken from left to right, and the
    /// first fault ends the evaluation.
    pub open spec fn value(self, locals: Map<Seq<char>, Number>, unit: Unit) -> Result<
        Number,
        Fault,
    >
        decreases self,
    {
        match self {
            Expr::Number(text) => match (unit.convert)(text) {
                Some(n) => Ok(n),
                None => Err(Fault::InvalidNumber(text)),
            },
            Expr::Var(name) => match resolve(locals, name) {
                Some(n) => Ok(n),
                None => Err(Fault::Unbound(name)),
            },
            Expr::Unary(op, inner) => match inner.value(locals, unit) {
                Ok(n) => Ok(signed(op, n)),
                Err(fault) => Err(fault),
            },
            Expr::Binary(op, left, right) => match left.value(locals, unit) {
                Err(fault) => Err(fault),
                Ok(a) => match right.value(locals, unit) {
                    Err(fault) => Err(fault),
                    Ok(b) => Ok((unit.apply)(op, a, b)),
                },
            },
        }
    }
}

impl Assign {
    /// What the assignment does where the variables are `locals`: the
    /// value is computed, bound to the target, and returned. A fault leaves
    /// the variables as they were.
    pub open spec fn run(self, locals: Map<Seq<char>, Number>, unit: Unit) -> Outcome {
        match self.value.value(locals, unit) {
            Ok(n) => Outcome { result: Ok(n), locals: bind(locals, self.target, n) },
            Err(fault) => Outcome { result: Err(fault), locals },
        }
    }
}

/// What the statements do, one after the other: the value of the last one
/// is the value of all, and `last` that of none. The first fault ends the
/// run, and what the statements before it have bound stays bound.
pub open spec fn run_statements(
    statements: Seq<Assign>,
    locals: Map<Seq<char>, Number>,
    unit: Unit,
    last: Number,
) -> Outcome
    decreases statements.len(),
{
    if statements.len() == 0 {
        Outcome { result: Ok(last), locals }
    } else {
        let first = statements[0].run(locals, unit);
        match first.result {
            Err(fault) => first,
            Ok(n) => run_statements(statements.drop_first(), first.locals, unit, n),
        }
    }
}

} // verus!
