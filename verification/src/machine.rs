//! The stack machine that evaluates a lowered statement list, as a
//! mathematical object: its states, and how one state follows another.
//!
//! The machine does every step by itself but two. For a literal it needs
//! the number that the numeral stands for, and for an infix operator the
//! result of the operation: there it stops with a [`Demand`], and goes on
//! when it is supplied with the answer.

use vstd::prelude::*;
use crate::ast::{Assign, BinaryOpType, Expr, UnaryOpType};
use crate::error::Fault;
use crate::number::Number;
use crate::semantics::{signed, Outcome, Unit};
use crate::symbol_table::{bind, resolve};

verus! {

/// One instruction of the machine.
pub ghost enum Instr {
    /// Pushes the number that the numeral stands for.
    Literal(Seq<char>),
    /// Pushes the value of the name.
    Load(Seq<char>),
    /// Replaces the top of the stack by what the operator makes of it.
    Unary(UnaryOpType),
    /// Replaces the two numbers on top of the stack by what the operator
    /// makes of them, the lower one being the left operand.
    Binary(BinaryOpType),
    /// Takes the top of the stack and binds the name to it.
    Store(Seq<char>),
}

/// What the machine needs from outside to go on.
pub ghost enum Demand {
    /// The number that the numeral stands for.
    Convert(Seq<char>),
    /// What the operator makes of the two numbers.
    Apply(BinaryOpType, Number, Number),
}

/// Where an evaluation stands: it needs an answer, or it has ended.
pub ghost enum Stage {
    Need(Demand),
    Done(Result<Number, Fault>),
}

/// A state of the machine.
pub ghost struct Machine {
    pub code: Seq<Instr>,
    /// The place of the next instruction.
    pub pc: nat,
    pub stack: Seq<Number>,
    /// The value of the last statement that was completed.
    pub last: Number,
    /// The fault that has stopped the machine, if one has.
    pub halted: Option<Fault>,
}

/// A machine after some steps, the variables then, and where it stands.
pub ghost struct Settled {
    pub machine: Machine,
    pub locals: Map<Seq<char>, Number>,
    pub stage: Stage,
}

/// The instructions that compute an expression: those of its operands, from
/// left to right, and then the one of its operator.
pub open spec fn code_of(e: Expr) -> Seq<Instr>
    decreases e,
{
    match e {
        Expr::Number(text) => seq![Instr::Literal(text)],
        Expr::Var(name) => seq![Instr::Load(name)],
        Expr::Unary(op, inner) => code_of(*inner).push(Instr::Unary(op)),
        Expr::Binary(op, left, right) => (code_of(*left) + code_of(*right)).push(
            Instr::Binary(op),
        ),
    }
}

/// The instructions of an assignment: those of its value, and the store.
pub open spec fn code_of_statement(s: Assign) -> Seq<Instr> {
    code_of(s.value).push(Instr::Store(s.target))
}

/// The instructions of the statements, one after the other.
pub open spec fn code_of_statements(statements: Seq<Assign>) -> Seq<Instr>
    decreases statements.len(),
{
    if statements.len() == 0 {
        Seq::empty()
    } else {
        code_of_statement(statements[0]) + code_of_statements(statements.drop_first())
    }
}

impl Machine {
    /// The machine before the first instruction of `code`.
    pub open spec fn start(code: Seq<Instr>) -> Machine {
        Machine { code, pc: 0, stack: Seq::empty(), last: Number::zero(), halted: None }
    }

    /// Whether the machine runs: it has not been stopped and has an
    /// instruction before it.
    pub open spec fn running(self) -> bool {
        self.halted is None && self.pc < self.code.len()
    }

    /// The value that the machine ends with: the top of the stack, or the
    /// value of the last statement where the stack is empty.
    pub open spec fn result(self) -> Number {
        if self.stack.len() > 0 {
            self.stack.last()
        } else {
            self.last
        }
    }

    /// The machine behind the instruction before it, with `stack`.
    pub open spec fn moved(self, stack: Seq<Number>) -> Machine {
        Machine { pc: self.pc + 1, stack, ..self }
    }

    /// What the machine needs in order to go on, if it needs anything: it
    /// runs, and stands before a literal, or before an infix operator with
    /// two numbers on the stack.
    pub open spec fn demand(self) -> Option<Demand> {
        if !self.running() {
            None
        } else {
            match self.code[self.pc as int] {
                Instr::Literal(text) => Some(Demand::Convert(text)),
                Instr::Binary(op) => if self.stack.len() >= 2 {
                    Some(
                        Demand::Apply(
                            op,
                            self.stack[self.stack.len() - 2],
                            self.stack[self.stack.len() - 1],
                        ),
                    )
                } else {
                    None
                },
                _ => None,
            }
        }
    }

    /// Where the machine stands if it does no step by itself.
    pub open spec fn stage(self) -> Stage {
        match self.halted {
            Some(fault) => Stage::Done(Err(fault)),
            None => match self.demand() {
                Some(d) => Stage::Need(d),
                None => Stage::Done(Ok(self.result())),
            },
        }
    }

    /// The machine after it was given `reply` for what it needs. A number
    /// takes the place of the literal or of the two operands. A refusal
    /// stops the machine before a literal, whose numeral is then no number;
    /// before an operator it changes nothing. A machine that needs nothing
    /// stays as it is.
    pub open spec fn supplied(self, reply: Option<Number>) -> Machine {
        match self.demand() {
            None => self,
            Some(Demand::Convert(text)) => match reply {
                Some(n) => self.moved(self.stack.push(n)),
                None => Machine { halted: Some(Fault::InvalidNumber(text)), ..self },
            },
            Some(Demand::Apply(_, _, _)) => match reply {
                Some(n) => self.moved(self.stack.take(self.stack.len() - 2).push(n)),
                None => self,
            },
        }
    }

    /// The step that the machine does by itself, if it can do one, with the
    /// variables after it.
    ///
    /// A load pushes the value of its name, and stops the machine where the
    /// name has none. A prefix operator changes the top of the stack. A
    /// store takes the top of the stack, binds its name to it, and makes it
    /// the value of the last statement. An operator or a store that finds
    /// too few numbers on the stack is passed over; in code that was
    /// lowered from a tree this does not happen.
    pub open spec fn stepped(self, locals: Map<Seq<char>, Number>) -> Option<
        (Machine, Map<Seq<char>, Number>),
    > {
        if !self.running() || self.demand() is Some {
            None
        } else {
            let n = self.stack.len();
            match self.code[self.pc as int] {
                Instr::Literal(_) => None,
                Instr::Load(name) => match resolve(locals, name) {
                    Some(value) => Some((self.moved(self.stack.push(value)), locals)),
                    None => Some((Machine { halted: Some(Fault::Unbound(name)), ..self }, locals)),
                },
                Instr::Unary(op) => if n >= 1 {
                    Some((self.moved(self.stack.take(n - 1).push(signed(op, self.stack[n - 1]))), locals))
                } else {
                    Some((self.moved(self.stack), locals))
                },
                Instr::Binary(_) => Some((self.moved(self.stack), locals)),
                Instr::Store(name) => if n >= 1 {
                    Some(
                        (
                            Machine { last: self.stack[n - 1], ..self.moved(self.stack.take(n - 1)) },
                            bind(locals, name, self.stack[n - 1]),
                        ),
                    )
                } else {
                    Some((self.moved(self.stack), locals))
                },
            }
        }
    }

    /// How far the machine is from its end, at most.
    pub open spec fn distance(self) -> nat {
        if self.halted is Some || self.pc >= self.code.len() {
            0
        } else {
            (2 * (self.code.len() - self.pc)) as nat
        }
    }

    /// The machine after all the steps that it does by itself, from where
    /// it is to where it needs an answer or ends.
    pub open spec fn settled(self, locals: Map<Seq<char>, Number>) -> Settled
        decreases self.distance(),
    {
        match self.stepped(locals) {
            Some((next, bound)) => next.settled(bound),
            None => Settled { machine: self, locals, stage: self.stage() },
        }
    }

    /// What the machine ends with, and the variables then, if each demand
    /// is answered as `unit` says.
    pub open spec fn run(self, locals: Map<Seq<char>, Number>, unit: Unit) -> Outcome
        decreases self.distance(),
    {
        match self.stepped(locals) {
            Some((next, bound)) => next.run(bound, unit),
            None => match self.stage() {
                Stage::Done(result) => Outcome { result, locals },
                Stage::Need(d) => self.supplied(answer(unit, d)).run(locals, unit),
            },
        }
    }
}

/// The answer of `unit` to a demand.
pub open spec fn answer(unit: Unit, d: Demand) -> Option<Number> {
    match d {
        Demand::Convert(text) => (unit.convert)(text),
        Demand::Apply(op, a, b) => Some((unit.apply)(op, a, b)),
    }
}

} // verus!
