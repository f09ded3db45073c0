//! A session of the interpreter as a mathematical object: what it holds,
//! and what a line of input and an answer make of it.

use vstd::prelude::*;
use crate::analysis::check_statements;
use crate::ast::Assign;
use crate::error::Fault;
use crate::grammar::parse_line;
use crate::machine::{code_of_statements, Machine, Stage};
use crate::number::Number;
use crate::scan::scan_all;

verus! {

/// What a session holds.
pub ghost struct Session {
    /// The user's variables.
    pub locals: Map<Seq<char>, Number>,
    /// The lines that were evaluated to their end without an error, oldest
    /// first.
    pub history: Seq<Seq<Assign>>,
    /// The evaluation of the current line.
    pub machine: Machine,
    /// The current line, while its evaluation needs an answer.
    pub pending: Option<Seq<Assign>>,
}

/// The statements of a line of input that passes the lexer, the parser and
/// the semantic pass, in this order, or the first fault. The semantic pass
/// starts from the variables `locals` and leaves them as they are.
pub open spec fn front_end(text: Seq<char>, locals: Map<Seq<char>, Number>) -> Result<
    Seq<Assign>,
    Fault,
> {
    match scan_all(text, 0) {
        Err(fault) => Err(fault),
        Ok(tokens) => match parse_line(tokens, 0).result {
            Err(fault) => Err(fault),
            Ok(statements) => match check_statements(statements, locals).result {
                Err(fault) => Err(fault),
                Ok(()) => Ok(statements),
            },
        },
    }
}

impl Session {
    /// A session at its start: no variable, no history, nothing to
    /// evaluate.
    pub open spec fn fresh() -> Session {
        Session {
            locals: Map::empty(),
            history: Seq::empty(),
            machine: Machine::start(Seq::empty()),
            pending: None,
        }
    }

    /// The session with the evaluation of `line` in progress, after the
    /// steps that the machine `from` does by itself, and where the
    /// evaluation then stands. A line that has ended without an error joins
    /// the history; one that has ended with an error is dropped.
    pub open spec fn proceeded(self, line: Option<Seq<Assign>>, from: Machine) -> (Session, Stage) {
        let settled = from.settled(self.locals);
        let next = Session {
            locals: settled.locals,
            history: match (settled.stage, line) {
                (Stage::Done(Ok(_)), Some(statements)) => self.history.push(statements),
                _ => self.history,
            },
            machine: settled.machine,
            pending: match settled.stage {
                Stage::Need(_) => line,
                Stage::Done(_) => None,
            },
        };
        (next, settled.stage)
    }

    /// The session after the line `text` was given to it, and where the
    /// evaluation of the line stands. An evaluation that was in progress is
    /// given up. A line that does not pass the front end changes nothing
    /// else.
    pub open spec fn interpreted(self, text: Seq<char>) -> (Session, Stage) {
        match front_end(text, self.locals) {
            Err(fault) => (
                Session { machine: Machine::start(Seq::empty()), pending: None, ..self },
                Stage::Done(Err(fault)),
            ),
            Ok(statements) => self.proceeded(
                Some(statements),
                Machine::start(code_of_statements(statements)),
            ),
        }
    }

    /// The session after `reply` was given to it, and where the evaluation
    /// then stands.
    pub open spec fn resumed(self, reply: Option<Number>) -> (Session, Stage) {
        self.proceeded(self.pending, self.machine.supplied(reply))
    }

    /// The session after its state was cleared.
    pub open spec fn cleared(self) -> Session {
        Session::fresh()
    }
}

} // verus!
