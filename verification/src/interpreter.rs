use vstd::prelude::*;
use crate::ast::{Assign, StatementListNode};
use crate::error::InterpreterError;
use crate::evaluation::{Evaluation, Progress};
use crate::machine::Stage;
use crate::number::Number;
use crate::parser::Parser;
use crate::session::Session;
use crate::symbol_table::{resolve, SymbolTable};
use crate::tokenizer::Tokenizer;

verus! {

/// A session: the variables, the lines evaluated so far, and the
/// evaluation of the current line.
pub struct Interpreter {
    symtab: SymbolTable,
    nodes: Vec<StatementListNode>,
    running: Evaluation,
    pending: Option<StatementListNode>,
}

impl View for Interpreter {
    type V = Session;

    closed spec fn view(&self) -> Session {
        Session {
            locals: self.symtab.locals(),
            history: self.nodes@.map_values(|line: StatementListNode| line@),
            machine: self.running@,
            pending: match self.pending {
                Some(line) => Some(line@),
                None => None,
            },
        }
    }
}

impl Interpreter {
    /// A session at its start.
    pub fn new() -> (r: Interpreter)
        ensures
            r@ == Session::fresh(),
    {
        let r = Interpreter {
            symtab: SymbolTable::new(),
            nodes: Vec::new(),
            running: Evaluation::idle(),
            pending: None,
        };
        assert(r@.history =~= Seq::<Seq<Assign>>::empty());
        r
    }

    /// Files the current line according to where its evaluation stands.
    fn conclude(&mut self, progress: &Progress)
        ensures
            final(self)@ == (Session {
                history: match (progress@, old(self)@.pending) {
                    (Stage::Done(Ok(_)), Some(statements)) => old(self)@.history.push(statements),
                    _ => old(self)@.history,
                },
                pending: match progress@ {
                    Stage::Need(_) => old(self)@.pending,
                    Stage::Done(_) => None,
                },
                ..old(self)@
            }),
    {
        let ghost before = self@;
        match progress {
            Progress::Need(_) => {},
            Progress::Done(Ok(_)) => {
                match self.pending.take() {
                    Some(line) => {
                        self.nodes.push(line);
                        assert(self@.history =~= before.history.push(line@));
                    },
                    None => {},
                }
            },
            Progress::Done(Err(_)) => {
                self.pending = None;
            },
        }
    }

    /// Takes a line of input through the lexer, the parser and the
    /// semantic pass, and starts to evaluate it.
    ///
    /// The result says where the evaluation stands: at a request, which
    /// [`Interpreter::resume`] takes the answer to, or at its end, with the
    /// value of the last statement or with the error that ended it.
    pub fn interpret(&mut self, content: &str) -> (r: Progress)
        ensures
            (final(self)@, r@) == old(self)@.interpreted(content@),
    {
        self.running = Evaluation::idle();
        self.pending = None;
        let mut tokenizer = Tokenizer::new(content);
        let tokens = match tokenizer.try_collect() {
            Ok(tokens) => tokens,
            Err(e) => {
                return Progress::Done(Err(InterpreterError::Lex(e)));
            },
        };
        let mut parser = Parser::new(tokens);
        let tree = match parser.parse() {
            Ok(tree) => tree,
            Err(e) => {
                return Progress::Done(Err(InterpreterError::Parse(e)));
            },
        };
        let mut scratch = self.symtab.clone();
        match tree.check_semantic(&mut scratch) {
            Ok(()) => {},
            Err(e) => {
                return Progress::Done(Err(InterpreterError::Semantic(e)));
            },
        }
        self.running = Evaluation::of_statements(&tree);
        self.pending = Some(*tree);
        let progress = self.running.advance(&mut self.symtab);
        self.conclude(&progress);
        progress
    }

    /// Takes the answer to the request that the evaluation of the current
    /// line stands at, and goes on with it. See [`Evaluation::resume`] for
    /// what `None` does. Where no evaluation is in progress, the result of
    /// the last one is given again.
    pub fn resume(&mut self, reply: Option<Number>) -> (r: Progress)
        ensures
            (final(self)@, r@) == old(self)@.resumed(reply),
    {
        let progress = self.running.resume(&mut self.symtab, reply);
        self.conclude(&progress);
        progress
    }

    /// Forgets the user's variables and the history, and gives up an
    /// evaluation in progress. The built-in constants stay.
    pub fn clear_state(&mut self)
        ensures
            final(self)@ == old(self)@.cleared(),
    {
        self.nodes = Vec::new();
        self.symtab.clear();
        self.running = Evaluation::idle();
        self.pending = None;
        assert(self@.history =~= Seq::<Seq<Assign>>::empty());
    }

    /// The lines that were evaluated to their end without an error, oldest
    /// first.
    pub fn history(&self) -> (r: &Vec<StatementListNode>)
        ensures
            r@.map_values(|line: StatementListNode| line@) == self@.history,
    {
        &self.nodes
    }

    /// The value of `symbol`, if it has one: that of the built-in constant
    /// of this name, or else that of the user's variable.
    pub fn query(&self, symbol: &String) -> (r: Option<Number>)
        ensures
            r == resolve(self@.locals, symbol@),
    {
        self.symtab.get(symbol)
    }
}

} // verus!
