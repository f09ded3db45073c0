//! A small arithmetic-expression language: a lexer, a recursive-descent
//! parser, a semantic pass, and an evaluator over a table of variables.
//!
//! A line of input is a list of assignments, separated by semicolons:
//! `r = 2; area = pi * r * r`. Its value is that of its last statement.
//!
//! Numbers are IEEE-754 double-precision values, carried by their bit
//! patterns. The library compares, stores and negates them, and leaves
//! everything that rounds to its caller: when an evaluation reaches a
//! literal or an infix operator it stops with a [`Request`], and goes on
//! when it is given the answer.
//!
//! ```text
//! let mut progress = interpreter.interpret("x = 1 + 2");
//! loop {
//!     match progress {
//!         Progress::Done(result) => break result,
//!         Progress::Need(request) => progress = interpreter.resume(answer(&request)),
//!     }
//! }
//! ```
//!
//! What the parts state of themselves stands with them; what holds of them
//! together stands in [`laws`]: that the parser reads exactly what the
//! grammar derives ([`derivation`]), that lowering a tree to instructions
//! keeps its value, and that a line which passes the semantic pass does not
//! fail on a name.
//!
//! # Known limit
//!
//! Nesting is not bounded. The parser recurses once for each sign and each
//! opening bracket before a factor, and the functions that walk a tree
//! recurse once for each level of it, so input that is nested deeply enough
//! exhausts the stack and ends the process.

pub mod analysis;
pub mod ast;
pub mod derivation;
pub mod error;
pub mod evaluation;
pub mod grammar;
pub mod interpreter;
pub mod laws;
pub mod machine;
pub mod number;
pub mod parser;
pub mod scan;
pub mod semantics;
pub mod session;
pub mod symbol_table;
pub mod text;
pub mod token;
pub mod tokenizer;

pub use ast::{
    AssignNode, BinaryOpNode, BinaryOpType, Expression, NumberNode, StatementListNode,
    UnaryOpNode, UnaryOpType, VarNode,
};
pub use error::{EvalError, InterpreterError, LexError, ParseError, SemanticError};
pub use evaluation::{Evaluation, Instruction, Progress, Request};
pub use interpreter::Interpreter;
pub use number::Number;
pub use parser::Parser;
pub use symbol_table::SymbolTable;
pub use token::Token;
pub use tokenizer::Tokenizer;
