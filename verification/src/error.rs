use vstd::prelude::*;
use vstd::string::StringExecFns;
use crate::token::{Tok, Token};

verus! {

/// What an error value stands for, whichever of the error types holds it.
pub ghost enum Fault {
    /// A character that starts no token.
    InvalidSyntax(char),
    /// A numeral that is not a number.
    InvalidNumber(Seq<char>),
    /// A token that cannot continue the production being parsed.
    UnexpectedToken(Tok),
    /// The input ended in the middle of a production.
    UnexpectedEOF,
    /// A name that the semantic pass could not resolve.
    UndefinedSymbol(Seq<char>),
    /// An assignment to a built-in constant.
    RedefineBuiltin(Seq<char>),
    /// A name that had no value when it was evaluated.
    Unbound(Seq<char>),
}

/// The lexer's errors.
#[derive(Debug)]
pub enum LexError {
    InvalidSyntax(char),
    InvalidNumber(String),
}

/// The parser's errors.
#[derive(Debug)]
pub enum ParseError {
    UnexpectedToken(Token),
    UnexpectedEOF,
}

/// The errors of the semantic pass.
#[derive(Debug)]
pub enum SemanticError {
    UndefinedSymbol(String),
    RedefineBuiltin(String),
}

/// The evaluator's errors.
#[derive(Debug)]
pub enum EvalError {
    UndefinedSymbol(String),
}

/// Any error of the interpreter, by the stage that raised it.
#[derive(Debug)]
pub enum InterpreterError {
    Lex(LexError),
    Parse(ParseError),
    Semantic(SemanticError),
    Eval(EvalError),
}

impl View for LexError {
    type V = Fault;

    open spec fn view(&self) -> Fault {
        match self {
            LexError::InvalidSyntax(c) => Fault::InvalidSyntax(*c),
            LexError::InvalidNumber(text) => Fault::InvalidNumber(text@),
        }
    }
}

impl View for ParseError {
    type V = Fault;

    open spec fn view(&self) -> Fault {
        match self {
            ParseError::UnexpectedToken(token) => Fault::UnexpectedToken(token@),
            ParseError::UnexpectedEOF => Fault::UnexpectedEOF,
        }
    }
}

impl View for SemanticError {
    type V = Fault;

    open spec fn view(&self) -> Fault {
        match self {
            SemanticError::UndefinedSymbol(name) => Fault::UndefinedSymbol(name@),
            SemanticError::RedefineBuiltin(name) => Fault::RedefineBuiltin(name@),
        }
    }
}

impl View for EvalError {
    type V = Fault;

    open spec fn view(&self) -> Fault {
        match self {
            EvalError::UndefinedSymbol(name) => Fault::Unbound(name@),
        }
    }
}

impl View for InterpreterError {
    type V = Fault;

    open spec fn view(&self) -> Fault {
        match self {
            InterpreterError::Lex(e) => e@,
            InterpreterError::Parse(e) => e@,
            InterpreterError::Semantic(e) => e@,
            InterpreterError::Eval(e) => e@,
        }
    }
}

impl Clone for LexError {
    fn clone(&self) -> (r: LexError)
        ensures
            r@ == self@,
    {
        match self {
            LexError::InvalidSyntax(c) => LexError::InvalidSyntax(*c),
            LexError::InvalidNumber(text) => LexError::InvalidNumber(text.clone()),
        }
    }
}

impl Clone for ParseError {
    fn clone(&self) -> (r: ParseError)
        ensures
            r@ == self@,
    {
        match self {
            ParseError::UnexpectedToken(token) => ParseError::UnexpectedToken(token.clone()),
            ParseError::UnexpectedEOF => ParseError::UnexpectedEOF,
        }
    }
}

impl Clone for SemanticError {
    fn clone(&self) -> (r: SemanticError)
        ensures
            r@ == self@,
    {
        match self {
            SemanticError::UndefinedSymbol(name) => SemanticError::UndefinedSymbol(name.clone()),
            SemanticError::RedefineBuiltin(name) => SemanticError::RedefineBuiltin(name.clone()),
        }
    }
}

impl Clone for EvalError {
    fn clone(&self) -> (r: EvalError)
        ensures
            r@ == self@,
    {
        match self {
            EvalError::UndefinedSymbol(name) => EvalError::UndefinedSymbol(name.clone()),
        }
    }
}

impl Clone for InterpreterError {
    fn clone(&self) -> (r: InterpreterError)
        ensures
            r@ == self@,
    {
        match self {
            InterpreterError::Lex(e) => InterpreterError::Lex(e.clone()),
            InterpreterError::Parse(e) => InterpreterError::Parse(e.clone()),
            InterpreterError::Semantic(e) => InterpreterError::Semantic(e.clone()),
            InterpreterError::Eval(e) => InterpreterError::Eval(e.clone()),
        }
    }
}

impl Tok {
    /// The token written out: its variant's name, and for a numeral or an
    /// identifier its text in round brackets, an identifier's in double
    /// quotes.
    pub open spec fn text(self) -> Seq<char> {
        match self {
            Tok::Number(text) => "NUMBER("@ + text + ")"@,
            Tok::Id(name) => "ID(\""@ + name + "\")"@,
            Tok::E => "E"@,
            Tok::Pi => "PI"@,
            Tok::Plus => "PLUS"@,
            Tok::Minus => "MINUS"@,
            Tok::Mul => "MUL"@,
            Tok::Div => "DIV"@,
            Tok::LParen => "LPAREN"@,
            Tok::RParen => "RPAREN"@,
            Tok::Comma => "COMMA"@,
            Tok::Dot => "DOT"@,
            Tok::Assign => "ASSIGN"@,
            Tok::Semi => "SEMI"@,
            Tok::Eof => "EOF"@,
        }
    }
}

impl Fault {
    /// The message that reports the fault to a reader.
    pub open spec fn message(self) -> Seq<char> {
        match self {
            Fault::InvalidSyntax(c) => "Invalid syntax: "@.push(c),
            Fault::InvalidNumber(text) => "Invalid number: "@ + text,
            Fault::UnexpectedToken(token) => "Unexpected token: "@ + token.text(),
            Fault::UnexpectedEOF => "End of file."@,
            Fault::UndefinedSymbol(name) => "Undefined symbol: "@ + name,
            Fault::RedefineBuiltin(name) => "Redefine builtin symbol: "@ + name,
            Fault::Unbound(name) => "Undefined symbol: "@ + name,
        }
    }
}

impl Token {
    /// The token written out, as [`Tok::text`] defines it.
    pub fn describe(&self) -> (r: String)
        ensures
            r@ == self@.text(),
    {
        match self {
            Token::NUMBER(text) => {
                let mut out = String::from_str("NUMBER(");
                out.append(text.as_str());
                out.append(")");
                out
            },
            Token::ID(name) => {
                let mut out = String::from_str("ID(\"");
                out.append(name.as_str());
                out.append("\")");
                out
            },
            Token::E => String::from_str("E"),
            Token::PI => String::from_str("PI"),
            Token::PLUS => String::from_str("PLUS"),
            Token::MINUS => String::from_str("MINUS"),
            Token::MUL => String::from_str("MUL"),
            Token::DIV => String::from_str("DIV"),
            Token::LPAREN => String::from_str("LPAREN"),
            Token::RPAREN => String::from_str("RPAREN"),
            Token::COMMA => String::from_str("COMMA"),
            Token::DOT => String::from_str("DOT"),
            Token::ASSIGN => String::from_str("ASSIGN"),
            Token::SEMI => String::from_str("SEMI"),
            Token::EOF => String::from_str("EOF"),
        }
    }
}

impl LexError {
    /// The message that reports the error to a reader.
    pub fn message(&self) -> (r: String)
        ensures
            r@ == self@.message(),
    {
        match self {
            LexError::InvalidSyntax(c) => {
                let mut out = String::from_str("Invalid syntax: ");
                out.push(*c);
                out
            },
            LexError::InvalidNumber(text) => {
                let mut out = String::from_str("Invalid number: ");
                out.append(text.as_str());
                out
            },
        }
    }
}

impl ParseError {
    /// The message that reports the error to a reader.
    pub fn message(&self) -> (r: String)
        ensures
            r@ == self@.message(),
    {
        match self {
            ParseError::UnexpectedToken(token) => {
                let mut out = String::from_str("Unexpected token: ");
                let text = token.describe();
                out.append(text.as_str());
                out
            },
            ParseError::UnexpectedEOF => String::from_str("End of file."),
        }
    }
}

impl SemanticError {
    /// The message that reports the error to a reader.
    pub fn message(&self) -> (r: String)
        ensures
            r@ == self@.message(),
    {
        match self {
            SemanticError::UndefinedSymbol(name) => {
                let mut out = String::from_str("Undefined symbol: ");
                out.append(name.as_str());
                out
            },
            SemanticError::RedefineBuiltin(name) => {
                let mut out = String::from_str("Redefine builtin symbol: ");
                out.append(name.as_str());
                out
            },
        }
    }
}

impl EvalError {
    /// The message that reports the error to a reader.
    pub fn message(&self) -> (r: String)
        ensures
            r@ == self@.message(),
    {
        match self {
            EvalError::UndefinedSymbol(name) => {
                let mut out = String::from_str("Undefined symbol: ");
                out.append(name.as_str());
                out
            },
        }
    }
}

impl InterpreterError {
    /// The message that reports the error to a reader.
    pub fn message(&self) -> (r: String)
        ensures
            r@ == self@.message(),
    {
        match self {
            InterpreterError::Lex(e) => e.message(),
            InterpreterError::Parse(e) => e.message(),
            InterpreterError::Semantic(e) => e.message(),
            InterpreterError::Eval(e) => e.message(),
        }
    }
}

} // verus!
