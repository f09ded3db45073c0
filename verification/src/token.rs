use vstd::prelude::*;

verus! {

/// A lexical unit of the language.
#[derive(Debug, PartialEq)]
pub enum Token {
    /// A numeral, as written.
    NUMBER(String),
    /// An identifier other than the two reserved ones.
    ID(String),
    /// The reserved identifier `e`.
    E,
    /// The reserved identifier `pi`.
    PI,
    PLUS,
    MINUS,
    MUL,
    DIV,
    LPAREN,
    RPAREN,
    COMMA,
    DOT,
    ASSIGN,
    SEMI,
    /// The end of the input.
    EOF,
}

/// What a [`Token`] stands for: the same variants, with text as sequences
/// of characters.
pub ghost enum Tok {
    Number(Seq<char>),
    Id(Seq<char>),
    E,
    Pi,
    Plus,
    Minus,
    Mul,
    Div,
    LParen,
    RParen,
    Comma,
    Dot,
    Assign,
    Semi,
    Eof,
}

impl View for Token {
    type V = Tok;

    open spec fn view(&self) -> Tok {
        match self {
            Token::NUMBER(text) => Tok::Number(text@),
            Token::ID(name) => Tok::Id(name@),
            Token::E => Tok::E,
            Token::PI => Tok::Pi,
            Token::PLUS => Tok::Plus,
            Token::MINUS => Tok::Minus,
            Token::MUL => Tok::Mul,
            Token::DIV => Tok::Div,
            Token::LPAREN => Tok::LParen,
            Token::RPAREN => Tok::RParen,
            Token::COMMA => Tok::Comma,
            Token::DOT => Tok::Dot,
            Token::ASSIGN => Tok::Assign,
            Token::SEMI => Tok::Semi,
            Token::EOF => Tok::Eof,
        }
    }
}

impl Clone for Token {
    fn clone(&self) -> (r: Token)
        ensures
            r@ == self@,
    {
        match self {
            Token::NUMBER(text) => Token::NUMBER(text.clone()),
            Token::ID(name) => Token::ID(name.clone()),
            Token::E => Token::E,
            Token::PI => Token::PI,
            Token::PLUS => Token::PLUS,
            Token::MINUS => Token::MINUS,
            Token::MUL => Token::MUL,
            Token::DIV => Token::DIV,
            Token::LPAREN => Token::LPAREN,
            Token::RPAREN => Token::RPAREN,
            Token::COMMA => Token::COMMA,
            Token::DOT => Token::DOT,
            Token::ASSIGN => Token::ASSIGN,
            Token::SEMI => Token::SEMI,
            Token::EOF => Token::EOF,
        }
    }
}

/// The views of a vector of tokens, in order.
pub open spec fn views(tokens: Seq<Token>) -> Seq<Tok> {
    tokens.map_values(|t: Token| t@)
}

} // verus!
