//! The grammar, as functions from a token sequence and a position to what
//! is read there.
//!
//! ```text
//! statement_list := statement (';' statement)*
//! statement      := IDENT '=' expr
//! expr           := term (('+' | '-') term)*
//! term           := factor (('*' | '/') factor)*
//! factor         := ('+' | '-') factor | NUMBER | IDENT | '(' expr ')'
//! ```
//!
//! `IDENT` is an identifier or one of the reserved names `e` and `pi`. A
//! line is a statement list with nothing behind it.

use vstd::prelude::*;
use crate::ast::{Assign, BinaryOpType, Expr, UnaryOpType};
use crate::error::Fault;
use crate::token::Tok;

verus! {

/// What reading a production gave, and the position after the tokens taken.
pub ghost struct Parsed<T> {
    pub result: Result<T, Fault>,
    pub next: nat,
}

/// The token at `pos`, if the sequence reaches that far.
pub open spec fn token_at(ts: Seq<Tok>, pos: nat) -> Option<Tok> {
    if pos < ts.len() {
        Some(ts[pos as int])
    } else {
        None
    }
}

/// How many tokens lie at or after `pos`.
pub open spec fn remaining(ts: Seq<Tok>, pos: nat) -> nat {
    if pos <= ts.len() {
        (ts.len() - pos) as nat
    } else {
        0
    }
}

/// The name that a token gives where an identifier is expected.
pub open spec fn name_of(t: Tok) -> Option<Seq<char>> {
    match t {
        Tok::Id(name) => Some(name),
        Tok::E => Some(seq!['e']),
        Tok::Pi => Some(seq!['p', 'i']),
        _ => None,
    }
}

/// The operator of a term, if the token is one.
pub open spec fn multiplicative(t: Tok) -> Option<BinaryOpType> {
    match t {
        Tok::Mul => Some(BinaryOpType::MUL),
        Tok::Div => Some(BinaryOpType::DIV),
        _ => None,
    }
}

/// The operator of an expression, if the token is one.
pub open spec fn additive(t: Tok) -> Option<BinaryOpType> {
    match t {
        Tok::Plus => Some(BinaryOpType::ADD),
        Tok::Minus => Some(BinaryOpType::SUB),
        _ => None,
    }
}

/// The prefix operator, if the token is one.
pub open spec fn prefix(t: Tok) -> Option<UnaryOpType> {
    match t {
        Tok::Plus => Some(UnaryOpType::PLUS),
        Tok::Minus => Some(UnaryOpType::MINUS),
        _ => None,
    }
}

/// `IDENT`: one token, which must name something.
pub open spec fn parse_variable(ts: Seq<Tok>, pos: nat) -> Parsed<Seq<char>> {
    match token_at(ts, pos) {
        None => Parsed { result: Err(Fault::UnexpectedEOF), next: pos },
        Some(t) => match name_of(t) {
            Some(name) => Parsed { result: Ok(name), next: pos + 1 },
            None => Parsed { result: Err(Fault::UnexpectedToken(t)), next: pos + 1 },
        },
    }
}

/// What follows `'(' expr`: the closing bracket.
pub open spec fn parse_closing(ts: Seq<Tok>, pos: nat, inner: Expr) -> Parsed<Expr> {
    match token_at(ts, pos) {
        None => Parsed { result: Err(Fault::UnexpectedEOF), next: pos },
        Some(Tok::RParen) => Parsed { result: Ok(inner), next: pos + 1 },
        Some(t) => Parsed { result: Err(Fault::UnexpectedToken(t)), next: pos + 1 },
    }
}

/// `factor := ('+' | '-') factor | NUMBER | IDENT | '(' expr ')'`
pub open spec fn parse_factor(ts: Seq<Tok>, pos: nat) -> Parsed<Expr>
    decreases remaining(ts, pos), 1nat,
{
    match token_at(ts, pos) {
        None => Parsed { result: Err(Fault::UnexpectedEOF), next: pos },
        Some(t) => if let Some(op) = prefix(t) {
            let inner = parse_factor(ts, pos + 1);
            match inner.result {
                Ok(e) => Parsed { result: Ok(Expr::Unary(op, Box::new(e))), next: inner.next },
                Err(fault) => Parsed { result: Err(fault), next: inner.next },
            }
        } else if let Tok::Number(text) = t {
            Parsed { result: Ok(Expr::Number(text)), next: pos + 1 }
        } else if t == Tok::LParen {
            let inner = parse_expr(ts, pos + 1);
            match inner.result {
                Ok(e) => parse_closing(ts, inner.next, e),
                Err(fault) => Parsed { result: Err(fault), next: inner.next },
            }
        } else {
            let name = parse_variable(ts, pos);
            match name.result {
                Ok(n) => Parsed { result: Ok(Expr::Var(n)), next: name.next },
                Err(fault) => Parsed { result: Err(fault), next: name.next },
            }
        },
    }
}

/// `(('*' | '/') factor)*` after the factors that gave `left`.
///
/// Operators of one level associate to the left: each further factor
/// becomes the right operand of a node whose left operand is all that was
/// read before. The test `pos < right.next` always holds, since a factor
/// takes at least one token ([`lemma_productions_advance`]); it is there
/// for the recursion to be evidently well-founded.
pub open spec fn parse_term_rest(ts: Seq<Tok>, pos: nat, left: Expr) -> Parsed<Expr>
    decreases remaining(ts, pos), 2nat,
{
    match token_at(ts, pos) {
        None => Parsed { result: Ok(left), next: pos },
        Some(t) => match multiplicative(t) {
            None => Parsed { result: Ok(left), next: pos },
            Some(op) => {
                let right = parse_factor(ts, pos + 1);
                match right.result {
                    Err(fault) => Parsed { result: Err(fault), next: right.next },
                    Ok(e) => {
                        let node = Expr::Binary(op, Box::new(left), Box::new(e));
                        if pos < right.next {
                            parse_term_rest(ts, right.next, node)
                        } else {
                            Parsed { result: Ok(node), next: right.next }
                        }
                    },
                }
            },
        },
    }
}

/// `term := factor (('*' | '/') factor)*`
pub open spec fn parse_term(ts: Seq<Tok>, pos: nat) -> Parsed<Expr>
    decreases remaining(ts, pos), 3nat,
{
    let first = parse_factor(ts, pos);
    match first.result {
        Err(fault) => Parsed { result: Err(fault), next: first.next },
        Ok(e) => if pos <= first.next {
            parse_term_rest(ts, first.next, e)
        } else {
            Parsed { result: Ok(e), next: first.next }
        },
    }
}

/// `(('+' | '-') term)*` after the terms that gave `left`.
pub open spec fn parse_expr_rest(ts: Seq<Tok>, pos: nat, left: Expr) -> Parsed<Expr>
    decreases remaining(ts, pos), 4nat,
{
    match token_at(ts, pos) {
        None => Parsed { result: Ok(left), next: pos },
        Some(t) => match additive(t) {
            None => Parsed { result: Ok(left), next: pos },
            Some(op) => {
                let right = parse_term(ts, pos + 1);
                match right.result {
                    Err(fault) => Parsed { result: Err(fault), next: right.next },
                    Ok(e) => {
                        let node = Expr::Binary(op, Box::new(left), Box::new(e));
                        if pos < right.next {
                            parse_expr_rest(ts, right.next, node)
                        } else {
                            Parsed { result: Ok(node), next: right.next }
                        }
                    },
                }
            },
        },
    }
}

/// `expr := term (('+' | '-') term)*`
pub open spec fn parse_expr(ts: Seq<Tok>, pos: nat) -> Parsed<Expr>
    decreases remaining(ts, pos), 5nat,
{
    let first = parse_term(ts, pos);
    match first.result {
        Err(fault) => Parsed { result: Err(fault), next: first.next },
        Ok(e) => if pos <= first.next {
            parse_expr_rest(ts, first.next, e)
        } else {
            Parsed { result: Ok(e), next: first.next }
        },
    }
}

/// What follows the target of an assignment: `'=' expr`.
pub open spec fn parse_assigned(ts: Seq<Tok>, pos: nat, target: Seq<char>) -> Parsed<Assign> {
    match token_at(ts, pos) {
        None => Parsed { result: Err(Fault::UnexpectedEOF), next: pos },
        Some(Tok::Assign) => {
            let value = parse_expr(ts, pos + 1);
            match value.result {
                Ok(e) => Parsed { result: Ok(Assign { target, value: e }), next: value.next },
                Err(fault) => Parsed { result: Err(fault), next: value.next },
            }
        },
        Some(t) => Parsed { result: Err(Fault::UnexpectedToken(t)), next: pos + 1 },
    }
}

/// `statement := IDENT '=' expr`
pub open spec fn parse_statement(ts: Seq<Tok>, pos: nat) -> Parsed<Assign> {
    let target = parse_variable(ts, pos);
    match target.result {
        Ok(name) => parse_assigned(ts, target.next, name),
        Err(fault) => Parsed { result: Err(fault), next: target.next },
    }
}

/// `(';' statement)*` after the statements `done`.
///
/// The list ends before the first token that is no semicolon; what follows
/// is not looked at.
pub open spec fn parse_statements_rest(ts: Seq<Tok>, pos: nat, done: Seq<Assign>) -> Parsed<
    Seq<Assign>,
>
    decreases remaining(ts, pos),
{
    match token_at(ts, pos) {
        Some(Tok::Semi) => {
            let one = parse_statement(ts, pos + 1);
            match one.result {
                Err(fault) => Parsed { result: Err(fault), next: one.next },
                Ok(s) => if pos < one.next {
                    parse_statements_rest(ts, one.next, done.push(s))
                } else {
                    Parsed { result: Ok(done.push(s)), next: one.next }
                },
            }
        },
        _ => Parsed { result: Ok(done), next: pos },
    }
}

/// `statement_list := statement (';' statement)*`
pub open spec fn parse_statements(ts: Seq<Tok>, pos: nat) -> Parsed<Seq<Assign>> {
    let first = parse_statement(ts, pos);
    match first.result {
        Err(fault) => Parsed { result: Err(fault), next: first.next },
        Ok(s) => parse_statements_rest(ts, first.next, seq![s]),
    }
}

/// A whole line: a statement list that the tokens end behind. The end
/// marker counts as the end; any other token there is out of place.
pub open spec fn parse_line(ts: Seq<Tok>, pos: nat) -> Parsed<Seq<Assign>> {
    let list = parse_statements(ts, pos);
    match list.result {
        Err(fault) => list,
        Ok(_) => match token_at(ts, list.next) {
            None => list,
            Some(Tok::Eof) => list,
            Some(t) => Parsed { result: Err(Fault::UnexpectedToken(t)), next: list.next + 1 },
        },
    }
}

proof fn lemma_factor_advances(ts: Seq<Tok>, pos: nat)
    ensures
        pos <= parse_factor(ts, pos).next,
        parse_factor(ts, pos).result is Ok ==> pos < parse_factor(ts, pos).next,
    decreases remaining(ts, pos), 1nat,
{
    match token_at(ts, pos) {
        None => {},
        Some(t) => {
            if prefix(t) is Some {
                lemma_factor_advances(ts, pos + 1);
            } else if t is Number {
            } else if t == Tok::LParen {
                lemma_expr_advances(ts, pos + 1);
            } else {
            }
        },
    }
}

proof fn lemma_term_rest_advances(ts: Seq<Tok>, pos: nat, left: Expr)
    ensures
        pos <= parse_term_rest(ts, pos, left).next,
    decreases remaining(ts, pos), 2nat,
{
    match token_at(ts, pos) {
        None => {},
        Some(t) => {
            if let Some(op) = multiplicative(t) {
                let right = parse_factor(ts, pos + 1);
                lemma_factor_advances(ts, pos + 1);
                if let Ok(e) = right.result {
                    lemma_term_rest_advances(
                        ts,
                        right.next,
                        Expr::Binary(op, Box::new(left), Box::new(e)),
                    );
                }
            }
        },
    }
}

proof fn lemma_term_advances(ts: Seq<Tok>, pos: nat)
    ensures
        pos <= parse_term(ts, pos).next,
        parse_term(ts, pos).result is Ok ==> pos < parse_term(ts, pos).next,
    decreases remaining(ts, pos), 3nat,
{
    let first = parse_factor(ts, pos);
    lemma_factor_advances(ts, pos);
    if let Ok(e) = first.result {
        lemma_term_rest_advances(ts, first.next, e);
    }
}

proof fn lemma_expr_rest_advances(ts: Seq<Tok>, pos: nat, left: Expr)
    ensures
        pos <= parse_expr_rest(ts, pos, left).next,
    decreases remaining(ts, pos), 4nat,
{
    match token_at(ts, pos) {
        None => {},
        Some(t) => {
            if let Some(op) = additive(t) {
                let right = parse_term(ts, pos + 1);
                lemma_term_advances(ts, pos + 1);
                if let Ok(e) = right.result {
                    lemma_expr_rest_advances(
                        ts,
                        right.next,
                        Expr::Binary(op, Box::new(left), Box::new(e)),
                    );
                }
            }
        },
    }
}

proof fn lemma_expr_advances(ts: Seq<Tok>, pos: nat)
    ensures
        pos <= parse_expr(ts, pos).next,
        parse_expr(ts, pos).result is Ok ==> pos < parse_expr(ts, pos).next,
    decreases remaining(ts, pos), 5nat,
{
    let first = parse_term(ts, pos);
    lemma_term_advances(ts, pos);
    if let Ok(e) = first.result {
        lemma_expr_rest_advances(ts, first.next, e);
    }
}

proof fn lemma_statements_rest_advances(ts: Seq<Tok>, pos: nat, done: Seq<Assign>)
    ensures
        pos <= parse_statements_rest(ts, pos, done).next,
    decreases remaining(ts, pos),
{
    if token_at(ts, pos) == Some(Tok::Semi) {
        let one = parse_statement(ts, pos + 1);
        lemma_expr_advances(ts, pos + 3);
        if let Ok(s) = one.result {
            lemma_statements_rest_advances(ts, one.next, done.push(s));
        }
    }
}

/// Reading never moves backwards, and a factor, a term, an expression or a
/// statement that is read takes at least one token.
pub proof fn lemma_productions_advance(ts: Seq<Tok>, pos: nat)
    ensures
        pos <= parse_variable(ts, pos).next,
        pos <= parse_factor(ts, pos).next,
        pos <= parse_term(ts, pos).next,
        pos <= parse_expr(ts, pos).next,
        pos <= parse_statement(ts, pos).next,
        pos <= parse_statements(ts, pos).next,
        pos <= parse_line(ts, pos).next,
        parse_factor(ts, pos).result is Ok ==> pos < parse_factor(ts, pos).next,
        parse_term(ts, pos).result is Ok ==> pos < parse_term(ts, pos).next,
        parse_expr(ts, pos).result is Ok ==> pos < parse_expr(ts, pos).next,
        parse_statement(ts, pos).result is Ok ==> pos < parse_statement(ts, pos).next,
        parse_statements(ts, pos).result is Ok ==> pos < parse_statements(ts, pos).next,
        parse_line(ts, pos).result is Ok ==> pos < parse_line(ts, pos).next,
        forall|left: Expr| pos <= (#[trigger] parse_term_rest(ts, pos, left)).next,
        forall|left: Expr| pos <= (#[trigger] parse_expr_rest(ts, pos, left)).next,
        forall|done: Seq<Assign>| pos <= (#[trigger] parse_statements_rest(ts, pos, done)).next,
{
    lemma_factor_advances(ts, pos);
    lemma_term_advances(ts, pos);
    lemma_expr_advances(ts, pos);
    lemma_expr_advances(ts, pos + 2);
    let first = parse_statement(ts, pos);
    if let Ok(s) = first.result {
        lemma_statements_rest_advances(ts, first.next, seq![s]);
    }
    assert forall|left: Expr| pos <= (#[trigger] parse_term_rest(ts, pos, left)).next by {
        lemma_term_rest_advances(ts, pos, left);
    }
    assert forall|left: Expr| pos <= (#[trigger] parse_expr_rest(ts, pos, left)).next by {
        lemma_expr_rest_advances(ts, pos, left);
    }
    assert forall|done: Seq<Assign>| pos <= (#[trigger] parse_statements_rest(
        ts,
        pos,
        done,
    )).next by {
        lemma_statements_rest_advances(ts, pos, done);
    }
}

} // verus!
