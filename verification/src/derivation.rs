//! The grammar as a relation between token sequences and trees, and the
//! proof that what the parsing functions read is derived by it.
//!
//! ```text
//! statement_list := statement | statement_list ';' statement
//! statement      := IDENT '=' expr
//! expr           := term | expr ('+' | '-') term
//! term           := factor | term ('*' | '/') factor
//! factor         := ('+' | '-') factor | NUMBER | IDENT | '(' expr ')'
//! ```

use vstd::prelude::*;
use crate::ast::{Assign, Expr};
use crate::error::Fault;
use crate::grammar::{
    additive, multiplicative, name_of, parse_expr, parse_expr_rest, parse_factor, parse_line,
    parse_statement, parse_statements, parse_statements_rest, parse_term, parse_term_rest,
    prefix, remaining, token_at,
};
use crate::token::Tok;

verus! {

/// Whether the tokens, all of them, are a factor with the tree `e`.
pub open spec fn derives_factor(ts: Seq<Tok>, e: Expr) -> bool
    decreases ts.len(), 0nat,
{
    ||| {
        &&& ts.len() >= 2
        &&& e matches Expr::Unary(op, inner)
        &&& prefix(ts[0]) == Some(op)
        &&& derives_factor(ts.drop_first(), *inner)
    }
    ||| {
        &&& ts.len() == 1
        &&& e matches Expr::Number(text)
        &&& ts[0] == Tok::Number(text)
    }
    ||| {
        &&& ts.len() == 1
        &&& e matches Expr::Var(name)
        &&& name_of(ts[0]) == Some(name)
    }
    ||| {
        &&& ts.len() >= 3
        &&& ts[0] == Tok::LParen
        &&& ts[ts.len() - 1] == Tok::RParen
        &&& derives_expr(ts.subrange(1, ts.len() - 1), e)
    }
}

/// Whether the tokens, all of them, are a term with the tree `e`.
pub open spec fn derives_term(ts: Seq<Tok>, e: Expr) -> bool
    decreases ts.len(), 1nat,
{
    ||| derives_factor(ts, e)
    ||| {
        &&& e matches Expr::Binary(op, left, right)
        &&& exists|k: int|
            0 < k < ts.len() - 1 && multiplicative(ts[k]) == Some(op) && derives_term(
                #[trigger] ts.subrange(0, k),
                *left,
            ) && derives_factor(ts.subrange(k + 1, ts.len() as int), *right)
    }
}

/// Whether the tokens, all of them, are an expression with the tree `e`.
pub open spec fn derives_expr(ts: Seq<Tok>, e: Expr) -> bool
    decreases ts.len(), 2nat,
{
    ||| derives_term(ts, e)
    ||| {
        &&& e matches Expr::Binary(op, left, right)
        &&& exists|k: int|
            0 < k < ts.len() - 1 && additive(ts[k]) == Some(op) && derives_expr(
                #[trigger] ts.subrange(0, k),
                *left,
            ) && derives_term(ts.subrange(k + 1, ts.len() as int), *right)
    }
}

/// Whether the tokens, all of them, are the assignment `s`.
pub open spec fn derives_statement(ts: Seq<Tok>, s: Assign) -> bool {
    &&& ts.len() >= 3
    &&& name_of(ts[0]) == Some(s.target)
    &&& ts[1] == Tok::Assign
    &&& derives_expr(ts.subrange(2, ts.len() as int), s.value)
}

/// Whether the tokens, all of them, are the statements `list`, with
/// semicolons between them.
pub open spec fn derives_statements(ts: Seq<Tok>, list: Seq<Assign>) -> bool
    decreases ts.len(),
{
    ||| list.len() == 1 && derives_statement(ts, list[0])
    ||| {
        &&& list.len() >= 2
        &&& exists|k: int|
            0 < k < ts.len() - 1 && ts[k] == Tok::Semi && derives_statements(
                #[trigger] ts.subrange(0, k),
                list.drop_last(),
            ) && derives_statement(ts.subrange(k + 1, ts.len() as int), list.last())
    }
}

proof fn lemma_factor_sound(ts: Seq<Tok>, pos: nat)
    requires
        parse_factor(ts, pos).result is Ok,
    ensures
        pos < parse_factor(ts, pos).next <= ts.len(),
        derives_factor(
            ts.subrange(pos as int, parse_factor(ts, pos).next as int),
            parse_factor(ts, pos).result->Ok_0,
        ),
    decreases remaining(ts, pos), 1nat,
{
    let t = ts[pos as int];
    let next = parse_factor(ts, pos).next;
    let e = parse_factor(ts, pos).result->Ok_0;
    if let Some(op) = prefix(t) {
        lemma_factor_sound(ts, pos + 1);
        let inner = parse_factor(ts, pos + 1);
        let sub = ts.subrange(pos as int, next as int);
        assert(sub.drop_first() =~= ts.subrange(pos as int + 1, next as int));
        assert(sub[0] == t);
    } else if let Tok::Number(text) = t {
        let sub = ts.subrange(pos as int, next as int);
        assert(sub[0] == t);
    } else if t == Tok::LParen {
        lemma_expr_sound(ts, pos + 1);
        let inner = parse_expr(ts, pos + 1);
        let sub = ts.subrange(pos as int, next as int);
        assert(sub[0] == t);
        assert(sub[sub.len() - 1] == ts[inner.next as int]);
        assert(sub.subrange(1, sub.len() - 1) =~= ts.subrange(pos as int + 1, inner.next as int));
    } else {
        let sub = ts.subrange(pos as int, next as int);
        assert(sub[0] == t);
    }
}

proof fn lemma_term_rest_sound(ts: Seq<Tok>, start: nat, pos: nat, left: Expr)
    requires
        start < pos <= ts.len(),
        derives_term(ts.subrange(start as int, pos as int), left),
        parse_term_rest(ts, pos, left).result is Ok,
    ensures
        pos <= parse_term_rest(ts, pos, left).next <= ts.len(),
        derives_term(
            ts.subrange(start as int, parse_term_rest(ts, pos, left).next as int),
            parse_term_rest(ts, pos, left).result->Ok_0,
        ),
    decreases remaining(ts, pos), 2nat,
{
    if let Some(t) = token_at(ts, pos) {
        if let Some(op) = multiplicative(t) {
            let right = parse_factor(ts, pos + 1);
            lemma_factor_sound(ts, pos + 1);
            let node = Expr::Binary(op, Box::new(left), Box::new(right.result->Ok_0));
            let sub = ts.subrange(start as int, right.next as int);
            let k = pos - start;
            assert(sub[k] == t);
            assert(sub.subrange(0, k) =~= ts.subrange(start as int, pos as int));
            assert(sub.subrange(k + 1, sub.len() as int) =~= ts.subrange(
                pos as int + 1,
                right.next as int,
            ));
            assert(derives_term(sub.subrange(0, k), left));
            assert(derives_factor(sub.subrange(k + 1, sub.len() as int), right.result->Ok_0));
            assert(0 < k < sub.len() - 1 && multiplicative(sub[k]) == Some(op));
            assert(derives_term(sub, node));
            lemma_term_rest_sound(ts, start, right.next, node);
        }
    }
}

proof fn lemma_term_sound(ts: Seq<Tok>, pos: nat)
    requires
        parse_term(ts, pos).result is Ok,
    ensures
        pos < parse_term(ts, pos).next <= ts.len(),
        derives_term(
            ts.subrange(pos as int, parse_term(ts, pos).next as int),
            parse_term(ts, pos).result->Ok_0,
        ),
    decreases remaining(ts, pos), 3nat,
{
    let first = parse_factor(ts, pos);
    lemma_factor_sound(ts, pos);
    lemma_term_rest_sound(ts, pos, first.next, first.result->Ok_0);
}

proof fn lemma_expr_rest_sound(ts: Seq<Tok>, start: nat, pos: nat, left: Expr)
    requires
        start < pos <= ts.len(),
        derives_expr(ts.subrange(start as int, pos as int), left),
        parse_expr_rest(ts, pos, left).result is Ok,
    ensures
        pos <= parse_expr_rest(ts, pos, left).next <= ts.len(),
        derives_expr(
            ts.subrange(start as int, parse_expr_rest(ts, pos, left).next as int),
            parse_expr_rest(ts, pos, left).result->Ok_0,
        ),
    decreases remaining(ts, pos), 4nat,
{
    if let Some(t) = token_at(ts, pos) {
        if let Some(op) = additive(t) {
            let right = parse_term(ts, pos + 1);
            lemma_term_sound(ts, pos + 1);
            let node = Expr::Binary(op, Box::new(left), Box::new(right.result->Ok_0));
            let sub = ts.subrange(start as int, right.next as int);
            let k = pos - start;
            assert(sub[k] == t);
            assert(sub.subrange(0, k) =~= ts.subrange(start as int, pos as int));
            assert(sub.subrange(k + 1, sub.len() as int) =~= ts.subrange(
                pos as int + 1,
                right.next as int,
            ));
            assert(derives_expr(sub.subrange(0, k), left));
            assert(derives_term(sub.subrange(k + 1, sub.len() as int), right.result->Ok_0));
            assert(0 < k < sub.len() - 1 && additive(sub[k]) == Some(op));
            assert(derives_expr(sub, node));
            lemma_expr_rest_sound(ts, start, right.next, node);
        }
    }
}

proof fn lemma_expr_sound(ts: Seq<Tok>, pos: nat)
    requires
        parse_expr(ts, pos).result is Ok,
    ensures
        pos < parse_expr(ts, pos).next <= ts.len(),
        derives_expr(
            ts.subrange(pos as int, parse_expr(ts, pos).next as int),
            parse_expr(ts, pos).result->Ok_0,
        ),
    decreases remaining(ts, pos), 5nat,
{
    let first = parse_term(ts, pos);
    lemma_term_sound(ts, pos);
    lemma_expr_rest_sound(ts, pos, first.next, first.result->Ok_0);
}

proof fn lemma_statement_sound(ts: Seq<Tok>, pos: nat)
    requires
        parse_statement(ts, pos).result is Ok,
    ensures
        pos < parse_statement(ts, pos).next <= ts.len(),
        derives_statement(
            ts.subrange(pos as int, parse_statement(ts, pos).next as int),
            parse_statement(ts, pos).result->Ok_0,
        ),
{
    let next = parse_statement(ts, pos).next;
    lemma_expr_sound(ts, pos + 2);
    let sub = ts.subrange(pos as int, next as int);
    assert(sub[0] == ts[pos as int]);
    assert(sub[1] == ts[pos as int + 1]);
    assert(sub.subrange(2, sub.len() as int) =~= ts.subrange(pos as int + 2, next as int));
}

proof fn lemma_statements_rest_sound(ts: Seq<Tok>, start: nat, pos: nat, done: Seq<Assign>)
    requires
        start < pos <= ts.len(),
        derives_statements(ts.subrange(start as int, pos as int), done),
        done.len() >= 1,
        parse_statements_rest(ts, pos, done).result is Ok,
    ensures
        pos <= parse_statements_rest(ts, pos, done).next <= ts.len(),
        derives_statements(
            ts.subrange(start as int, parse_statements_rest(ts, pos, done).next as int),
            parse_statements_rest(ts, pos, done).result->Ok_0,
        ),
    decreases remaining(ts, pos),
{
    if token_at(ts, pos) == Some(Tok::Semi) {
        let one = parse_statement(ts, pos + 1);
        lemma_statement_sound(ts, pos + 1);
        let grown = done.push(one.result->Ok_0);
        let sub = ts.subrange(start as int, one.next as int);
        let k = pos - start;
        assert(sub[k] == Tok::Semi);
        assert(sub.subrange(0, k) =~= ts.subrange(start as int, pos as int));
        assert(sub.subrange(k + 1, sub.len() as int) =~= ts.subrange(pos as int + 1, one.next as int));
        assert(grown.drop_last() =~= done);
        assert(derives_statements(sub.subrange(0, k), grown.drop_last()));
        assert(derives_statement(sub.subrange(k + 1, sub.len() as int), grown.last()));
        assert(0 < k < sub.len() - 1 && sub[k] == Tok::Semi);
        assert(derives_statements(sub, grown));
        lemma_statements_rest_sound(ts, start, one.next, grown);
    }
}

/// The parser is sound for expressions: the tokens that a factor, a term
/// or an expression was read from derive its tree.
pub proof fn lemma_expressions_are_derived(ts: Seq<Tok>, pos: nat)
    ensures
        parse_factor(ts, pos).result matches Ok(e) ==> parse_factor(ts, pos).next <= ts.len()
            && derives_factor(ts.subrange(pos as int, parse_factor(ts, pos).next as int), e),
        parse_term(ts, pos).result matches Ok(e) ==> parse_term(ts, pos).next <= ts.len()
            && derives_term(ts.subrange(pos as int, parse_term(ts, pos).next as int), e),
        parse_expr(ts, pos).result matches Ok(e) ==> parse_expr(ts, pos).next <= ts.len()
            && derives_expr(ts.subrange(pos as int, parse_expr(ts, pos).next as int), e),
{
    if parse_factor(ts, pos).result is Ok {
        lemma_factor_sound(ts, pos);
    }
    if parse_term(ts, pos).result is Ok {
        lemma_term_sound(ts, pos);
    }
    if parse_expr(ts, pos).result is Ok {
        lemma_expr_sound(ts, pos);
    }
}

/// The parser is sound for statements: the tokens that a statement or a
/// statement list was read from derive it.
pub proof fn lemma_statements_are_derived(ts: Seq<Tok>, pos: nat)
    ensures
        parse_statement(ts, pos).result matches Ok(s) ==> parse_statement(ts, pos).next
            <= ts.len() && derives_statement(
            ts.subrange(pos as int, parse_statement(ts, pos).next as int),
            s,
        ),
        parse_statements(ts, pos).result matches Ok(list) ==> parse_statements(ts, pos).next
            <= ts.len() && derives_statements(
            ts.subrange(pos as int, parse_statements(ts, pos).next as int),
            list,
        ),
{
    if parse_statement(ts, pos).result is Ok {
        lemma_statement_sound(ts, pos);
    }
    if parse_statements(ts, pos).result is Ok {
        let first = parse_statement(ts, pos);
        lemma_statement_sound(ts, pos);
        lemma_statements_rest_sound(ts, pos, first.next, seq![first.result->Ok_0]);
    }
}

/// The parser is sound for lines: a line that is read is derived by the
/// tokens taken, and nothing but the end marker stands behind them.
pub proof fn lemma_line_is_derived(ts: Seq<Tok>, pos: nat)
    requires
        parse_line(ts, pos).result is Ok,
    ensures
        parse_line(ts, pos).next <= ts.len(),
        derives_statements(
            ts.subrange(pos as int, parse_line(ts, pos).next as int),
            parse_line(ts, pos).result->Ok_0,
        ),
        token_at(ts, parse_line(ts, pos).next) matches Some(t) ==> t == Tok::Eof,
{
    lemma_statements_are_derived(ts, pos);
}

/// Whether `body` is what `ts` holds from `pos` on, for the length of
/// `body`.
pub open spec fn occurs(ts: Seq<Tok>, pos: nat, body: Seq<Tok>) -> bool {
    &&& pos + body.len() <= ts.len()
    &&& ts.subrange(pos as int, (pos + body.len()) as int) == body
}

/// Whether the token at `pos`, if there is one, is no infix operator.
pub open spec fn no_operator_at(ts: Seq<Tok>, pos: nat) -> bool {
    token_at(ts, pos) matches Some(t) ==> additive(t) is None && multiplicative(t) is None
}

/// Whether the token at `pos`, if there is one, is no operator of a term.
pub open spec fn no_factor_follows(ts: Seq<Tok>, pos: nat) -> bool {
    token_at(ts, pos) matches Some(t) ==> multiplicative(t) is None
}

proof fn lemma_occurs_part(ts: Seq<Tok>, pos: nat, body: Seq<Tok>, from: int, to: int)
    requires
        occurs(ts, pos, body),
        0 <= from <= to <= body.len(),
    ensures
        occurs(ts, (pos + from) as nat, body.subrange(from, to)),
        forall|i: int| 0 <= i < body.len() ==> ts[pos + i] == #[trigger] body[i],
{
    assert forall|i: int| 0 <= i < body.len() implies ts[pos + i] == #[trigger] body[i] by {
        assert(ts.subrange(pos as int, (pos + body.len()) as int)[i] == ts[pos + i]);
    }
    assert(ts.subrange(pos + from, pos + from + (to - from)) =~= body.subrange(from, to));
}

proof fn lemma_factor_complete(ts: Seq<Tok>, pos: nat, body: Seq<Tok>, e: Expr)
    requires
        occurs(ts, pos, body),
        derives_factor(body, e),
    ensures
        parse_factor(ts, pos).result == Ok::<Expr, Fault>(e),
        parse_factor(ts, pos).next == pos + body.len(),
    decreases body.len(), 0nat,
{
    let n = body.len() as int;
    lemma_occurs_part(ts, pos, body, 0, n);
    assert(body.len() >= 1);
    assert(ts[pos as int] == body[0]);
    let t = body[0];
    if n >= 2 && e is Unary && prefix(t) == Some(e->Unary_0) && derives_factor(
        body.drop_first(),
        *e->Unary_1,
    ) {
        lemma_occurs_part(ts, pos, body, 1, n);
        assert(body.subrange(1, n) =~= body.drop_first());
        lemma_factor_complete(ts, pos + 1, body.drop_first(), *e->Unary_1);
    } else if n == 1 && e is Number && t == Tok::Number(e->Number_0) {
    } else if n == 1 && e is Var && name_of(t) == Some(e->Var_0) {
    } else {
        let inner = body.subrange(1, n - 1);
        lemma_occurs_part(ts, pos, body, 1, n - 1);
        assert(ts[pos + n - 1] == body[n - 1]);
        lemma_expr_complete(ts, pos + 1, inner, e);
        assert(parse_expr_rest(ts, (pos + n - 1) as nat, e).result == Ok::<
            Expr,
            Fault,
        >(e));
    }
}

proof fn lemma_term_complete(ts: Seq<Tok>, pos: nat, body: Seq<Tok>, e: Expr)
    requires
        occurs(ts, pos, body),
        derives_term(body, e),
    ensures
        parse_term(ts, pos) == parse_term_rest(ts, pos + body.len(), e),
        body.len() >= 1,
    decreases body.len(), 1nat,
{
    let n = body.len() as int;
    if derives_factor(body, e) {
        lemma_factor_complete(ts, pos, body, e);
    } else {
        let op = e->Binary_0;
        let left = *e->Binary_1;
        let right = *e->Binary_2;
        let k = choose|k: int|
            0 < k < n - 1 && multiplicative(body[k]) == Some(op) && derives_term(
                #[trigger] body.subrange(0, k),
                left,
            ) && derives_factor(body.subrange(k + 1, n), right);
        lemma_occurs_part(ts, pos, body, 0, k);
        lemma_occurs_part(ts, pos, body, k + 1, n);
        lemma_term_complete(ts, pos, body.subrange(0, k), left);
        lemma_factor_complete(ts, (pos + k + 1) as nat, body.subrange(k + 1, n), right);
        assert(ts[pos + k] == body[k]);
        assert(parse_term_rest(ts, (pos + k) as nat, left) == parse_term_rest(
            ts,
            pos + body.len(),
            e,
        ));
    }
}

proof fn lemma_term_ends(ts: Seq<Tok>, pos: nat, body: Seq<Tok>, e: Expr)
    requires
        occurs(ts, pos, body),
        derives_term(body, e),
        no_factor_follows(ts, pos + body.len()),
    ensures
        parse_term(ts, pos).result == Ok::<Expr, Fault>(e),
        parse_term(ts, pos).next == pos + body.len(),
{
    lemma_term_complete(ts, pos, body, e);
}

proof fn lemma_expr_complete(ts: Seq<Tok>, pos: nat, body: Seq<Tok>, e: Expr)
    requires
        occurs(ts, pos, body),
        derives_expr(body, e),
        no_factor_follows(ts, pos + body.len()),
    ensures
        parse_expr(ts, pos) == parse_expr_rest(ts, pos + body.len(), e),
        body.len() >= 1,
    decreases body.len(), 2nat,
{
    let n = body.len() as int;
    if derives_term(body, e) {
        lemma_term_complete(ts, pos, body, e);
        assert(parse_term(ts, pos).result == Ok::<Expr, Fault>(e));
    } else {
        let op = e->Binary_0;
        let left = *e->Binary_1;
        let right = *e->Binary_2;
        let k = choose|k: int|
            0 < k < n - 1 && additive(body[k]) == Some(op) && derives_expr(
                #[trigger] body.subrange(0, k),
                left,
            ) && derives_term(body.subrange(k + 1, n), right);
        lemma_occurs_part(ts, pos, body, 0, k);
        lemma_occurs_part(ts, pos, body, k + 1, n);
        assert(ts[pos + k] == body[k]);
        lemma_expr_complete(ts, pos, body.subrange(0, k), left);
        lemma_term_complete(ts, (pos + k + 1) as nat, body.subrange(k + 1, n), right);
        assert(parse_term(ts, (pos + k + 1) as nat).result == Ok::<Expr, Fault>(
            right,
        ));
        assert(parse_expr_rest(ts, (pos + k) as nat, left) == parse_expr_rest(
            ts,
            pos + body.len(),
            e,
        ));
    }
}

/// The parser is complete for expressions: where tokens that derive a tree
/// stand in a sequence, and no infix operator follows them, the tree is
/// what is read there, and the tokens are what is taken.
pub proof fn lemma_derived_expression_is_read(ts: Seq<Tok>, pos: nat, body: Seq<Tok>, e: Expr)
    requires
        occurs(ts, pos, body),
        derives_expr(body, e),
        no_operator_at(ts, pos + body.len()),
    ensures
        parse_expr(ts, pos).result == Ok::<Expr, Fault>(e),
        parse_expr(ts, pos).next == pos + body.len(),
{
    lemma_expr_complete(ts, pos, body, e);
}

/// The grammar is unambiguous for expressions: tokens derive one tree at
/// most.
pub proof fn lemma_one_tree(body: Seq<Tok>, e: Expr, other: Expr)
    requires
        derives_expr(body, e),
        derives_expr(body, other),
    ensures
        e == other,
{
    assert(body.subrange(0, body.len() as int) =~= body);
    lemma_derived_expression_is_read(body, 0, body, e);
    lemma_derived_expression_is_read(body, 0, body, other);
}

proof fn lemma_statement_complete(ts: Seq<Tok>, pos: nat, body: Seq<Tok>, s: Assign)
    requires
        occurs(ts, pos, body),
        derives_statement(body, s),
        no_operator_at(ts, pos + body.len()),
    ensures
        parse_statement(ts, pos).result == Ok::<Assign, Fault>(s),
        parse_statement(ts, pos).next == pos + body.len(),
{
    let n = body.len() as int;
    lemma_occurs_part(ts, pos, body, 2, n);
    assert(ts[pos as int] == body[0]);
    assert(ts[pos as int + 1] == body[1]);
    lemma_derived_expression_is_read(ts, pos + 2, body.subrange(2, n), s.value);
}

proof fn lemma_statements_complete(ts: Seq<Tok>, pos: nat, body: Seq<Tok>, list: Seq<Assign>)
    requires
        occurs(ts, pos, body),
        derives_statements(body, list),
        no_operator_at(ts, pos + body.len()),
    ensures
        parse_statements(ts, pos) == parse_statements_rest(ts, pos + body.len(), list),
        body.len() >= 3,
    decreases body.len(),
{
    let n = body.len() as int;
    if list.len() == 1 && derives_statement(body, list[0]) {
        lemma_statement_complete(ts, pos, body, list[0]);
        assert(seq![list[0]] =~= list);
    } else {
        let k = choose|k: int|
            0 < k < n - 1 && body[k] == Tok::Semi && derives_statements(
                #[trigger] body.subrange(0, k),
                list.drop_last(),
            ) && derives_statement(body.subrange(k + 1, n), list.last());
        lemma_occurs_part(ts, pos, body, 0, k);
        lemma_occurs_part(ts, pos, body, k + 1, n);
        assert(ts[pos + k] == body[k]);
        lemma_statements_complete(ts, pos, body.subrange(0, k), list.drop_last());
        lemma_statement_complete(ts, (pos + k + 1) as nat, body.subrange(k + 1, n), list.last());
        assert(list.drop_last().push(list.last()) =~= list);
        assert(parse_statements_rest(ts, (pos + k) as nat, list.drop_last())
            == parse_statements_rest(ts, pos + body.len(), list));
    }
}

/// The parser is complete for statement lists: where tokens that derive a
/// list stand in a sequence, and neither a semicolon nor an infix operator
/// follows them, the list is what is read there, and the tokens are what is
/// taken.
pub proof fn lemma_derived_statements_are_read(
    ts: Seq<Tok>,
    pos: nat,
    body: Seq<Tok>,
    list: Seq<Assign>,
)
    requires
        occurs(ts, pos, body),
        derives_statements(body, list),
        no_operator_at(ts, pos + body.len()),
        token_at(ts, pos + body.len()) != Some(Tok::Semi),
    ensures
        parse_statements(ts, pos).result == Ok::<Seq<Assign>, Fault>(list),
        parse_statements(ts, pos).next == pos + body.len(),
{
    lemma_statements_complete(ts, pos, body, list);
}

/// The parser is complete for lines: tokens that derive a statement list,
/// all of them, are read as this list.
pub proof fn lemma_derived_line_is_read(ts: Seq<Tok>, list: Seq<Assign>)
    requires
        derives_statements(ts, list),
    ensures
        parse_line(ts, 0).result == Ok::<Seq<Assign>, Fault>(list),
        parse_line(ts, 0).next == ts.len(),
{
    assert(ts.subrange(0, ts.len() as int) =~= ts);
    lemma_derived_statements_are_read(ts, 0, ts, list);
}

} // verus!
