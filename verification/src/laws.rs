//! What holds of the parts of the interpreter taken together.

use vstd::prelude::*;
use crate::analysis::{check_statements, first_outside, known};
use crate::ast::{Assign, Expr, UnaryOpType};
use crate::derivation::{derives_expr, lemma_derived_expression_is_read};
use crate::error::Fault;
use crate::grammar::parse_expr;
use crate::machine::{
    answer, code_of, code_of_statement, code_of_statements, Demand, Instr, Machine, Settled,
    Stage,
};
use crate::number::Number;
use crate::semantics::{run_statements, signed, Outcome, Unit};
use crate::session::{front_end, Session};
use crate::symbol_table::{bind, builtins, resolve};
use crate::token::Tok;

verus! {

/// Two signs before a number cancel: `--x` and `-+-x` are `x`.
pub proof fn lemma_signs_cancel(value: Number)
    ensures
        signed(UnaryOpType::MINUS, signed(UnaryOpType::MINUS, value)) == value,
        signed(
            UnaryOpType::MINUS,
            signed(UnaryOpType::PLUS, signed(UnaryOpType::MINUS, value)),
        ) == value,
{
}

/// The built-in constants have their values whatever the variables are: no
/// variable hides one.
pub proof fn lemma_builtins_stay(locals: Map<Seq<char>, Number>)
    ensures
        resolve(locals, seq!['e']) == Some(Number::e()),
        resolve(locals, seq!['p', 'i']) == Some(Number::pi()),
{
    assert(seq!['e'] != seq!['p', 'i']) by {
        assert(seq!['e'].len() != seq!['p', 'i'].len());
    }
}

/// After a session was cleared, the built-in constants have their values
/// and no other name has one.
pub proof fn lemma_clearing_keeps_the_constants(session: Session, name: Seq<char>)
    ensures
        resolve(session.cleared().locals, name) == if builtins().contains_key(name) {
            Some(builtins()[name])
        } else {
            None
        },
        session.cleared().history.len() == 0,
{
}

/// A line that does not pass the front end changes neither the variables
/// nor the history, and its fault is where the evaluation stands.
pub proof fn lemma_rejected_line_changes_nothing(session: Session, text: Seq<char>)
    requires
        front_end(text, session.locals) is Err,
    ensures
        session.interpreted(text).0.locals == session.locals,
        session.interpreted(text).0.history == session.history,
        session.interpreted(text).1 == Stage::Done(Err(front_end(text, session.locals)->Err_0)),
{
}

/// The built-in constants are protected: the check of an assignment to one
/// fails and binds nothing, and what it reports is that assignment, unless
/// the value refers to a name that has no value.
pub proof fn lemma_builtins_are_protected(s: Assign, locals: Map<Seq<char>, Number>)
    requires
        builtins().contains_key(s.target),
    ensures
        s.check(locals).result is Err,
        s.check(locals).locals == locals,
        s.value.check(locals) is Ok ==> s.check(locals).result == Err::<(), Fault>(
            Fault::RedefineBuiltin(s.target),
        ),
        check_statements(seq![s], locals).result is Err,
        check_statements(seq![s], locals).locals == locals,
{
}

/// Binding a name changes the value of no other name, and never that of a
/// built-in constant.
pub proof fn lemma_bind_is_local(
    locals: Map<Seq<char>, Number>,
    name: Seq<char>,
    value: Number,
    other: Seq<char>,
)
    ensures
        other != name ==> resolve(bind(locals, name, value), other) == resolve(locals, other),
        builtins().contains_key(other) ==> resolve(bind(locals, name, value), other) == resolve(
            locals,
            other,
        ),
        !builtins().contains_key(name) ==> resolve(bind(locals, name, value), name) == Some(value),
{
}

/// What the machine ends with when it is driven through its requests is
/// what it ends with from where it stands after its own steps: the steps
/// that `advance` does lose nothing.
pub open spec fn after_settling(s: Settled, unit: Unit) -> Outcome {
    match s.stage {
        Stage::Done(result) => Outcome { result, locals: s.locals },
        Stage::Need(d) => s.machine.supplied(answer(unit, d)).run(s.locals, unit),
    }
}

/// Driving the machine is sound: for every arithmetic, the end that the
/// machine reaches from a state is the end that it reaches from the state
/// after its own steps, once the request it stands at is answered.
pub proof fn lemma_settling_keeps_the_end(m: Machine, locals: Map<Seq<char>, Number>, unit: Unit)
    ensures
        m.run(locals, unit) == after_settling(m.settled(locals), unit),
    decreases m.distance(),
{
    match m.stepped(locals) {
        Some((next, bound)) => {
            lemma_settling_keeps_the_end(next, bound, unit);
        },
        None => {},
    }
}

/// A line that passes the front end is evaluated to what its statements
/// do, whatever the arithmetic: the machine that starts on the lowered
/// line, driven through its requests, ends as the statements do, one after
/// the other, and it does not end on a name without a value.
pub proof fn lemma_line_runs_its_statements(
    text: Seq<char>,
    locals: Map<Seq<char>, Number>,
    unit: Unit,
)
    requires
        front_end(text, locals) is Ok,
    ensures
        ({
            let statements = front_end(text, locals)->Ok_0;
            let end = run_statements(statements, locals, unit, Number::zero());
            &&& after_settling(
                Machine::start(code_of_statements(statements)).settled(locals),
                unit,
            ) == end
            &&& end.result matches Err(fault) ==> fault is InvalidNumber
        }),
{
    let statements = front_end(text, locals)->Ok_0;
    let start = Machine::start(code_of_statements(statements));
    lemma_settling_keeps_the_end(start, locals, unit);
    lemma_machine_runs_statements(statements, locals, unit);
    lemma_checked_statements_resolve(statements, locals, unit);
}

/// From tokens to a value: tokens that the grammar derives a tree from are
/// read as this tree, and the machine that starts on the lowered tree ends
/// with the value that the caller's arithmetic gives the tree, operator by
/// operator. Where the tree is pure, this value is the same whatever the
/// variables are.
pub proof fn lemma_derived_expression_evaluates(
    body: Seq<Tok>,
    e: Expr,
    locals: Map<Seq<char>, Number>,
    unit: Unit,
)
    requires
        derives_expr(body, e),
    ensures
        parse_expr(body, 0).result == Ok::<Expr, Fault>(e),
        parse_expr(body, 0).next == body.len(),
        Machine::start(code_of(e)).run(locals, unit) == (Outcome {
            result: e.value(locals, unit),
            locals,
        }),
        e.is_pure() ==> e.value(locals, unit) == e.value(Map::empty(), unit),
{
    assert(body.subrange(0, body.len() as int) =~= body);
    lemma_derived_expression_is_read(body, 0, body, e);
    lemma_machine_runs_expression(e, locals, unit);
    if e.is_pure() {
        lemma_pure_needs_no_variables(e, locals, Map::empty(), unit);
    }
}

/// Whether `part` stands in `code` at `pc`.
pub open spec fn stands_at(code: Seq<Instr>, pc: nat, part: Seq<Instr>) -> bool {
    &&& pc + part.len() <= code.len()
    &&& code.subrange(pc as int, (pc + part.len()) as int) == part
}

proof fn lemma_stands_at_index(code: Seq<Instr>, pc: nat, part: Seq<Instr>, i: int)
    requires
        stands_at(code, pc, part),
        0 <= i < part.len(),
    ensures
        code[pc + i] == part[i],
{
    assert(code.subrange(pc as int, (pc + part.len()) as int)[i] == code[pc + i]);
}

proof fn lemma_stands_at_parts(code: Seq<Instr>, pc: nat, front: Seq<Instr>, back: Seq<Instr>)
    requires
        stands_at(code, pc, front + back),
    ensures
        stands_at(code, pc, front),
        stands_at(code, pc + front.len(), back),
{
    let whole = front + back;
    assert(code.subrange(pc as int, (pc + front.len()) as int) =~= front) by {
        assert forall|i: int| 0 <= i < front.len() implies code[pc + i] == front[i] by {
            lemma_stands_at_index(code, pc, whole, i);
        }
    }
    assert(code.subrange((pc + front.len()) as int, (pc + front.len() + back.len()) as int) =~= back) by {
        assert forall|i: int| 0 <= i < back.len() implies code[pc + front.len() + i]
            == back[i] by {
            lemma_stands_at_index(code, pc, whole, front.len() + i);
        }
    }
}

/// The machine behind `len` instructions, with `stack`.
pub open spec fn passed(m: Machine, len: nat, stack: Seq<Number>) -> Machine {
    Machine { pc: m.pc + len, stack, ..m }
}

/// A machine that stands before the instructions of an expression goes on
/// as if it stood behind them with the value of the expression on its
/// stack, or ends with the fault of the expression.
pub proof fn lemma_expression_runs(
    e: Expr,
    m: Machine,
    locals: Map<Seq<char>, Number>,
    unit: Unit,
)
    requires
        m.halted is None,
        stands_at(m.code, m.pc, code_of(e)),
    ensures
        m.run(locals, unit) == match e.value(locals, unit) {
            Ok(v) => passed(m, code_of(e).len(), m.stack.push(v)).run(locals, unit),
            Err(fault) => Outcome { result: Err(fault), locals },
        },
    decreases e,
{
    let n = m.stack.len();
    match e {
        Expr::Number(text) => {
            lemma_stands_at_index(m.code, m.pc, code_of(e), 0);
            assert(m.demand() == Some(Demand::Convert(text)));
            assert(m.stepped(locals) is None);
            assert(m.stage() == Stage::Need(Demand::Convert(text)));
            assert(m.run(locals, unit) == m.supplied((unit.convert)(text)).run(locals, unit));
            match (unit.convert)(text) {
                Some(v) => {
                    assert(m.supplied(Some(v)) == passed(m, 1, m.stack.push(v)));
                    assert(code_of(e).len() == 1);
                    assert(e.value(locals, unit) == Ok::<Number, Fault>(v));
                },
                None => {
                    let stopped = m.supplied(None);
                    assert(stopped.halted == Some(Fault::InvalidNumber(text)));
                    assert(stopped.stepped(locals) is None);
                    assert(stopped.stage() == Stage::Done(Err(Fault::InvalidNumber(text))));
                    assert(stopped.run(locals, unit) == (Outcome {
                        result: Err(Fault::InvalidNumber(text)),
                        locals,
                    }));
                    assert(e.value(locals, unit) == Err::<Number, Fault>(
                        Fault::InvalidNumber(text),
                    ));
                },
            }
        },
        Expr::Var(name) => {
            lemma_stands_at_index(m.code, m.pc, code_of(e), 0);
            assert(m.demand() is None);
            match resolve(locals, name) {
                Some(v) => {
                    assert(m.stepped(locals) == Some((passed(m, 1, m.stack.push(v)), locals)));
                },
                None => {
                    let stopped = Machine { halted: Some(Fault::Unbound(name)), ..m };
                    assert(m.stepped(locals) == Some((stopped, locals)));
                    assert(stopped.stepped(locals) is None);
                    assert(stopped.run(locals, unit) == (Outcome {
                        result: Err(Fault::Unbound(name)),
                        locals,
                    }));
                },
            }
        },
        Expr::Unary(op, inner) => {
            let part = code_of(*inner);
            assert(code_of(e) =~= part + seq![Instr::Unary(op)]);
            lemma_stands_at_parts(m.code, m.pc, part, seq![Instr::Unary(op)]);
            lemma_expression_runs(*inner, m, locals, unit);
            match inner.value(locals, unit) {
                Ok(v) => {
                    let mid = passed(m, part.len(), m.stack.push(v));
                    lemma_stands_at_index(m.code, mid.pc, seq![Instr::Unary(op)], 0);
                    assert(mid.demand() is None);
                    assert(mid.stack.take(n as int).push(signed(op, v)) =~= m.stack.push(
                        signed(op, v),
                    ));
                    assert(mid.stepped(locals) == Some(
                        (passed(m, code_of(e).len(), m.stack.push(signed(op, v))), locals),
                    ));
                },
                Err(_) => {},
            }
        },
        Expr::Binary(op, left, right) => {
            let front = code_of(*left);
            let back = code_of(*right);
            assert(code_of(e) =~= front + (back + seq![Instr::Binary(op)]));
            lemma_stands_at_parts(m.code, m.pc, front, back + seq![Instr::Binary(op)]);
            lemma_stands_at_parts(m.code, m.pc + front.len(), back, seq![Instr::Binary(op)]);
            lemma_expression_runs(*left, m, locals, unit);
            match left.value(locals, unit) {
                Ok(a) => {
                    let first = passed(m, front.len(), m.stack.push(a));
                    lemma_expression_runs(*right, first, locals, unit);
                    match right.value(locals, unit) {
                        Ok(b) => {
                            let second = passed(first, back.len(), first.stack.push(b));
                            lemma_stands_at_index(
                                m.code,
                                second.pc,
                                seq![Instr::Binary(op)],
                                0,
                            );
                            assert(second.demand() == Some(Demand::Apply(op, a, b)));
                            let x = (unit.apply)(op, a, b);
                            assert(second.stack.take(n as int).push(x) =~= m.stack.push(x));
                            assert(second.supplied(Some(x)) == passed(
                                m,
                                code_of(e).len(),
                                m.stack.push(x),
                            ));
                        },
                        Err(_) => {},
                    }
                },
                Err(_) => {},
            }
        },
    }
}

/// A machine that stands before the instructions of an assignment goes on
/// as if it stood behind them, with the target bound and the value kept as
/// that of the last statement, or ends with the fault of the value.
pub proof fn lemma_statement_runs(
    s: Assign,
    m: Machine,
    locals: Map<Seq<char>, Number>,
    unit: Unit,
)
    requires
        m.halted is None,
        stands_at(m.code, m.pc, code_of_statement(s)),
    ensures
        m.run(locals, unit) == match s.run(locals, unit).result {
            Ok(v) => (Machine { last: v, ..passed(m, code_of_statement(s).len(), m.stack) }).run(
                s.run(locals, unit).locals,
                unit,
            ),
            Err(fault) => Outcome { result: Err(fault), locals },
        },
{
    let part = code_of(s.value);
    let n = m.stack.len();
    assert(code_of_statement(s) =~= part + seq![Instr::Store(s.target)]);
    lemma_stands_at_parts(m.code, m.pc, part, seq![Instr::Store(s.target)]);
    lemma_expression_runs(s.value, m, locals, unit);
    match s.value.value(locals, unit) {
        Ok(v) => {
            let mid = passed(m, part.len(), m.stack.push(v));
            lemma_stands_at_index(m.code, mid.pc, seq![Instr::Store(s.target)], 0);
            assert(mid.demand() is None);
            assert(mid.stack.take(n as int) =~= m.stack);
            assert(mid.stepped(locals) == Some(
                (
                    Machine { last: v, ..passed(m, code_of_statement(s).len(), m.stack) },
                    bind(locals, s.target, v),
                ),
            ));
        },
        Err(_) => {},
    }
}

proof fn lemma_statements_run(
    statements: Seq<Assign>,
    m: Machine,
    locals: Map<Seq<char>, Number>,
    unit: Unit,
)
    requires
        m.halted is None,
        m.stack.len() == 0,
        stands_at(m.code, m.pc, code_of_statements(statements)),
        m.pc + code_of_statements(statements).len() == m.code.len(),
    ensures
        m.run(locals, unit) == run_statements(statements, locals, unit, m.last),
    decreases statements.len(),
{
    if statements.len() == 0 {
        assert(m.stepped(locals) is None);
    } else {
        let first = code_of_statement(statements[0]);
        let rest = code_of_statements(statements.drop_first());
        lemma_stands_at_parts(m.code, m.pc, first, rest);
        lemma_statement_runs(statements[0], m, locals, unit);
        let one = statements[0].run(locals, unit);
        match one.result {
            Ok(v) => {
                let next = Machine { last: v, ..passed(m, first.len(), m.stack) };
                lemma_statements_run(statements.drop_first(), next, one.locals, unit);
            },
            Err(_) => {},
        }
    }
}

/// Lowering is faithful for statements: for every arithmetic, the machine
/// that starts on the instructions of a statement list ends with what the
/// statements do, one after the other.
pub proof fn lemma_machine_runs_statements(
    statements: Seq<Assign>,
    locals: Map<Seq<char>, Number>,
    unit: Unit,
)
    ensures
        Machine::start(code_of_statements(statements)).run(locals, unit) == run_statements(
            statements,
            locals,
            unit,
            Number::zero(),
        ),
{
    let code = code_of_statements(statements);
    let m = Machine::start(code);
    assert(code.subrange(0, code.len() as int) =~= code);
    lemma_statements_run(statements, m, locals, unit);
}

/// Lowering is faithful for expressions: for every arithmetic, the machine
/// that starts on the instructions of an expression ends with the value of
/// the expression, and binds nothing.
pub proof fn lemma_machine_runs_expression(e: Expr, locals: Map<Seq<char>, Number>, unit: Unit)
    ensures
        Machine::start(code_of(e)).run(locals, unit) == (Outcome {
            result: e.value(locals, unit),
            locals,
        }),
{
    let code = code_of(e);
    let m = Machine::start(code);
    assert(code.subrange(0, code.len() as int) =~= code);
    lemma_expression_runs(e, m, locals, unit);
    match e.value(locals, unit) {
        Ok(v) => {
            let end = passed(m, code.len(), m.stack.push(v));
            assert(end.stepped(locals) is None);
            assert(end.result() == v);
        },
        Err(_) => {},
    }
}

proof fn lemma_all_inside(names: Seq<Seq<char>>, scope: Set<Seq<char>>)
    requires
        first_outside(names, scope) is None,
    ensures
        forall|i: int| 0 <= i < names.len() ==> scope.contains(#[trigger] names[i]),
    decreases names.len(),
{
    if names.len() > 0 {
        lemma_all_inside(names.drop_first(), scope);
        assert forall|i: int| 0 <= i < names.len() implies scope.contains(
            #[trigger] names[i],
        ) by {
            if i > 0 {
                assert(names[i] == names.drop_first()[i - 1]);
            }
        }
    }
}

proof fn lemma_resolved_expression(e: Expr, locals: Map<Seq<char>, Number>, unit: Unit)
    requires
        forall|i: int|
            0 <= i < e.variables().len() ==> known(locals).contains(#[trigger] e.variables()[i]),
    ensures
        e.value(locals, unit) matches Err(fault) ==> fault is InvalidNumber,
    decreases e,
{
    match e {
        Expr::Number(_) => {},
        Expr::Var(name) => {
            assert(e.variables()[0] == name);
        },
        Expr::Unary(_, inner) => {
            assert(e.variables() == inner.variables());
            lemma_resolved_expression(*inner, locals, unit);
        },
        Expr::Binary(_, left, right) => {
            let front = left.variables();
            let back = right.variables();
            assert forall|i: int| 0 <= i < front.len() implies known(locals).contains(
                #[trigger] front[i],
            ) by {
                assert(e.variables()[i] == front[i]);
            }
            assert forall|i: int| 0 <= i < back.len() implies known(locals).contains(
                #[trigger] back[i],
            ) by {
                assert(e.variables()[front.len() + i] == back[i]);
            }
            lemma_resolved_expression(*left, locals, unit);
            lemma_resolved_expression(*right, locals, unit);
        },
    }
}

/// An expression that passes the semantic pass does not fail on a name
/// when it is evaluated with the same variables: the only fault left is a
/// numeral that is no number.
pub proof fn lemma_checked_expression_resolves(
    e: Expr,
    locals: Map<Seq<char>, Number>,
    unit: Unit,
)
    requires
        e.check(locals) is Ok,
    ensures
        e.value(locals, unit) matches Err(fault) ==> fault is InvalidNumber,
{
    lemma_all_inside(e.variables(), known(locals));
    lemma_resolved_expression(e, locals, unit);
}

proof fn lemma_checked_run(
    statements: Seq<Assign>,
    checked: Map<Seq<char>, Number>,
    locals: Map<Seq<char>, Number>,
    unit: Unit,
    last: Number,
)
    requires
        check_statements(statements, checked).result is Ok,
        known(checked) == known(locals),
    ensures
        run_statements(statements, locals, unit, last).result matches Err(fault)
            ==> fault is InvalidNumber,
    decreases statements.len(),
{
    if statements.len() > 0 {
        let s = statements[0];
        lemma_all_inside(s.value.variables(), known(checked));
        lemma_resolved_expression(s.value, locals, unit);
        let one = s.run(locals, unit);
        match one.result {
            Ok(v) => {
                assert(s.check(checked).result is Ok);
                assert(!builtins().contains_key(s.target));
                assert(s.check(checked).locals == checked.insert(s.target, Number::zero()));
                assert(one.locals == locals.insert(s.target, v));
                assert(known(checked.insert(s.target, Number::zero())) =~= known(checked).insert(
                    s.target,
                ));
                assert(known(locals.insert(s.target, v)) =~= known(locals).insert(s.target));
                assert(known(s.check(checked).locals) =~= known(one.locals));
                lemma_checked_run(
                    statements.drop_first(),
                    s.check(checked).locals,
                    one.locals,
                    unit,
                    v,
                );
            },
            Err(_) => {},
        }
    }
}

/// Statements that pass the semantic pass do not fail on a name when they
/// are run from the same variables, whatever the arithmetic: the only fault
/// left is a numeral that is no number.
pub proof fn lemma_checked_statements_resolve(
    statements: Seq<Assign>,
    locals: Map<Seq<char>, Number>,
    unit: Unit,
)
    requires
        check_statements(statements, locals).result is Ok,
    ensures
        run_statements(statements, locals, unit, Number::zero()).result matches Err(fault)
            ==> fault is InvalidNumber,
{
    lemma_checked_run(statements, locals, locals, unit, Number::zero());
}

/// A pure expression passes the semantic pass whatever the variables are,
/// and its value does not depend on them.
pub proof fn lemma_pure_needs_no_variables(
    e: Expr,
    locals: Map<Seq<char>, Number>,
    others: Map<Seq<char>, Number>,
    unit: Unit,
)
    requires
        e.is_pure(),
    ensures
        e.check(locals) is Ok,
        e.value(locals, unit) == e.value(others, unit),
    decreases e,
{
    match e {
        Expr::Number(_) => {},
        Expr::Var(_) => {},
        Expr::Unary(_, inner) => {
            lemma_pure_needs_no_variables(*inner, locals, others, unit);
        },
        Expr::Binary(_, left, right) => {
            lemma_pure_needs_no_variables(*left, locals, others, unit);
            lemma_pure_needs_no_variables(*right, locals, others, unit);
        },
    }
}

} // verus!
