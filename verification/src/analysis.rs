//! The semantic pass: every name that an expression refers to must have a
//! value, and no built-in constant may be assigned to.

use vstd::prelude::*;
use crate::ast::{
    Assign, AssignNode, BinaryOpNode, Expr, Expression, NumberNode, StatementListNode,
    UnaryOpNode, VarNode,
};
use crate::error::{Fault, SemanticError};
use crate::number::Number;
use crate::symbol_table::{builtins, SymbolTable};

verus! {

/// The names that have a value: the built-in constants and the variables.
pub open spec fn known(locals: Map<Seq<char>, Number>) -> Set<Seq<char>> {
    builtins().dom().union(locals.dom())
}

/// The first of `names` that is not in `scope`, if there is one.
pub open spec fn first_outside(names: Seq<Seq<char>>, scope: Set<Seq<char>>) -> Option<Seq<char>>
    decreases names.len(),
{
    if names.len() == 0 {
        None
    } else if !scope.contains(names[0]) {
        Some(names[0])
    } else {
        first_outside(names.drop_first(), scope)
    }
}

/// In a list of names joined from two, the first outside the scope is the
/// first such name of the front part, or else of the back part.
pub proof fn lemma_first_outside_joined(
    front: Seq<Seq<char>>,
    back: Seq<Seq<char>>,
    scope: Set<Seq<char>>,
)
    ensures
        first_outside(front + back, scope) == match first_outside(front, scope) {
            Some(name) => Some(name),
            None => first_outside(back, scope),
        },
    decreases front.len(),
{
    if front.len() == 0 {
        assert(front + back =~= back);
    } else {
        assert((front + back)[0] == front[0]);
        assert((front + back).drop_first() =~= front.drop_first() + back);
        lemma_first_outside_joined(front.drop_first(), back, scope);
    }
}

/// The first name outside the scope is one of the names, it is outside the
/// scope, and every name before it is inside. There is none exactly when
/// every name is inside.
pub proof fn lemma_first_outside_is_first(names: Seq<Seq<char>>, scope: Set<Seq<char>>)
    ensures
        match first_outside(names, scope) {
            Some(name) => exists|i: int|
                {
                    &&& 0 <= i < names.len()
                    &&& #[trigger] names[i] == name
                    &&& !scope.contains(name)
                    &&& forall|j: int| 0 <= j < i ==> scope.contains(#[trigger] names[j])
                },
            None => forall|j: int| 0 <= j < names.len() ==> scope.contains(#[trigger] names[j]),
        },
    decreases names.len(),
{
    if names.len() > 0 {
        let rest = names.drop_first();
        lemma_first_outside_is_first(rest, scope);
        if !scope.contains(names[0]) {
            assert(names[0] == names[0]);
        } else {
            match first_outside(rest, scope) {
                Some(name) => {
                    let i = choose|i: int|
                        {
                            &&& 0 <= i < rest.len()
                            &&& #[trigger] rest[i] == name
                            &&& !scope.contains(name)
                            &&& forall|j: int| 0 <= j < i ==> scope.contains(#[trigger] rest[j])
                        };
                    assert(names[i + 1] == name);
                    assert forall|j: int| 0 <= j < i + 1 implies scope.contains(
                        #[trigger] names[j],
                    ) by {
                        if j > 0 {
                            assert(names[j] == rest[j - 1]);
                        }
                    }
                },
                None => {
                    assert forall|j: int| 0 <= j < names.len() implies scope.contains(
                        #[trigger] names[j],
                    ) by {
                        if j > 0 {
                            assert(names[j] == rest[j - 1]);
                        }
                    }
                },
            }
        }
    }
}

/// The result of a check, as a fault or none.
pub open spec fn check_read(r: Result<(), SemanticError>) -> Result<(), Fault> {
    match r {
        Ok(()) => Ok(()),
        Err(e) => Err(e@),
    }
}

impl Expr {
    /// What the check of the expression gives where the variables are
    /// `locals`: the first name without a value is reported.
    pub open spec fn check(self, locals: Map<Seq<char>, Number>) -> Result<(), Fault> {
        match first_outside(self.variables(), known(locals)) {
            Some(name) => Err(Fault::UndefinedSymbol(name)),
            None => Ok(()),
        }
    }
}

/// What a check gave, and the variables after it.
pub ghost struct Checked {
    pub result: Result<(), Fault>,
    pub locals: Map<Seq<char>, Number>,
}

impl Assign {
    /// What the check of the assignment gives where the variables are
    /// `locals`. The value is checked first, then the target. Where both
    /// pass, the target becomes a variable, with zero for its value, so that
    /// statements behind this one may refer to it.
    pub open spec fn check(self, locals: Map<Seq<char>, Number>) -> Checked {
        match self.value.check(locals) {
            Err(fault) => Checked { result: Err(fault), locals },
            Ok(()) => if builtins().contains_key(self.target) {
                Checked { result: Err(Fault::RedefineBuiltin(self.target)), locals }
            } else {
                Checked { result: Ok(()), locals: locals.insert(self.target, Number::zero()) }
            },
        }
    }
}

/// What the check of the statements gives, one after the other, up to the
/// first that fails.
pub open spec fn check_statements(statements: Seq<Assign>, locals: Map<Seq<char>, Number>)
    -> Checked
    decreases statements.len(),
{
    if statements.len() == 0 {
        Checked { result: Ok(()), locals }
    } else {
        let first = statements[0].check(locals);
        match first.result {
            Err(fault) => first,
            Ok(()) => check_statements(statements.drop_first(), first.locals),
        }
    }
}

/// The names that statement `i` of a list may refer to: those that have a
/// value before the list, and the targets of the statements before it.
pub open spec fn scope_at(statements: Seq<Assign>, locals: Map<Seq<char>, Number>, i: int) -> Set<
    Seq<char>,
> {
    known(locals).union(
        Set::new(|name: Seq<char>| exists|j: int| 0 <= j < i && #[trigger] statements[j].target == name),
    )
}

/// Whether statement `i` of a list passes: its target is no built-in
/// constant, and every name in its value may be referred to there.
pub open spec fn passes_at(statements: Seq<Assign>, locals: Map<Seq<char>, Number>, i: int)
    -> bool {
    &&& !builtins().contains_key(statements[i].target)
    &&& first_outside(statements[i].value.variables(), scope_at(statements, locals, i)) is None
}

proof fn lemma_first_outside_by_scope(
    names: Seq<Seq<char>>,
    scope: Set<Seq<char>>,
    other: Set<Seq<char>>,
)
    requires
        scope =~= other,
    ensures
        first_outside(names, scope) == first_outside(names, other),
{
}

/// A statement list passes the semantic pass exactly if each of its
/// statements assigns to a name that is no built-in constant, and refers
/// only to names that had a value before the list or are assigned to by a
/// statement before it.
pub proof fn lemma_check_passes_statement_by_statement(
    statements: Seq<Assign>,
    locals: Map<Seq<char>, Number>,
)
    ensures
        check_statements(statements, locals).result is Ok <==> forall|i: int|
            0 <= i < statements.len() ==> passes_at(statements, locals, i),
    decreases statements.len(),
{
    if statements.len() > 0 {
        let first = statements[0];
        let rest = statements.drop_first();
        assert(scope_at(statements, locals, 0) =~= known(locals));
        lemma_first_outside_by_scope(
            first.value.variables(),
            scope_at(statements, locals, 0),
            known(locals),
        );
        if first.check(locals).result is Ok {
            let bound = first.check(locals).locals;
            lemma_check_passes_statement_by_statement(rest, bound);
            assert forall|i: int| 0 <= i < rest.len() implies scope_at(rest, bound, i)
                =~= scope_at(statements, locals, i + 1) by {
                let a = scope_at(rest, bound, i);
                let b = scope_at(statements, locals, i + 1);
                assert forall|name: Seq<char>| a.contains(name) implies b.contains(name) by {
                    if known(bound).contains(name) {
                        if !known(locals).contains(name) {
                            assert(name == first.target);
                            assert(statements[0].target == name);
                        }
                    } else {
                        let j = choose|j: int| 0 <= j < i && #[trigger] rest[j].target == name;
                        assert(statements[j + 1].target == name);
                    }
                }
                assert forall|name: Seq<char>| b.contains(name) implies a.contains(name) by {
                    if !known(locals).contains(name) {
                        let j = choose|j: int|
                            0 <= j < i + 1 && #[trigger] statements[j].target == name;
                        if j == 0 {
                            assert(bound.dom().contains(name));
                        } else {
                            assert(rest[j - 1].target == name);
                        }
                    }
                }
            }
            assert forall|i: int| 0 <= i < rest.len() implies (passes_at(rest, bound, i)
                <==> passes_at(statements, locals, i + 1)) by {
                assert(rest[i] == statements[i + 1]);
                lemma_first_outside_by_scope(
                    rest[i].value.variables(),
                    scope_at(rest, bound, i),
                    scope_at(statements, locals, i + 1),
                );
            }
            if check_statements(statements, locals).result is Ok {
                assert forall|i: int| 0 <= i < statements.len() implies passes_at(
                    statements,
                    locals,
                    i,
                ) by {
                    if i > 0 {
                        assert(passes_at(rest, bound, i - 1));
                    }
                }
            }
            if forall|i: int| 0 <= i < statements.len() ==> passes_at(statements, locals, i) {
                assert forall|i: int| 0 <= i < rest.len() implies passes_at(rest, bound, i) by {
                    assert(passes_at(statements, locals, i + 1));
                }
            }
        } else {
            assert(!passes_at(statements, locals, 0));
        }
    }
}

impl NumberNode {
    /// A literal refers to nothing, so it always passes.
    pub fn check_semantic(&self, symtab: &SymbolTable) -> (r: Result<(), SemanticError>)
        ensures
            check_read(r) == self@.check(symtab.locals()),
    {
        Ok(())
    }
}

impl VarNode {
    /// Passes if the name has a value.
    pub fn check_semantic(&self, symtab: &SymbolTable) -> (r: Result<(), SemanticError>)
        ensures
            check_read(r) == self@.check(symtab.locals()),
    {
        proof {
            let names = self@.variables();
            let scope = known(symtab.locals());
            assert(names[0] == self.name@);
            assert(names.drop_first() =~= Seq::<Seq<char>>::empty());
            assert(first_outside(names.drop_first(), scope) is None);
        }
        match symtab.get(&self.name) {
            Some(_) => Ok(()),
            None => Err(SemanticError::UndefinedSymbol(self.name.clone())),
        }
    }
}

impl UnaryOpNode {
    /// Checks the operand, unless it is pure.
    pub fn check_semantic(&self, symtab: &SymbolTable) -> (r: Result<(), SemanticError>)
        ensures
            check_read(r) == self@.check(symtab.locals()),
        decreases self,
    {
        if self.node.pure() {
            Ok(())
        } else {
            self.node.check_semantic(symtab)
        }
    }
}

impl BinaryOpNode {
    /// Checks the operands that are not pure, the left one first.
    pub fn check_semantic(&self, symtab: &SymbolTable) -> (r: Result<(), SemanticError>)
        ensures
            check_read(r) == self@.check(symtab.locals()),
        decreases self,
    {
        proof {
            lemma_first_outside_joined(
                self.left@.variables(),
                self.right@.variables(),
                known(symtab.locals()),
            );
        }
        if !self.left.pure() {
            match self.left.check_semantic(symtab) {
                Ok(()) => {},
                Err(e) => {
                    return Err(e);
                },
            }
        }
        if !self.right.pure() {
            self.right.check_semantic(symtab)
        } else {
            Ok(())
        }
    }
}

impl Expression {
    /// Checks that every name referred to has a value.
    pub fn check_semantic(&self, symtab: &SymbolTable) -> (r: Result<(), SemanticError>)
        ensures
            check_read(r) == self@.check(symtab.locals()),
        decreases self,
    {
        match self {
            Expression::Number(node) => node.check_semantic(symtab),
            Expression::Var(node) => node.check_semantic(symtab),
            Expression::Unary(node) => node.check_semantic(symtab),
            Expression::Binary(node) => node.check_semantic(symtab),
        }
    }
}

impl AssignNode {
    /// Checks the value, then the target, and makes the target a variable
    /// where both pass.
    pub fn check_semantic(&self, symtab: &mut SymbolTable) -> (r: Result<(), SemanticError>)
        ensures
            self@.check(old(symtab).locals()) == (Checked {
                result: check_read(r),
                locals: final(symtab).locals(),
            }),
    {
        if !self.expression.pure() {
            match self.expression.check_semantic(symtab) {
                Ok(()) => {},
                Err(e) => {
                    return Err(e);
                },
            }
        }
        if symtab.is_global(&self.var.name) {
            Err(SemanticError::RedefineBuiltin(self.var.name.clone()))
        } else {
            symtab.insert(self.var.name.clone(), Number::from_bits(0));
            Ok(())
        }
    }
}

impl StatementListNode {
    /// Checks the statements in order, up to the first that fails.
    pub fn check_semantic(&self, symtab: &mut SymbolTable) -> (r: Result<(), SemanticError>)
        ensures
            check_statements(self@, old(symtab).locals()) == (Checked {
                result: check_read(r),
                locals: final(symtab).locals(),
            }),
    {
        let ghost goal = check_statements(self@, symtab.locals());
        let mut i: usize = 0;
        assert(self@.skip(0) =~= self@);
        while i < self.nodes.len()
            invariant
                i <= self.nodes.len(),
                goal == check_statements(self@, old(symtab).locals()),
                check_statements(self@.skip(i as int), symtab.locals()) == goal,
            decreases self.nodes.len() - i,
        {
            let ghost rest = self@.skip(i as int);
            assert(rest[0] == self.nodes[i as int]@);
            assert(rest.drop_first() =~= self@.skip(i + 1));
            match self.nodes[i].check_semantic(symtab) {
                Ok(()) => {},
                Err(e) => {
                    return Err(e);
                },
            }
            i = i + 1;
        }
        assert(self@.skip(i as int).len() == 0);
        Ok(())
    }
}

} // verus!
