use vstd::prelude::*;
use crate::ast::{
    AssignNode, BinaryOpNode, BinaryOpType, Expression, NumberNode, StatementListNode,
    UnaryOpNode, UnaryOpType, VarNode,
};
use crate::error::{EvalError, InterpreterError, LexError};
use crate::machine::{
    code_of, code_of_statement, code_of_statements, Demand, Instr, Machine, Settled, Stage,
};
use crate::number::Number;
use crate::symbol_table::SymbolTable;

verus! {

/// One instruction of the machine.
#[derive(Debug)]
pub enum Instruction {
    Literal(String),
    Load(String),
    Unary(UnaryOpType),
    Binary(BinaryOpType),
    Store(String),
}

/// What an evaluation asks of its caller.
#[derive(Debug)]
pub enum Request {
    /// The number that the numeral stands for, if it is one.
    Convert(String),
    /// The result of the operator on the two numbers, the first being the
    /// left operand.
    Apply(BinaryOpType, Number, Number),
}

/// Where an evaluation stands.
#[derive(Debug)]
pub enum Progress {
    /// It goes on when the request is answered.
    Need(Request),
    /// It has ended, with a value or an error.
    Done(Result<Number, InterpreterError>),
}

impl View for Instruction {
    type V = Instr;

    open spec fn view(&self) -> Instr {
        match self {
            Instruction::Literal(text) => Instr::Literal(text@),
            Instruction::Load(name) => Instr::Load(name@),
            Instruction::Unary(op) => Instr::Unary(*op),
            Instruction::Binary(op) => Instr::Binary(*op),
            Instruction::Store(name) => Instr::Store(name@),
        }
    }
}

impl View for Request {
    type V = Demand;

    open spec fn view(&self) -> Demand {
        match self {
            Request::Convert(text) => Demand::Convert(text@),
            Request::Apply(op, a, b) => Demand::Apply(*op, *a, *b),
        }
    }
}

impl View for Progress {
    type V = Stage;

    open spec fn view(&self) -> Stage {
        match self {
            Progress::Need(request) => Stage::Need(request@),
            Progress::Done(Ok(value)) => Stage::Done(Ok(*value)),
            Progress::Done(Err(e)) => Stage::Done(Err(e@)),
        }
    }
}

/// The instructions that a vector holds, in order.
pub open spec fn instrs(code: Seq<Instruction>) -> Seq<Instr> {
    code.map_values(|i: Instruction| i@)
}

impl NumberNode {
    /// Appends the instruction that pushes the literal.
    pub fn lower(&self, code: &mut Vec<Instruction>)
        ensures
            instrs(final(code)@) == instrs(old(code)@) + code_of(self@),
    {
        code.push(Instruction::Literal(self.literal.clone()));
        assert(instrs(code@) =~= instrs(old(code)@) + code_of(self@));
    }
}

impl VarNode {
    /// Appends the instruction that pushes the value of the name.
    pub fn lower(&self, code: &mut Vec<Instruction>)
        ensures
            instrs(final(code)@) == instrs(old(code)@) + code_of(self@),
    {
        code.push(Instruction::Load(self.name.clone()));
        assert(instrs(code@) =~= instrs(old(code)@) + code_of(self@));
    }
}

impl UnaryOpNode {
    /// Appends the instructions of the operand, then that of the operator.
    pub fn lower(&self, code: &mut Vec<Instruction>)
        ensures
            instrs(final(code)@) == instrs(old(code)@) + code_of(self@),
        decreases self,
    {
        self.node.lower(code);
        let ghost mid = instrs(code@);
        code.push(Instruction::Unary(self.op_type));
        proof {
            assert(instrs(code@) =~= mid.push(Instr::Unary(self.op_type)));
            assert(code_of(self@) =~= code_of(self.node@).push(Instr::Unary(self.op_type)));
            assert(instrs(code@) =~= instrs(old(code)@) + code_of(self@));
        }
    }
}

impl BinaryOpNode {
    /// Appends the instructions of the left operand, those of the right
    /// one, then that of the operator.
    pub fn lower(&self, code: &mut Vec<Instruction>)
        ensures
            instrs(final(code)@) == instrs(old(code)@) + code_of(self@),
        decreases self,
    {
        self.left.lower(code);
        self.right.lower(code);
        let ghost mid = instrs(code@);
        code.push(Instruction::Binary(self.op_type));
        proof {
            assert(instrs(code@) =~= mid.push(Instr::Binary(self.op_type)));
            assert(code_of(self@) =~= (code_of(self.left@) + code_of(self.right@)).push(
                Instr::Binary(self.op_type),
            ));
            assert(instrs(code@) =~= instrs(old(code)@) + code_of(self@));
        }
    }
}

impl Expression {
    /// Appends the instructions that compute the expression.
    pub fn lower(&self, code: &mut Vec<Instruction>)
        ensures
            instrs(final(code)@) == instrs(old(code)@) + code_of(self@),
        decreases self,
    {
        match self {
            Expression::Number(node) => node.lower(code),
            Expression::Var(node) => node.lower(code),
            Expression::Unary(node) => node.lower(code),
            Expression::Binary(node) => node.lower(code),
        }
    }
}

impl AssignNode {
    /// Appends the instructions of the value, then the store to the
    /// target.
    pub fn lower(&self, code: &mut Vec<Instruction>)
        ensures
            instrs(final(code)@) == instrs(old(code)@) + code_of_statement(self@),
    {
        self.expression.lower(code);
        let ghost mid = instrs(code@);
        code.push(Instruction::Store(self.var.name.clone()));
        proof {
            assert(instrs(code@) =~= mid.push(Instr::Store(self.var.name@)));
            assert(instrs(code@) =~= instrs(old(code)@) + code_of_statement(self@));
        }
    }
}

impl StatementListNode {
    /// Appends the instructions of the statements, in order.
    pub fn lower(&self, code: &mut Vec<Instruction>)
        ensures
            instrs(final(code)@) == instrs(old(code)@) + code_of_statements(self@),
    {
        let ghost before = instrs(code@);
        let mut i: usize = 0;
        proof {
            assert(self@.skip(0) =~= self@);
            assert(before + code_of_statements(self@) =~= instrs(code@) + code_of_statements(
                self@.skip(0),
            ));
        }
        while i < self.nodes.len()
            invariant
                i <= self.nodes.len(),
                before == instrs(old(code)@),
                instrs(code@) + code_of_statements(self@.skip(i as int)) == before
                    + code_of_statements(self@),
            decreases self.nodes.len() - i,
        {
            let ghost rest = self@.skip(i as int);
            let ghost sofar = instrs(code@);
            proof {
                assert(rest[0] == self.nodes[i as int]@);
                assert(rest.drop_first() =~= self@.skip(i + 1));
            }
            self.nodes[i].lower(code);
            proof {
                assert((sofar + code_of_statement(rest[0])) + code_of_statements(
                    rest.drop_first(),
                ) =~= sofar + code_of_statements(rest));
            }
            i = i + 1;
        }
        proof {
            assert(self@.skip(i as int).len() == 0);
            assert(instrs(code@) + Seq::<Instr>::empty() =~= instrs(code@));
        }
    }
}

/// The evaluation of a lowered tree: a stack machine that runs until it
/// needs the caller's arithmetic, and goes on when it gets the answer.
pub struct Evaluation {
    code: Vec<Instruction>,
    pc: usize,
    stack: Vec<Number>,
    last: Number,
    halted: Option<InterpreterError>,
}

impl View for Evaluation {
    type V = Machine;

    closed spec fn view(&self) -> Machine {
        Machine {
            code: instrs(self.code@),
            pc: self.pc as nat,
            stack: self.stack@,
            last: self.last,
            halted: match self.halted {
                Some(e) => Some(e@),
                None => None,
            },
        }
    }
}

impl Evaluation {
    /// An evaluation of nothing: it has ended, with zero.
    pub fn idle() -> (r: Evaluation)
        ensures
            r@ == Machine::start(Seq::empty()),
    {
        let r = Evaluation {
            code: Vec::new(),
            pc: 0,
            stack: Vec::new(),
            last: Number::from_bits(0),
            halted: None,
        };
        assert(r@.code =~= Seq::<Instr>::empty());
        r
    }

    /// The evaluation of an expression, before its first step.
    pub fn of_expression(expression: &Expression) -> (r: Evaluation)
        ensures
            r@ == Machine::start(code_of(expression@)),
    {
        let mut code: Vec<Instruction> = Vec::new();
        expression.lower(&mut code);
        let r = Evaluation {
            code,
            pc: 0,
            stack: Vec::new(),
            last: Number::from_bits(0),
            halted: None,
        };
        assert(r@.code =~= code_of(expression@));
        r
    }

    /// The evaluation of a statement list, before its first step.
    pub fn of_statements(statements: &StatementListNode) -> (r: Evaluation)
        ensures
            r@ == Machine::start(code_of_statements(statements@)),
    {
        let mut code: Vec<Instruction> = Vec::new();
        statements.lower(&mut code);
        let r = Evaluation {
            code,
            pc: 0,
            stack: Vec::new(),
            last: Number::from_bits(0),
            halted: None,
        };
        assert(r@.code =~= code_of_statements(statements@));
        r
    }

    /// Does the steps that need nothing from outside, and says where the
    /// evaluation then stands. Called again on an evaluation that needs an
    /// answer, it gives the same request again; on one that has ended, the
    /// same result.
    pub fn advance(&mut self, symtab: &mut SymbolTable) -> (r: Progress)
        ensures
            old(self)@.settled(old(symtab).locals()) == (Settled {
                machine: final(self)@,
                locals: final(symtab).locals(),
                stage: r@,
            }),
    {
        let ghost goal = self@.settled(symtab.locals());
        loop
            invariant
                goal == old(self)@.settled(old(symtab).locals()),
                self@.settled(symtab.locals()) == goal,
            decreases self@.distance(),
        {
            let ghost m = self@;
            let ghost locals = symtab.locals();
            match &self.halted {
                Some(e) => {
                    return Progress::Done(Err(e.clone()));
                },
                None => {},
            }
            let n = self.stack.len();
            if self.pc >= self.code.len() {
                let value = if n > 0 {
                    self.stack[n - 1]
                } else {
                    self.last
                };
                return Progress::Done(Ok(value));
            }
            assert(m.code[m.pc as int] == self.code[self.pc as int]@);
            match &self.code[self.pc] {
                Instruction::Literal(text) => {
                    return Progress::Need(Request::Convert(text.clone()));
                },
                Instruction::Load(name) => match symtab.get(name) {
                    Some(value) => {
                        self.stack.push(value);
                        self.pc = self.pc + 1;
                    },
                    None => {
                        self.halted = Some(
                            InterpreterError::Eval(EvalError::UndefinedSymbol(name.clone())),
                        );
                    },
                },
                Instruction::Unary(op) => {
                    if n >= 1 {
                        let value = self.stack[n - 1];
                        let changed = match op {
                            UnaryOpType::PLUS => value,
                            UnaryOpType::MINUS => value.negate(),
                        };
                        self.stack.set(n - 1, changed);
                        assert(self.stack@ =~= m.stack.take(n - 1).push(changed));
                    }
                    self.pc = self.pc + 1;
                },
                Instruction::Binary(op) => {
                    if n >= 2 {
                        return Progress::Need(
                            Request::Apply(*op, self.stack[n - 2], self.stack[n - 1]),
                        );
                    }
                    self.pc = self.pc + 1;
                },
                Instruction::Store(name) => {
                    if n >= 1 {
                        let value = self.stack[n - 1];
                        self.stack.truncate(n - 1);
                        self.last = value;
                        symtab.insert(name.clone(), value);
                    }
                    self.pc = self.pc + 1;
                },
            }
            assert(m.stepped(locals) == Some((self@, symtab.locals())));
        }
    }

    /// Takes the answer to the request that the evaluation stands at, and
    /// goes on as [`Evaluation::advance`] does. `None` says that there is no
    /// answer: before a literal, that its numeral is no number, which ends
    /// the evaluation with that error; before an operator it changes
    /// nothing. An evaluation that stands at no request takes no answer.
    pub fn resume(&mut self, symtab: &mut SymbolTable, reply: Option<Number>) -> (r: Progress)
        ensures
            old(self)@.supplied(reply).settled(old(symtab).locals()) == (Settled {
                machine: final(self)@,
                locals: final(symtab).locals(),
                stage: r@,
            }),
    {
        let ghost m = self@;
        let n = self.stack.len();
        if self.halted.is_none() && self.pc < self.code.len() {
            assert(m.code[m.pc as int] == self.code[self.pc as int]@);
            match &self.code[self.pc] {
                Instruction::Literal(text) => match reply {
                    Some(value) => {
                        self.stack.push(value);
                        self.pc = self.pc + 1;
                    },
                    None => {
                        self.halted = Some(
                            InterpreterError::Lex(LexError::InvalidNumber(text.clone())),
                        );
                    },
                },
                Instruction::Binary(_) => match reply {
                    Some(value) => {
                        if n >= 2 {
                            self.stack.truncate(n - 2);
                            self.stack.push(value);
                            self.pc = self.pc + 1;
                        }
                    },
                    None => {},
                },
                _ => {},
            }
        }
        assert(self@ == m.supplied(reply));
        self.advance(symtab)
    }
}

} // verus!
