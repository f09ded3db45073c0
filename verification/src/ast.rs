use vstd::prelude::*;

verus! {

/// The prefix operators.
#[derive(Clone, Copy, Debug, PartialEq, Eq, Structural)]
pub enum UnaryOpType {
    PLUS,
    MINUS,
}

/// The infix operators.
#[derive(Clone, Copy, Debug, PartialEq, Eq, Structural)]
pub enum BinaryOpType {
    ADD,
    SUB,
    MUL,
    DIV,
}

/// An expression as a mathematical tree: what an [`Expression`] stands for.
pub ghost enum Expr {
    /// A literal, by the text of its numeral.
    Number(Seq<char>),
    /// A reference to a variable or a built-in constant, by name.
    Var(Seq<char>),
    Unary(UnaryOpType, Box<Expr>),
    Binary(BinaryOpType, Box<Expr>, Box<Expr>),
}

/// An assignment as a mathematical value: what an [`AssignNode`] stands for.
pub ghost struct Assign {
    pub target: Seq<char>,
    pub value: Expr,
}

impl Expr {
    /// The names referred to, from left to right, each as often as it occurs.
    pub open spec fn variables(self) -> Seq<Seq<char>>
        decreases self,
    {
        match self {
            Expr::Number(_) => Seq::empty(),
            Expr::Var(name) => seq![name],
            Expr::Unary(_, inner) => inner.variables(),
            Expr::Binary(_, left, right) => left.variables() + right.variables(),
        }
    }

    /// Whether the expression refers to no variable at all.
    pub open spec fn is_pure(self) -> bool {
        self.variables().len() == 0
    }
}

/// A literal.
#[derive(Debug)]
pub struct NumberNode {
    pub literal: String,
}

/// A reference to a variable or a built-in constant.
#[derive(Debug)]
pub struct VarNode {
    pub name: String,
}

/// A prefix operator applied to an expression.
#[derive(Debug)]
pub struct UnaryOpNode {
    pub node: Box<Expression>,
    pub op_type: UnaryOpType,
}

/// An infix operator applied to two expressions.
#[derive(Debug)]
pub struct BinaryOpNode {
    pub left: Box<Expression>,
    pub right: Box<Expression>,
    pub op_type: BinaryOpType,
}

/// An expression: one of the four kinds of node.
#[derive(Debug)]
pub enum Expression {
    Number(NumberNode),
    Var(VarNode),
    Unary(UnaryOpNode),
    Binary(BinaryOpNode),
}

/// An assignment of an expression's value to a variable.
#[derive(Debug)]
pub struct AssignNode {
    pub var: Box<VarNode>,
    pub expression: Box<Expression>,
}

/// The statements of one input line, in order.
#[derive(Debug)]
pub struct StatementListNode {
    pub nodes: Vec<AssignNode>,
}

impl Expression {
    /// The tree that this expression stands for.
    pub open spec fn model(self) -> Expr
        decreases self,
    {
        match self {
            Expression::Number(node) => Expr::Number(node.literal@),
            Expression::Var(node) => Expr::Var(node.name@),
            Expression::Unary(node) => Expr::Unary(node.op_type, Box::new(node.node.model())),
            Expression::Binary(node) => Expr::Binary(
                node.op_type,
                Box::new(node.left.model()),
                Box::new(node.right.model()),
            ),
        }
    }
}

impl View for NumberNode {
    type V = Expr;

    open spec fn view(&self) -> Expr {
        Expr::Number(self.literal@)
    }
}

impl View for VarNode {
    type V = Expr;

    open spec fn view(&self) -> Expr {
        Expr::Var(self.name@)
    }
}

impl View for UnaryOpNode {
    type V = Expr;

    open spec fn view(&self) -> Expr {
        Expr::Unary(self.op_type, Box::new(self.node.model()))
    }
}

impl View for BinaryOpNode {
    type V = Expr;

    open spec fn view(&self) -> Expr {
        Expr::Binary(self.op_type, Box::new(self.left.model()), Box::new(self.right.model()))
    }
}

impl View for Expression {
    type V = Expr;

    open spec fn view(&self) -> Expr {
        self.model()
    }
}

impl View for AssignNode {
    type V = Assign;

    open spec fn view(&self) -> Assign {
        Assign { target: self.var.name@, value: self.expression@ }
    }
}

impl View for StatementListNode {
    type V = Seq<Assign>;

    open spec fn view(&self) -> Seq<Assign> {
        self.nodes@.map_values(|node: AssignNode| node@)
    }
}

impl NumberNode {
    /// The literal with the numeral `literal`.
    pub fn new(literal: String) -> (r: NumberNode)
        ensures
            r@ == Expr::Number(literal@),
    {
        NumberNode { literal }
    }

    /// A literal refers to no variable.
    pub fn pure(&self) -> (r: bool)
        ensures
            r == self@.is_pure(),
    {
        true
    }
}

impl VarNode {
    /// The reference to `name`.
    pub fn new(name: String) -> (r: VarNode)
        ensures
            r@ == Expr::Var(name@),
    {
        VarNode { name }
    }

    /// The name referred to.
    pub fn name(&self) -> (r: &String)
        ensures
            self@ == Expr::Var(r@),
    {
        &self.name
    }

    /// A reference is never pure.
    pub fn pure(&self) -> (r: bool)
        ensures
            r == self@.is_pure(),
    {
        false
    }
}

impl UnaryOpNode {
    /// The operator `op_type` before `node`.
    pub fn new(node: Box<Expression>, op_type: UnaryOpType) -> (r: UnaryOpNode)
        ensures
            r@ == Expr::Unary(op_type, Box::new(node@)),
    {
        UnaryOpNode { node, op_type }
    }

    /// Whether the operand refers to no variable.
    pub fn pure(&self) -> (r: bool)
        ensures
            r == self@.is_pure(),
        decreases self,
    {
        self.node.pure()
    }
}

impl BinaryOpNode {
    /// The operator `op_type` between `left` and `right`.
    pub fn new(left: Box<Expression>, right: Box<Expression>, op_type: BinaryOpType) -> (r:
        BinaryOpNode)
        ensures
            r@ == Expr::Binary(op_type, Box::new(left@), Box::new(right@)),
    {
        BinaryOpNode { left, right, op_type }
    }

    /// Whether neither operand refers to a variable.
    pub fn pure(&self) -> (r: bool)
        ensures
            r == self@.is_pure(),
        decreases self,
    {
        self.left.pure() && self.right.pure()
    }
}

impl Expression {
    /// Whether the expression refers to no variable.
    pub fn pure(&self) -> (r: bool)
        ensures
            r == self@.is_pure(),
        decreases self,
    {
        match self {
            Expression::Number(node) => node.pure(),
            Expression::Var(node) => node.pure(),
            Expression::Unary(node) => node.pure(),
            Expression::Binary(node) => node.pure(),
        }
    }
}

impl AssignNode {
    /// The assignment of `expression` to the variable that `var` names.
    pub fn new(var: Box<VarNode>, expression: Box<Expression>) -> (r: AssignNode)
        ensures
            r@ == (Assign { target: var.name@, value: expression@ }),
    {
        AssignNode { var, expression }
    }
}

impl StatementListNode {
    /// The list of the statements `nodes`.
    pub fn new(nodes: Vec<AssignNode>) -> (r: StatementListNode)
        ensures
            r.nodes == nodes,
            r@ == nodes@.map_values(|node: AssignNode| node@),
    {
        StatementListNode { nodes }
    }
}

} // verus!
