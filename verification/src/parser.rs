use vstd::prelude::*;
use vstd::string::StringExecFns;
use crate::ast::{
    Assign, AssignNode, BinaryOpNode, BinaryOpType, Expr, Expression, NumberNode,
    StatementListNode, UnaryOpNode, UnaryOpType, VarNode,
};
use crate::error::{Fault, ParseError};
use crate::grammar::{
    lemma_productions_advance, parse_expr, parse_expr_rest, parse_factor, parse_line,
    parse_statement, parse_statements, parse_statements_rest, parse_term, parse_term_rest,
    parse_variable, remaining, token_at, Parsed,
};
use crate::token::{views, Tok, Token};

verus! {

/// A recursive-descent parser over a vector of tokens.
///
/// Each method reads one production of the grammar at the current position
/// and leaves the position after the tokens it took, also where it fails.
/// The depth of the recursion is that of the nesting of signs and brackets
/// in the input, which is not bounded.
pub struct Parser {
    tokens: Vec<Token>,
    pos: usize,
}

/// The tree of a parsed expression, or the fault of a failed attempt.
pub open spec fn expression_read(r: Result<Box<Expression>, ParseError>) -> Result<Expr, Fault> {
    match r {
        Ok(node) => Ok(node@),
        Err(e) => Err(e@),
    }
}

/// The name of a parsed variable, or the fault of a failed attempt.
pub open spec fn variable_read(r: Result<Box<VarNode>, ParseError>) -> Result<Seq<char>, Fault> {
    match r {
        Ok(node) => Ok(node.name@),
        Err(e) => Err(e@),
    }
}

/// The assignment that was parsed, or the fault of a failed attempt.
pub open spec fn statement_read(r: Result<Box<AssignNode>, ParseError>) -> Result<Assign, Fault> {
    match r {
        Ok(node) => Ok(node@),
        Err(e) => Err(e@),
    }
}

/// The statements that were parsed, or the fault of a failed attempt.
pub open spec fn statements_read(r: Result<Box<StatementListNode>, ParseError>) -> Result<
    Seq<Assign>,
    Fault,
> {
    match r {
        Ok(node) => Ok(node@),
        Err(e) => Err(e@),
    }
}

impl Parser {
    /// The tokens that the parser was made with.
    pub closed spec fn tokens(&self) -> Seq<Tok> {
        views(self.tokens@)
    }

    /// How many tokens have been taken.
    pub closed spec fn position(&self) -> nat {
        self.pos as nat
    }

    /// A parser before the first of `tokens`.
    pub fn new(tokens: Vec<Token>) -> (r: Parser)
        ensures
            r.tokens() == views(tokens@),
            r.position() == 0,
    {
        Parser { tokens, pos: 0 }
    }

    /// How many tokens have been taken.
    pub fn taken(&self) -> (r: usize)
        ensures
            r == self.position(),
    {
        self.pos
    }

    /// The token at the current position, if there is one.
    fn peek_token(&self) -> (r: Option<&Token>)
        ensures
            match r {
                Some(t) => token_at(self.tokens(), self.position()) == Some(t@),
                None => token_at(self.tokens(), self.position()) is None,
            },
            r is Some ==> self.pos < self.tokens.len(),
    {
        if self.pos < self.tokens.len() {
            Some(&self.tokens[self.pos])
        } else {
            None
        }
    }

    /// Takes the token at the current position, if there is one.
    fn next_token(&mut self) -> (r: Option<Token>)
        ensures
            final(self).tokens() == old(self).tokens(),
            match r {
                Some(t) => token_at(old(self).tokens(), old(self).position()) == Some(t@)
                    && final(self).position() == old(self).position() + 1,
                None => token_at(old(self).tokens(), old(self).position()) is None
                    && final(self).position() == old(self).position(),
            },
    {
        if self.pos < self.tokens.len() {
            let token = self.tokens[self.pos].clone();
            self.pos = self.pos + 1;
            Some(token)
        } else {
            None
        }
    }

    /// Reads a whole input line: a list of statements, with nothing behind
    /// it but the end marker.
    pub fn parse(&mut self) -> (r: Result<Box<StatementListNode>, ParseError>)
        ensures
            final(self).tokens() == old(self).tokens(),
            parse_line(old(self).tokens(), old(self).position()) == (Parsed {
                result: statements_read(r),
                next: final(self).position(),
            }),
    {
        let list = match self.statement_list() {
            Ok(list) => list,
            Err(e) => {
                return Err(e);
            },
        };
        let extra = match self.peek_token() {
            None => None,
            Some(Token::EOF) => None,
            Some(token) => Some(token.clone()),
        };
        match extra {
            None => Ok(list),
            Some(token) => {
                self.pos = self.pos + 1;
                Err(ParseError::UnexpectedToken(token))
            },
        }
    }

    /// Reads the name of a variable or of a built-in constant.
    pub fn variable(&mut self) -> (r: Result<Box<VarNode>, ParseError>)
        ensures
            final(self).tokens() == old(self).tokens(),
            parse_variable(old(self).tokens(), old(self).position()) == (Parsed {
                result: variable_read(r),
                next: final(self).position(),
            }),
    {
        match self.next_token() {
            None => Err(ParseError::UnexpectedEOF),
            Some(Token::ID(name)) => Ok(Box::new(VarNode::new(name))),
            Some(Token::E) => {
                proof {
                    reveal_strlit("e");
                    assert("e"@ =~= seq!['e']);
                }
                Ok(Box::new(VarNode::new(String::from_str("e"))))
            },
            Some(Token::PI) => {
                proof {
                    reveal_strlit("pi");
                    assert("pi"@ =~= seq!['p', 'i']);
                }
                Ok(Box::new(VarNode::new(String::from_str("pi"))))
            },
            Some(token) => Err(ParseError::UnexpectedToken(token)),
        }
    }

    /// Reads an assignment.
    pub fn assignment_statement(&mut self) -> (r: Result<Box<AssignNode>, ParseError>)
        ensures
            final(self).tokens() == old(self).tokens(),
            parse_statement(old(self).tokens(), old(self).position()) == (Parsed {
                result: statement_read(r),
                next: final(self).position(),
            }),
    {
        let var_node = match self.variable() {
            Ok(node) => node,
            Err(e) => {
                return Err(e);
            },
        };
        match self.next_token() {
            None => Err(ParseError::UnexpectedEOF),
            Some(Token::ASSIGN) => match self.expr() {
                Ok(value) => Ok(Box::new(AssignNode::new(var_node, value))),
                Err(e) => Err(e),
            },
            Some(token) => Err(ParseError::UnexpectedToken(token)),
        }
    }

    /// Reads a statement; every statement is an assignment.
    pub fn statement(&mut self) -> (r: Result<Box<AssignNode>, ParseError>)
        ensures
            final(self).tokens() == old(self).tokens(),
            parse_statement(old(self).tokens(), old(self).position()) == (Parsed {
                result: statement_read(r),
                next: final(self).position(),
            }),
    {
        self.assignment_statement()
    }

    /// Reads statements separated by semicolons, up to the first token that
    /// is no semicolon.
    pub fn statement_list(&mut self) -> (r: Result<Box<StatementListNode>, ParseError>)
        ensures
            final(self).tokens() == old(self).tokens(),
            parse_statements(old(self).tokens(), old(self).position()) == (Parsed {
                result: statements_read(r),
                next: final(self).position(),
            }),
    {
        let ghost ts = self.tokens();
        let ghost goal = parse_statements(ts, self.position());
        let first = match self.statement() {
            Ok(node) => node,
            Err(e) => {
                return Err(e);
            },
        };
        let mut nodes: Vec<AssignNode> = Vec::new();
        nodes.push(*first);
        assert(nodes@.map_values(|node: AssignNode| node@) =~= seq![first@]);
        loop
            invariant
                self.tokens() == ts,
                ts == old(self).tokens(),
                goal == parse_statements(ts, old(self).position()),
                parse_statements_rest(
                    ts,
                    self.position(),
                    nodes@.map_values(|node: AssignNode| node@),
                ) == goal,
            decreases remaining(ts, self.position()),
        {
            let ghost done = nodes@.map_values(|node: AssignNode| node@);
            let ghost here = self.position();
            match self.peek_token() {
                Some(Token::SEMI) => {},
                _ => {
                    return Ok(Box::new(StatementListNode::new(nodes)));
                },
            }
            self.pos = self.pos + 1;
            let one = match self.statement() {
                Ok(node) => node,
                Err(e) => {
                    return Err(e);
                },
            };
            proof {
                lemma_productions_advance(ts, here + 1);
            }
            nodes.push(*one);
            assert(nodes@.map_values(|node: AssignNode| node@) =~= done.push(one@));
        }
    }

    /// Reads a factor: a signed factor, a numeral, a name, or an expression
    /// in round brackets.
    pub fn factor(&mut self) -> (r: Result<Box<Expression>, ParseError>)
        ensures
            final(self).tokens() == old(self).tokens(),
            parse_factor(old(self).tokens(), old(self).position()) == (Parsed {
                result: expression_read(r),
                next: final(self).position(),
            }),
        decreases remaining(old(self).tokens(), old(self).position()), 1nat,
    {
        let sign = match self.peek_token() {
            None => {
                return Err(ParseError::UnexpectedEOF);
            },
            Some(Token::PLUS) => Some(UnaryOpType::PLUS),
            Some(Token::MINUS) => Some(UnaryOpType::MINUS),
            Some(Token::NUMBER(text)) => {
                let node = Box::new(Expression::Number(NumberNode::new(text.clone())));
                self.pos = self.pos + 1;
                return Ok(node);
            },
            Some(Token::LPAREN) => None,
            Some(_) => {
                return match self.variable() {
                    Ok(node) => Ok(Box::new(Expression::Var(*node))),
                    Err(e) => Err(e),
                };
            },
        };
        self.pos = self.pos + 1;
        match sign {
            Some(op) => match self.factor() {
                Ok(inner) => Ok(Box::new(Expression::Unary(UnaryOpNode::new(inner, op)))),
                Err(e) => Err(e),
            },
            None => {
                let inner = match self.expr() {
                    Ok(node) => node,
                    Err(e) => {
                        return Err(e);
                    },
                };
                match self.next_token() {
                    None => Err(ParseError::UnexpectedEOF),
                    Some(Token::RPAREN) => Ok(inner),
                    Some(token) => Err(ParseError::UnexpectedToken(token)),
                }
            },
        }
    }

    /// Reads a term: factors joined by `*` and `/`, grouped from the left.
    pub fn term(&mut self) -> (r: Result<Box<Expression>, ParseError>)
        ensures
            final(self).tokens() == old(self).tokens(),
            parse_term(old(self).tokens(), old(self).position()) == (Parsed {
                result: expression_read(r),
                next: final(self).position(),
            }),
        decreases remaining(old(self).tokens(), old(self).position()), 3nat,
    {
        let ghost ts = self.tokens();
        let ghost goal = parse_term(ts, self.position());
        proof {
            lemma_productions_advance(ts, self.position());
        }
        let mut left = match self.factor() {
            Ok(node) => node,
            Err(e) => {
                return Err(e);
            },
        };
        loop
            invariant
                self.tokens() == ts,
                goal == parse_term(ts, old(self).position()),
                parse_term_rest(ts, self.position(), left@) == goal,
                remaining(ts, self.position()) < remaining(
                    old(self).tokens(),
                    old(self).position(),
                ),
                ts == old(self).tokens(),
            decreases remaining(ts, self.position()),
        {
            let ghost here = self.position();
            let op = match self.peek_token() {
                Some(Token::MUL) => BinaryOpType::MUL,
                Some(Token::DIV) => BinaryOpType::DIV,
                _ => {
                    return Ok(left);
                },
            };
            self.pos = self.pos + 1;
            proof {
                lemma_productions_advance(ts, here + 1);
            }
            let right = match self.factor() {
                Ok(node) => node,
                Err(e) => {
                    return Err(e);
                },
            };
            left = Box::new(Expression::Binary(BinaryOpNode::new(left, right, op)));
        }
    }

    /// Reads an expression: terms joined by `+` and `-`, grouped from the
    /// left.
    pub fn expr(&mut self) -> (r: Result<Box<Expression>, ParseError>)
        ensures
            final(self).tokens() == old(self).tokens(),
            parse_expr(old(self).tokens(), old(self).position()) == (Parsed {
                result: expression_read(r),
                next: final(self).position(),
            }),
        decreases remaining(old(self).tokens(), old(self).position()), 5nat,
    {
        let ghost ts = self.tokens();
        let ghost goal = parse_expr(ts, self.position());
        proof {
            lemma_productions_advance(ts, self.position());
        }
        let mut left = match self.term() {
            Ok(node) => node,
            Err(e) => {
                return Err(e);
            },
        };
        loop
            invariant
                self.tokens() == ts,
                goal == parse_expr(ts, old(self).position()),
                parse_expr_rest(ts, self.position(), left@) == goal,
                remaining(ts, self.position()) < remaining(
                    old(self).tokens(),
                    old(self).position(),
                ),
                ts == old(self).tokens(),
            decreases remaining(ts, self.position()),
        {
            let ghost here = self.position();
            let op = match self.peek_token() {
                Some(Token::PLUS) => BinaryOpType::ADD,
                Some(Token::MINUS) => BinaryOpType::SUB,
                _ => {
                    return Ok(left);
                },
            };
            self.pos = self.pos + 1;
            proof {
                lemma_productions_advance(ts, here + 1);
            }
            let right = match self.term() {
                Ok(node) => node,
                Err(e) => {
                    return Err(e);
                },
            };
            left = Box::new(Expression::Binary(BinaryOpNode::new(left, right, op)));
        }
    }
}

} // verus!
