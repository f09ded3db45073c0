use calculator::{
    AssignNode, BinaryOpNode, BinaryOpType, Evaluation, Expression, Instruction,
    InterpreterError, Number, NumberNode, Progress, Request, StatementListNode, SymbolTable,
    UnaryOpNode, UnaryOpType, VarNode,
};

fn number(x: f64) -> Number {
    Number::from_bits(x.to_bits())
}

fn float(n: Number) -> f64 {
    f64::from_bits(n.to_bits())
}

fn answer(request: &Request) -> Option<Number> {
    match request {
        Request::Convert(text) => text.parse::<f64>().ok().map(number),
        Request::Apply(op, a, b) => {
            let (x, y) = (float(*a), float(*b));
            Some(number(match op {
                BinaryOpType::ADD => x + y,
                BinaryOpType::SUB => x - y,
                BinaryOpType::MUL => x * y,
                BinaryOpType::DIV => x / y,
            }))
        }
    }
}

fn run(mut evaluation: Evaluation, symtab: &mut SymbolTable) -> Result<f64, InterpreterError> {
    let mut progress = evaluation.advance(symtab);
    loop {
        match progress {
            Progress::Done(result) => return result.map(float),
            Progress::Need(request) => progress = evaluation.resume(symtab, answer(&request)),
        }
    }
}

fn eval(expression: &Expression, symtab: &mut SymbolTable) -> Result<f64, InterpreterError> {
    run(Evaluation::of_expression(expression), symtab)
}

fn literal(text: &str) -> Box<Expression> {
    Box::new(Expression::Number(NumberNode::new(text.to_string())))
}

fn variable(name: &str) -> Box<Expression> {
    Box::new(Expression::Var(VarNode::new(name.to_string())))
}

fn binary(left: Box<Expression>, right: Box<Expression>, op: BinaryOpType) -> Expression {
    Expression::Binary(BinaryOpNode::new(left, right, op))
}

#[test]
fn test_eval_add() {
    let lvalue: f64 = 32.;
    let rvalue: f64 = 128.;
    let mut symtab = SymbolTable::new();
    let node = binary(literal("32"), literal("128"), BinaryOpType::ADD);
    let result = eval(&node, &mut symtab);

    assert!(result.is_ok());
    assert_eq!(result.unwrap(), lvalue + rvalue);
}

#[test]
fn test_eval_sub() {
    let lvalue: f64 = 32.;
    let rvalue: f64 = 128.;
    let mut symtab = SymbolTable::new();
    let node = binary(literal("32"), literal("128"), BinaryOpType::SUB);
    let result = eval(&node, &mut symtab);

    assert!(result.is_ok());
    assert_eq!(result.unwrap(), lvalue - rvalue);
}

#[test]
fn test_eval_mul() {
    let lvalue: f64 = 32.;
    let rvalue: f64 = 128.;
    let mut symtab = SymbolTable::new();
    let node = binary(literal("32"), literal("128"), BinaryOpType::MUL);
    let result = eval(&node, &mut symtab);

    assert!(result.is_ok());
    assert_eq!(result.unwrap(), lvalue * rvalue);
}

#[test]
fn test_eval_div() {
    let lvalue: f64 = 32.;
    let rvalue: f64 = 128.;
    let mut symtab = SymbolTable::new();
    let node = binary(literal("32"), literal("128"), BinaryOpType::DIV);
    let result = eval(&node, &mut symtab);

    assert!(result.is_ok());
    assert_eq!(result.unwrap(), lvalue / rvalue);
}

#[test]
fn binary_test_pure() {
    let node = BinaryOpNode::new(literal("0"), literal("0"), BinaryOpType::ADD);

    assert!(node.pure());
}

#[test]
fn test_pure_left_is_false() {
    let node = BinaryOpNode::new(variable("a"), literal("0"), BinaryOpType::ADD);

    assert!(!node.pure());
}

#[test]
fn test_pure_right_is_false() {
    let node = BinaryOpNode::new(literal("0"), variable("a"), BinaryOpType::ADD);

    assert!(!node.pure());
}

#[test]
fn test_check_semantic_all_pure() {
    let mut symtab = SymbolTable::new();
    let node = BinaryOpNode::new(literal("0"), literal("0"), BinaryOpType::ADD);

    let result = node.check_semantic(&mut symtab);

    assert!(result.is_ok());
}

#[test]
fn test_check_semantic_not_pure() {
    let mut symtab = SymbolTable::new();
    symtab.insert("a".to_string(), number(0.));
    let node = BinaryOpNode::new(variable("a"), literal("0"), BinaryOpType::ADD);

    let result = node.check_semantic(&mut symtab);

    assert!(result.is_ok());
}

#[test]
fn binary_test_check_semantic_err() {
    let mut symtab = SymbolTable::new();
    symtab.insert("b".to_string(), number(0.));
    let node = BinaryOpNode::new(variable("a"), variable("b"), BinaryOpType::ADD);

    let result = node.check_semantic(&mut symtab);

    assert!(result.is_err());
}

#[test]
fn number_test_eval() {
    let mut symtab = SymbolTable::new();
    let node = Expression::Number(NumberNode::new("23".to_string()));
    let result = eval(&node, &mut symtab);

    assert!(result.is_ok());
    assert_eq!(result.unwrap(), 23.);
}

#[test]
fn number_test_pure() {
    let node = NumberNode::new("2.31".to_string());
    assert!(node.pure());
}

#[test]
fn number_test_check_semantic() {
    let mut symtab = SymbolTable::new();
    let node = NumberNode::new("0.1234".to_string());

    let result = node.check_semantic(&mut symtab);

    assert!(result.is_ok());
}

#[test]
fn test_eval_plus() {
    let value: f64 = 32.;
    let mut symtab = SymbolTable::new();
    let node = Expression::Unary(UnaryOpNode::new(literal("32"), UnaryOpType::PLUS));
    let result = eval(&node, &mut symtab);

    assert!(result.is_ok());
    assert_eq!(result.unwrap(), value);
}

#[test]
fn test_eval_minus() {
    let value: f64 = 32.;
    let mut symtab = SymbolTable::new();
    let node = Expression::Unary(UnaryOpNode::new(literal("32"), UnaryOpType::MINUS));
    let result = eval(&node, &mut symtab);

    assert!(result.is_ok());
    assert_eq!(result.unwrap(), -value);
}

#[test]
fn unary_test_pure() {
    let node = UnaryOpNode::new(literal("0"), UnaryOpType::PLUS);

    assert!(node.pure());
}

#[test]
fn test_pure_is_false() {
    let node = UnaryOpNode::new(variable("a"), UnaryOpType::PLUS);

    assert!(!node.pure());
}

#[test]
fn unary_test_check_semantic() {
    let mut symtab = SymbolTable::new();
    let node = UnaryOpNode::new(literal("0"), UnaryOpType::PLUS);

    let result = node.check_semantic(&mut symtab);

    assert!(result.is_ok());
}

#[test]
fn unary_test_check_semantic_err() {
    let mut symtab = SymbolTable::new();
    let node = UnaryOpNode::new(variable("a"), UnaryOpType::PLUS);

    let result = node.check_semantic(&mut symtab);

    assert!(result.is_err());
}

#[test]
fn var_test_eval() {
    let mut symtab = SymbolTable::new();
    let node = Expression::Var(VarNode::new("x".to_string()));

    symtab.insert("x".to_string(), number(25.));

    let result = eval(&node, &mut symtab);

    assert!(result.is_ok());
    assert_eq!(result.unwrap(), 25.);
}

#[test]
fn var_test_eval_err() {
    let mut symtab = SymbolTable::new();
    let node = Expression::Var(VarNode::new("x".to_string()));
    let result = eval(&node, &mut symtab);

    assert!(result.is_err());
}

#[test]
fn var_test_pure() {
    let node = VarNode::new("x".to_string());
    assert!(!node.pure());
}

#[test]
fn var_test_check_semantic() {
    let mut symtab = SymbolTable::new();
    let node = VarNode::new("x".to_string());

    symtab.insert("x".to_string(), number(23.));

    let result = node.check_semantic(&mut symtab);

    assert!(result.is_ok());
}

#[test]
fn var_test_check_semantic_err() {
    let mut symtab = SymbolTable::new();
    let node = VarNode::new("x".to_string());

    let result = node.check_semantic(&mut symtab);

    assert!(result.is_err());
}

#[test]
fn var_name_is_kept() {
    let node = VarNode::new("radius".to_string());
    assert_eq!(node.name(), "radius");
}

#[test]
fn undefined_variable_is_named_by_the_check() {
    let symtab = SymbolTable::new();
    let node = binary(
        Box::new(binary(variable("pi"), variable("y"), BinaryOpType::MUL)),
        variable("z"),
        BinaryOpType::ADD,
    );

    match node.check_semantic(&symtab) {
        Err(calculator::SemanticError::UndefinedSymbol(name)) => assert_eq!(name, "y"),
        other => panic!("unexpected result: {:?}", other),
    }
}

#[test]
fn assignment_to_a_constant_is_refused_and_changes_nothing() {
    let mut symtab = SymbolTable::new();
    let node = AssignNode::new(Box::new(VarNode::new("pi".to_string())), literal("3"));

    match node.check_semantic(&mut symtab) {
        Err(calculator::SemanticError::RedefineBuiltin(name)) => assert_eq!(name, "pi"),
        other => panic!("unexpected result: {:?}", other),
    }
    assert_eq!(symtab.get(&"pi".to_string()), Some(number(std::f64::consts::PI)));
}

#[test]
fn check_registers_the_target_with_zero() {
    let mut symtab = SymbolTable::new();
    let first = AssignNode::new(Box::new(VarNode::new("x".to_string())), literal("5"));
    let second = AssignNode::new(Box::new(VarNode::new("y".to_string())), variable("x"));
    let list = StatementListNode::new(vec![first, second]);

    assert!(list.check_semantic(&mut symtab).is_ok());
    assert_eq!(symtab.get(&"x".to_string()), Some(number(0.)));
    assert_eq!(symtab.get(&"y".to_string()), Some(number(0.)));
}

#[test]
fn check_stops_at_the_first_failing_statement() {
    let mut symtab = SymbolTable::new();
    let first = AssignNode::new(Box::new(VarNode::new("x".to_string())), literal("5"));
    let second = AssignNode::new(Box::new(VarNode::new("y".to_string())), variable("z"));
    let third = AssignNode::new(Box::new(VarNode::new("w".to_string())), literal("1"));
    let list = StatementListNode::new(vec![first, second, third]);

    match list.check_semantic(&mut symtab) {
        Err(calculator::SemanticError::UndefinedSymbol(name)) => assert_eq!(name, "z"),
        other => panic!("unexpected result: {:?}", other),
    }
    assert_eq!(symtab.get(&"x".to_string()), Some(number(0.)));
    assert_eq!(symtab.get(&"y".to_string()), None);
    assert_eq!(symtab.get(&"w".to_string()), None);
}

#[test]
fn statements_run_in_order_and_keep_their_bindings() {
    let mut symtab = SymbolTable::new();
    let first = AssignNode::new(Box::new(VarNode::new("x".to_string())), literal("5"));
    let second = AssignNode::new(
        Box::new(VarNode::new("y".to_string())),
        Box::new(binary(variable("x"), literal("2"), BinaryOpType::MUL)),
    );
    let list = StatementListNode::new(vec![first, second]);

    let result = run(Evaluation::of_statements(&list), &mut symtab);

    assert_eq!(result.unwrap(), 10.);
    assert_eq!(symtab.get(&"x".to_string()), Some(number(5.)));
    assert_eq!(symtab.get(&"y".to_string()), Some(number(10.)));
}

#[test]
fn a_failing_statement_keeps_what_was_bound_before_it() {
    let mut symtab = SymbolTable::new();
    let first = AssignNode::new(Box::new(VarNode::new("x".to_string())), literal("5"));
    let second = AssignNode::new(Box::new(VarNode::new("y".to_string())), variable("z"));
    let list = StatementListNode::new(vec![first, second]);

    match run(Evaluation::of_statements(&list), &mut symtab) {
        Err(InterpreterError::Eval(calculator::EvalError::UndefinedSymbol(name))) => {
            assert_eq!(name, "z")
        }
        other => panic!("unexpected result: {:?}", other),
    }
    assert_eq!(symtab.get(&"x".to_string()), Some(number(5.)));
    assert_eq!(symtab.get(&"y".to_string()), None);
}

#[test]
fn an_empty_statement_list_is_worth_zero() {
    let mut symtab = SymbolTable::new();
    let list = StatementListNode::new(vec![]);

    let result = run(Evaluation::of_statements(&list), &mut symtab);

    assert_eq!(result.unwrap().to_bits(), 0f64.to_bits());
}

#[test]
fn operands_are_requested_from_left_to_right() {
    let mut symtab = SymbolTable::new();
    let node = binary(
        Box::new(binary(literal("1"), literal("2"), BinaryOpType::SUB)),
        literal("3"),
        BinaryOpType::DIV,
    );
    let mut evaluation = Evaluation::of_expression(&node);
    let mut seen: Vec<String> = vec![];
    let mut progress = evaluation.advance(&mut symtab);
    loop {
        match progress {
            Progress::Done(result) => {
                assert_eq!(float(result.unwrap()), (1. - 2.) / 3.);
                break;
            }
            Progress::Need(request) => {
                seen.push(match &request {
                    Request::Convert(text) => text.clone(),
                    Request::Apply(op, _, _) => format!("{:?}", op),
                });
                progress = evaluation.resume(&mut symtab, answer(&request));
            }
        }
    }
    assert_eq!(seen, vec!["1", "2", "SUB", "3", "DIV"]);
}

#[test]
fn a_numeral_that_is_no_number_ends_the_evaluation() {
    let mut symtab = SymbolTable::new();
    let node = binary(literal("12"), literal("1.2.3"), BinaryOpType::ADD);

    match eval(&node, &mut symtab) {
        Err(InterpreterError::Lex(calculator::LexError::InvalidNumber(text))) => {
            assert_eq!(text, "1.2.3")
        }
        other => panic!("unexpected result: {:?}", other),
    }
}

#[test]
fn an_arithmetic_request_cannot_be_declined() {
    let mut symtab = SymbolTable::new();
    let node = binary(literal("1"), literal("2"), BinaryOpType::ADD);
    let mut evaluation = Evaluation::of_expression(&node);

    assert!(matches!(evaluation.advance(&mut symtab), Progress::Need(Request::Convert(_))));
    assert!(matches!(
        evaluation.resume(&mut symtab, Some(number(1.))),
        Progress::Need(Request::Convert(_))
    ));
    assert!(matches!(
        evaluation.resume(&mut symtab, Some(number(2.))),
        Progress::Need(Request::Apply(BinaryOpType::ADD, _, _))
    ));
    assert!(matches!(
        evaluation.resume(&mut symtab, None),
        Progress::Need(Request::Apply(BinaryOpType::ADD, _, _))
    ));
    assert!(matches!(
        evaluation.advance(&mut symtab),
        Progress::Need(Request::Apply(BinaryOpType::ADD, _, _))
    ));
    match evaluation.resume(&mut symtab, Some(number(3.))) {
        Progress::Done(Ok(value)) => assert_eq!(float(value), 3.),
        other => panic!("unexpected progress: {:?}", other),
    }
    match evaluation.resume(&mut symtab, Some(number(7.))) {
        Progress::Done(Ok(value)) => assert_eq!(float(value), 3.),
        other => panic!("unexpected progress: {:?}", other),
    }
}

#[test]
fn negation_inverts_the_sign_only() {
    assert_eq!(float(number(5.).negate()), -5.);
    assert_eq!(number(0.).negate().to_bits(), (-0f64).to_bits());
    assert_eq!(float(number(f64::INFINITY).negate()), f64::NEG_INFINITY);
    assert_eq!(number(-2.5).negate().negate().to_bits(), (-2.5f64).to_bits());
    assert!(float(number(f64::NAN).negate()).is_nan());
}

#[test]
fn lowering_puts_operands_before_their_operator() {
    let value = binary(
        literal("1"),
        Box::new(Expression::Unary(UnaryOpNode::new(
            Box::new(binary(literal("2"), variable("x"), BinaryOpType::MUL)),
            UnaryOpType::MINUS,
        ))),
        BinaryOpType::ADD,
    );
    let list = StatementListNode::new(vec![
        AssignNode::new(Box::new(VarNode::new("y".to_string())), Box::new(value)),
        AssignNode::new(Box::new(VarNode::new("z".to_string())), variable("y")),
    ]);
    let mut code: Vec<Instruction> = vec![];

    list.lower(&mut code);

    let listing: Vec<String> = code.iter().map(|i| format!("{:?}", i)).collect();
    assert_eq!(
        listing,
        vec![
            "Literal(\"1\")",
            "Literal(\"2\")",
            "Load(\"x\")",
            "Binary(MUL)",
            "Unary(MINUS)",
            "Binary(ADD)",
            "Store(\"y\")",
            "Load(\"y\")",
            "Store(\"z\")",
        ]
    );
}

#[test]
fn an_idle_evaluation_has_ended_with_zero() {
    let mut symtab = SymbolTable::new();
    let mut evaluation = Evaluation::idle();

    match evaluation.advance(&mut symtab) {
        Progress::Done(Ok(value)) => assert_eq!(value.to_bits(), 0),
        other => panic!("unexpected progress: {:?}", other),
    }
    match evaluation.resume(&mut symtab, Some(number(1.))) {
        Progress::Done(Ok(value)) => assert_eq!(value.to_bits(), 0),
        other => panic!("unexpected progress: {:?}", other),
    }
}
