use calculator::{
    BinaryOpType, EvalError, Interpreter, InterpreterError, LexError, Number, ParseError,
    Progress, Request, SemanticError, Token,
};

fn number(x: f64) -> Number {
    Number::from_bits(x.to_bits())
}

fn float(n: Number) -> f64 {
    f64::from_bits(n.to_bits())
}

fn answer(request: &Request) -> Option<Number> {
    match request {
        Request::Convert(text) => text.parse::<f64>().ok().map(number),
        Request::Apply(op, a, b) => {
            let (x, y) = (float(*a), float(*b));
            Some(number(match op {
                BinaryOpType::ADD => x + y,
                BinaryOpType::SUB => x - y,
                BinaryOpType::MUL => x * y,
                BinaryOpType::DIV => x / y,
            }))
        }
    }
}

fn interpret(interpreter: &mut Interpreter, line: &str) -> Result<f64, InterpreterError> {
    let mut progress = interpreter.interpret(line);
    loop {
        match progress {
            Progress::Done(result) => return result.map(float),
            Progress::Need(request) => progress = interpreter.resume(answer(&request)),
        }
    }
}

fn query(interpreter: &Interpreter, name: &str) -> Option<f64> {
    interpreter.query(&name.to_string()).map(float)
}

#[test]
fn precedence() {
    let mut interpreter = Interpreter::new();

    assert_eq!(interpret(&mut interpreter, "r = 2 + 3 * 4").unwrap(), 14.);
    assert_eq!(interpret(&mut interpreter, "r = (2 + 3) * 4").unwrap(), 20.);
}

#[test]
fn associativity() {
    let mut interpreter = Interpreter::new();

    assert_eq!(interpret(&mut interpreter, "r = 10 - 3 - 2").unwrap(), 5.);
    assert_eq!(interpret(&mut interpreter, "r = --5").unwrap(), 5.);
    assert_eq!(interpret(&mut interpreter, "r = -+-5").unwrap(), 5.);
    assert_eq!(interpret(&mut interpreter, "r = 16 / 4 / 2").unwrap(), 2.);
}

#[test]
fn variables() {
    let mut interpreter = Interpreter::new();

    assert_eq!(interpret(&mut interpreter, "x = 5; y = x * 2").unwrap(), 10.);
    assert_eq!(query(&interpreter, "x"), Some(5.0));
    assert_eq!(query(&interpreter, "y"), Some(10.0));

    assert_eq!(interpret(&mut interpreter, "x = x + 1").unwrap(), 6.);
    assert_eq!(query(&interpreter, "x"), Some(6.0));
}

#[test]
fn built_in_protection() {
    let mut interpreter = Interpreter::new();
    interpret(&mut interpreter, "x = 1").unwrap();

    match interpret(&mut interpreter, "pi = 3") {
        Err(InterpreterError::Semantic(SemanticError::RedefineBuiltin(name))) => {
            assert_eq!(name, "pi")
        }
        other => panic!("unexpected result: {:?}", other),
    }
    assert_eq!(query(&interpreter, "pi"), Some(std::f64::consts::PI));
    assert_eq!(query(&interpreter, "x"), Some(1.));

    match interpret(&mut interpreter, "y = 2; e = y") {
        Err(InterpreterError::Semantic(SemanticError::RedefineBuiltin(name))) => {
            assert_eq!(name, "e")
        }
        other => panic!("unexpected result: {:?}", other),
    }
    assert_eq!(query(&interpreter, "y"), None);
    assert_eq!(query(&interpreter, "e"), Some(std::f64::consts::E));
}

#[test]
fn undefined_variable() {
    let mut interpreter = Interpreter::new();

    match interpret(&mut interpreter, "x = y + 1") {
        Err(InterpreterError::Semantic(SemanticError::UndefinedSymbol(name))) => {
            assert_eq!(name, "y")
        }
        other => panic!("unexpected result: {:?}", other),
    }
    assert_eq!(query(&interpreter, "x"), None);
    assert_eq!(query(&interpreter, "y"), None);

    match interpret(&mut interpreter, "x = x") {
        Err(InterpreterError::Semantic(SemanticError::UndefinedSymbol(name))) => {
            assert_eq!(name, "x")
        }
        other => panic!("unexpected result: {:?}", other),
    }
}

#[test]
fn a_line_must_be_made_of_assignments() {
    let mut interpreter = Interpreter::new();

    match interpret(&mut interpreter, "2 + 3 * 4") {
        Err(InterpreterError::Parse(ParseError::UnexpectedToken(token))) => {
            assert_eq!(token, Token::NUMBER("2".to_string()))
        }
        other => panic!("unexpected result: {:?}", other),
    }
    match interpret(&mut interpreter, "y + 1") {
        Err(InterpreterError::Parse(ParseError::UnexpectedToken(token))) => {
            assert_eq!(token, Token::PLUS)
        }
        other => panic!("unexpected result: {:?}", other),
    }
    match interpret(&mut interpreter, "x = 5; x * 2") {
        Err(InterpreterError::Parse(ParseError::UnexpectedToken(token))) => {
            assert_eq!(token, Token::MUL)
        }
        other => panic!("unexpected result: {:?}", other),
    }
    assert_eq!(query(&interpreter, "x"), None);
}

#[test]
fn division_by_zero() {
    let mut interpreter = Interpreter::new();

    assert_eq!(interpret(&mut interpreter, "r = 1 / 0").unwrap(), f64::INFINITY);
    assert_eq!(query(&interpreter, "r"), Some(f64::INFINITY));
    assert_eq!(interpret(&mut interpreter, "r = -1 / 0").unwrap(), f64::NEG_INFINITY);
    assert!(interpret(&mut interpreter, "r = 0 / 0").unwrap().is_nan());
}

#[test]
fn state_isolation() {
    let mut interpreter = Interpreter::new();
    interpret(&mut interpreter, "x = 5; y = 6").unwrap();

    interpreter.clear_state();

    assert_eq!(query(&interpreter, "x"), None);
    assert_eq!(query(&interpreter, "y"), None);
    assert_eq!(query(&interpreter, "pi"), Some(std::f64::consts::PI));
    assert_eq!(query(&interpreter, "e"), Some(std::f64::consts::E));

    let mut other = Interpreter::new();
    interpret(&mut other, "x = 1").unwrap();
    assert_eq!(query(&interpreter, "x"), None);
    assert_eq!(query(&other, "x"), Some(1.));
}

#[test]
fn round_trip_against_native_arithmetic() {
    let mut interpreter = Interpreter::new();
    let cases: Vec<(&str, f64)> = vec![
        ("r = 1 + 2*(510   - 33 )  / 7.5", 1. + 2. * (510. - 33.) / 7.5),
        ("r = 0.1 + 0.2", 0.1 + 0.2),
        ("r = -(3.5 - 10) * +2 / 4", -(3.5 - 10.) * 2. / 4.),
        ("r = 1 / 3 * 3", 1. / 3. * 3.),
        ("r = ((((7))))", 7.),
        ("r = 2 * pi * 1.5", 2. * std::f64::consts::PI * 1.5),
        ("r = e - e", 0.),
        ("r = 123456789012345678901234567890", 123456789012345678901234567890.),
        ("r = 7. + 1", 8.),
    ];
    for (line, expected) in cases {
        assert_eq!(interpret(&mut interpreter, line).unwrap(), expected, "{}", line);
    }
}

#[test]
fn errors_come_in_the_order_of_the_stages() {
    let mut interpreter = Interpreter::new();

    assert!(matches!(
        interpret(&mut interpreter, "x = ) $"),
        Err(InterpreterError::Lex(LexError::InvalidSyntax('$')))
    ));
    assert!(matches!(
        interpret(&mut interpreter, "x = ) + y"),
        Err(InterpreterError::Parse(ParseError::UnexpectedToken(Token::RPAREN)))
    ));
    assert!(matches!(
        interpret(&mut interpreter, "x = (1 + 2"),
        Err(InterpreterError::Parse(ParseError::UnexpectedEOF))
    ));
    assert!(matches!(interpret(&mut interpreter, ""), Err(InterpreterError::Parse(ParseError::UnexpectedEOF))));
}

#[test]
fn nothing_may_follow_the_statements() {
    let mut interpreter = Interpreter::new();

    match interpret(&mut interpreter, "x = 1 2") {
        Err(InterpreterError::Parse(ParseError::UnexpectedToken(token))) => {
            assert_eq!(token, Token::NUMBER("2".to_string()))
        }
        other => panic!("unexpected result: {:?}", other),
    }
    assert_eq!(query(&interpreter, "x"), None);
    assert!(matches!(
        interpret(&mut interpreter, "x = (1))"),
        Err(InterpreterError::Parse(ParseError::UnexpectedToken(Token::RPAREN)))
    ));
    assert!(matches!(
        interpret(&mut interpreter, "x = 1, y = 2"),
        Err(InterpreterError::Parse(ParseError::UnexpectedToken(Token::COMMA)))
    ));
}

#[test]
fn a_failed_check_leaves_no_trace() {
    let mut interpreter = Interpreter::new();
    interpret(&mut interpreter, "x = 5").unwrap();

    assert!(interpret(&mut interpreter, "x = 7; z = 1; w = q").is_err());

    assert_eq!(query(&interpreter, "x"), Some(5.));
    assert_eq!(query(&interpreter, "z"), None);
    assert_eq!(query(&interpreter, "w"), None);
}

#[test]
fn a_numeral_that_the_arithmetic_refuses_ends_the_line_where_it_stands() {
    let mut interpreter = Interpreter::new();

    let mut progress = interpreter.interpret("x = 1; y = 2 + 3");
    let mut converted = 0;
    let result = loop {
        match progress {
            Progress::Done(result) => break result,
            Progress::Need(Request::Convert(text)) => {
                converted += 1;
                progress = if converted == 3 {
                    assert_eq!(text, "3");
                    interpreter.resume(None)
                } else {
                    interpreter.resume(text.parse::<f64>().ok().map(number))
                };
            }
            Progress::Need(request) => progress = interpreter.resume(answer(&request)),
        }
    };

    match result {
        Err(InterpreterError::Lex(LexError::InvalidNumber(text))) => assert_eq!(text, "3"),
        other => panic!("unexpected result: {:?}", other),
    }
    assert_eq!(query(&interpreter, "x"), Some(1.));
    assert_eq!(query(&interpreter, "y"), None);
    assert!(matches!(
        interpreter.resume(Some(number(9.))),
        Progress::Done(Err(InterpreterError::Lex(LexError::InvalidNumber(_))))
    ));
}

#[test]
fn a_new_line_gives_up_the_one_in_progress() {
    let mut interpreter = Interpreter::new();

    assert!(matches!(interpreter.interpret("x = 1 + 2"), Progress::Need(Request::Convert(_))));
    assert_eq!(interpret(&mut interpreter, "y = 4").unwrap(), 4.);
    assert_eq!(query(&interpreter, "x"), None);
    assert_eq!(query(&interpreter, "y"), Some(4.));
}

#[test]
fn resume_without_a_line_gives_the_last_result_again() {
    let mut interpreter = Interpreter::new();

    match interpreter.resume(Some(number(3.))) {
        Progress::Done(Ok(value)) => assert_eq!(value.to_bits(), 0),
        other => panic!("unexpected progress: {:?}", other),
    }
    assert_eq!(interpret(&mut interpreter, "x = 2").unwrap(), 2.);
    match interpreter.resume(None) {
        Progress::Done(Ok(value)) => assert_eq!(float(value), 2.),
        other => panic!("unexpected progress: {:?}", other),
    }
    assert!(interpret(&mut interpreter, "x = ").is_err());
    match interpreter.resume(None) {
        Progress::Done(Ok(value)) => assert_eq!(value.to_bits(), 0),
        other => panic!("unexpected progress: {:?}", other),
    }
}

#[test]
fn an_unchecked_name_is_an_error_of_the_evaluation() {
    let error = InterpreterError::Eval(EvalError::UndefinedSymbol("q".to_string()));
    assert_eq!(error.message(), "Undefined symbol: q");
}

#[test]
fn lines_that_succeed_join_the_history() {
    let mut interpreter = Interpreter::new();
    assert_eq!(interpreter.history().len(), 0);

    interpret(&mut interpreter, "x = 1; y = 2").unwrap();
    assert_eq!(interpreter.history().len(), 1);
    assert_eq!(interpreter.history()[0].nodes.len(), 2);

    assert!(interpret(&mut interpreter, "z = q").is_err());
    assert!(interpret(&mut interpreter, "z = ").is_err());
    assert!(interpret(&mut interpreter, "z $").is_err());
    assert_eq!(interpreter.history().len(), 1);

    interpret(&mut interpreter, "z = x + y").unwrap();
    assert_eq!(interpreter.history().len(), 2);
    assert_eq!(interpreter.history()[1].nodes[0].var.name(), "z");

    assert!(matches!(interpreter.interpret("w = 1"), Progress::Need(_)));
    assert_eq!(interpreter.history().len(), 2);
    assert!(matches!(interpreter.resume(Some(number(1.))), Progress::Done(Ok(_))));
    assert_eq!(interpreter.history().len(), 3);
    assert!(matches!(interpreter.resume(None), Progress::Done(Ok(_))));
    assert_eq!(interpreter.history().len(), 3);

    interpreter.clear_state();
    assert_eq!(interpreter.history().len(), 0);
}
