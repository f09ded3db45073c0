use calculator::{BinaryOpType, Interpreter, InterpreterError, Number, Progress, Request};

fn number(x: f64) -> Number {
    Number::from_bits(x.to_bits())
}

fn float(n: Number) -> f64 {
    f64::from_bits(n.to_bits())
}

fn answer(request: &Request) -> Option<Number> {
    match request {
        Request::Convert(text) => text.parse::<f64>().ok().map(number),
        Request::Apply(op, a, b) => {
            let (x, y) = (float(*a), float(*b));
            Some(number(match op {
                BinaryOpType::ADD => x + y,
                BinaryOpType::SUB => x - y,
                BinaryOpType::MUL => x * y,
                BinaryOpType::DIV => x / y,
            }))
        }
    }
}

fn interpret(interpreter: &mut Interpreter, line: &str) -> Result<f64, InterpreterError> {
    let mut progress = interpreter.interpret(line);
    loop {
        match progress {
            Progress::Done(result) => return result.map(float),
            Progress::Need(request) => progress = interpreter.resume(answer(&request)),
        }
    }
}

struct Source {
    state: u64,
}

impl Source {
    fn next(&mut self, bound: u64) -> u64 {
        self.state = self
            .state
            .wrapping_mul(6364136223846793005)
            .wrapping_add(1442695040888963407);
        (self.state >> 33) % bound
    }

    fn blanks(&mut self, text: &mut String) {
        for _ in 0..self.next(3) {
            text.push(' ');
        }
    }

    fn factor(&mut self, text: &mut String, depth: u32) -> f64 {
        self.blanks(text);
        match self.next(if depth == 0 { 2 } else { 6 }) {
            0 => {
                let whole = self.next(1000);
                text.push_str(&whole.to_string());
                whole as f64
            }
            1 => {
                let literal = format!("{}.{:02}", self.next(100), self.next(100));
                text.push_str(&literal);
                literal.parse::<f64>().unwrap()
            }
            2 => {
                text.push('-');
                -self.factor(text, depth - 1)
            }
            3 => {
                text.push('+');
                self.factor(text, depth - 1)
            }
            _ => {
                text.push('(');
                let value = self.expr(text, depth - 1);
                self.blanks(text);
                text.push(')');
                value
            }
        }
    }

    fn term(&mut self, text: &mut String, depth: u32) -> f64 {
        let mut value = self.factor(text, depth);
        for _ in 0..self.next(3) {
            self.blanks(text);
            if self.next(2) == 0 {
                text.push('*');
                value = value * self.factor(text, depth);
            } else {
                text.push('/');
                value = value / self.factor(text, depth);
            }
        }
        value
    }

    fn expr(&mut self, text: &mut String, depth: u32) -> f64 {
        let mut value = self.term(text, depth);
        for _ in 0..self.next(3) {
            self.blanks(text);
            if self.next(2) == 0 {
                text.push('+');
                value = value + self.term(text, depth);
            } else {
                text.push('-');
                value = value - self.term(text, depth);
            }
        }
        value
    }
}

#[test]
fn generated_expressions_agree_with_native_arithmetic() {
    let mut source = Source { state: 2024 };
    let mut interpreter = Interpreter::new();
    let mut infinite = 0;
    for round in 0..400 {
        let mut text = String::from("r =");
        let expected = source.expr(&mut text, 1 + round % 4);
        let value = interpret(&mut interpreter, &text).unwrap();
        if expected.is_nan() {
            assert!(value.is_nan(), "{}", text);
        } else {
            assert_eq!(value.to_bits(), expected.to_bits(), "{}", text);
        }
        if expected.is_infinite() {
            infinite += 1;
        }
        assert_eq!(
            interpreter.query(&"r".to_string()).map(|n| n.to_bits()),
            Some(value.to_bits())
        );
    }
    assert_eq!(interpreter.history().len(), 400);
    assert!(infinite > 0);
}

#[test]
fn generated_statement_lists_agree_with_native_arithmetic() {
    let mut source = Source { state: 77 };
    let mut interpreter = Interpreter::new();
    for _ in 0..100 {
        let mut text = String::new();
        let mut expected: Vec<f64> = vec![];
        let count = 1 + source.next(4) as usize;
        for i in 0..count {
            if i > 0 {
                text.push(';');
            }
            text.push_str(&format!("v{} = ", i));
            let mut value = source.expr(&mut text, 2);
            if i > 0 {
                text.push_str(&format!(" + v{}", i - 1));
                value = value + expected[i - 1];
            }
            expected.push(value);
        }
        text.push_str(" # the line ends here");
        let value = interpret(&mut interpreter, &text).unwrap();
        let last = expected[count - 1];
        if last.is_nan() {
            assert!(value.is_nan(), "{}", text);
        } else {
            assert_eq!(value.to_bits(), last.to_bits(), "{}", text);
        }
        for i in 0..count {
            let bound = interpreter.query(&format!("v{}", i)).map(float).unwrap();
            if expected[i].is_nan() {
                assert!(bound.is_nan(), "{}", text);
            } else {
                assert_eq!(bound.to_bits(), expected[i].to_bits(), "{}", text);
            }
        }
        interpreter.clear_state();
    }
}
