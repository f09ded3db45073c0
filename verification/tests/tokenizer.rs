use calculator::{LexError, Token, Tokenizer};

fn num(text: &str) -> Token {
    Token::NUMBER(text.to_string())
}

fn id(name: &str) -> Token {
    Token::ID(name.to_string())
}

fn value(token: &Token) -> f64 {
    match token {
        Token::NUMBER(text) => text.parse::<f64>().unwrap(),
        other => panic!("no numeral: {:?}", other),
    }
}

#[test]
fn test_try_collect() {
    let mut tokenizer =
        Tokenizer::new("x = 1 + 2*(510   - 33 )  / 7.5 + (e * my_var) # Some comment");

    let token_result = tokenizer.try_collect();

    assert!(token_result.is_ok());

    let tokens = token_result.unwrap();

    assert_eq!(
        tokens,
        vec![
            Token::ID("x".to_string()),
            Token::ASSIGN,
            num("1"),
            Token::PLUS,
            num("2"),
            Token::MUL,
            Token::LPAREN,
            num("510"),
            Token::MINUS,
            num("33"),
            Token::RPAREN,
            Token::DIV,
            num("7.5"),
            Token::PLUS,
            Token::LPAREN,
            Token::E,
            Token::MUL,
            Token::ID("my_var".to_string()),
            Token::RPAREN,
        ]
    );
    assert_eq!(value(&tokens[2]), 1.);
    assert_eq!(value(&tokens[4]), 2.);
    assert_eq!(value(&tokens[7]), 510.);
    assert_eq!(value(&tokens[9]), 33.);
    assert_eq!(value(&tokens[12]), 7.5);
}

#[test]
fn the_end_marker_is_given_again_and_again() {
    let mut tokenizer = Tokenizer::new("x  ");

    assert_eq!(tokenizer.passed(), 0);
    assert_eq!(tokenizer.next().unwrap(), id("x"));
    assert_eq!(tokenizer.passed(), 1);
    assert_eq!(tokenizer.next().unwrap(), Token::EOF);
    assert_eq!(tokenizer.passed(), 3);
    assert_eq!(tokenizer.next().unwrap(), Token::EOF);
    assert_eq!(tokenizer.next().unwrap(), Token::EOF);
    assert_eq!(tokenizer.passed(), 3);
    assert_eq!(tokenizer.try_collect().unwrap(), vec![]);

    let mut empty = Tokenizer::new("");
    assert_eq!(empty.next().unwrap(), Token::EOF);
    assert_eq!(empty.next().unwrap(), Token::EOF);
}

#[test]
fn an_illegal_character_is_an_error() {
    let mut tokenizer = Tokenizer::new("x = 1 $ 2");

    assert_eq!(tokenizer.next().unwrap(), id("x"));
    assert_eq!(tokenizer.next().unwrap(), Token::ASSIGN);
    assert_eq!(tokenizer.next().unwrap(), num("1"));
    assert!(matches!(tokenizer.next(), Err(LexError::InvalidSyntax('$'))));
    assert_eq!(tokenizer.next().unwrap(), num("2"));
    assert_eq!(tokenizer.next().unwrap(), Token::EOF);

    let mut tokenizer = Tokenizer::new("x = 1 $ 2");
    assert!(matches!(tokenizer.try_collect(), Err(LexError::InvalidSyntax('$'))));

    let mut tokenizer = Tokenizer::new("a @");
    assert!(matches!(tokenizer.try_collect(), Err(LexError::InvalidSyntax('@'))));
}

#[test]
fn every_symbol_has_its_token() {
    let mut tokenizer = Tokenizer::new("+-*/(),.=;");

    assert_eq!(
        tokenizer.try_collect().unwrap(),
        vec![
            Token::PLUS,
            Token::MINUS,
            Token::MUL,
            Token::DIV,
            Token::LPAREN,
            Token::RPAREN,
            Token::COMMA,
            Token::DOT,
            Token::ASSIGN,
            Token::SEMI,
        ]
    );
}

#[test]
fn numerals_take_one_point() {
    let mut tokenizer = Tokenizer::new("12 3.25 7. 1.2.3 .5");

    assert_eq!(
        tokenizer.try_collect().unwrap(),
        vec![
            num("12"),
            num("3.25"),
            num("7."),
            num("1.2"),
            Token::DOT,
            num("3"),
            Token::DOT,
            num("5"),
        ]
    );
    assert_eq!("7.".parse::<f64>().unwrap(), 7.);
}

#[test]
fn reserved_names_are_tokens_of_their_own() {
    let mut tokenizer = Tokenizer::new("e pi pie ep _e e_ E PI x1 _ a_b9");

    assert_eq!(
        tokenizer.try_collect().unwrap(),
        vec![
            Token::E,
            Token::PI,
            id("pie"),
            id("ep"),
            id("_e"),
            id("e_"),
            id("E"),
            id("PI"),
            id("x1"),
            id("_"),
            id("a_b9"),
        ]
    );
}

#[test]
fn an_e_before_a_digit_stands_alone() {
    let mut tokenizer = Tokenizer::new("e3 1.2e10 e5x ex5 e_5");

    assert_eq!(
        tokenizer.try_collect().unwrap(),
        vec![
            Token::E,
            num("3"),
            num("1.2"),
            Token::E,
            num("10"),
            Token::E,
            num("5"),
            id("x"),
            id("ex5"),
            id("e_5"),
        ]
    );
}

#[test]
fn comments_and_blanks_are_passed_over() {
    let mut tokenizer = Tokenizer::new("# first\n  # second\n\n x # third\n# fourth\n = 1 # end");

    assert_eq!(tokenizer.try_collect().unwrap(), vec![id("x"), Token::ASSIGN, num("1")]);

    let mut tokenizer = Tokenizer::new("#only a comment");
    assert_eq!(tokenizer.next().unwrap(), Token::EOF);

    let mut tokenizer = Tokenizer::new("1#2\n3");
    assert_eq!(tokenizer.try_collect().unwrap(), vec![num("1"), num("3")]);
}

#[test]
fn every_blank_is_passed_over() {
    let mut tokenizer = Tokenizer::new(" \t\r\n\u{c}x\t=\r\n1 # a comment\r\n\ty = 2\n");

    assert_eq!(
        tokenizer.try_collect().unwrap(),
        vec![id("x"), Token::ASSIGN, num("1"), id("y"), Token::ASSIGN, num("2")]
    );

    let mut tokenizer = Tokenizer::new("\u{b}");
    assert!(matches!(tokenizer.next(), Err(LexError::InvalidSyntax('\u{b}'))));
}

#[test]
fn characters_beyond_ascii_start_no_token() {
    let mut tokenizer = Tokenizer::new("x = é");

    assert_eq!(tokenizer.next().unwrap(), id("x"));
    assert_eq!(tokenizer.next().unwrap(), Token::ASSIGN);
    assert!(matches!(tokenizer.next(), Err(LexError::InvalidSyntax('é'))));
    assert_eq!(tokenizer.next().unwrap(), Token::EOF);
}
