use calculator::{Number, SymbolTable};
use std::f64::consts;

fn number(x: f64) -> Number {
    Number::from_bits(x.to_bits())
}

#[test]
fn test_get() {
    let symtab = SymbolTable::new();

    let kv_pairs = vec![
        ("e".to_string(), Some(number(consts::E))),
        ("pi".to_string(), Some(number(consts::PI))),
        ("x".to_string(), None),
        ("test_key".to_string(), None),
    ];

    for kv in kv_pairs.iter() {
        assert_eq!(symtab.get(&kv.0), kv.1);
    }
}

#[test]
fn test_insert() {
    let mut symtab = SymbolTable::new();

    symtab.insert("x".to_string(), number(123.45));

    assert_eq!(symtab.get(&"x".to_string()), Some(number(123.45)));
}

#[test]
fn test_is_global() {
    let symtab = SymbolTable::new();

    assert!(symtab.is_global(&"e".to_string()));
    assert!(symtab.is_global(&"pi".to_string()));
    assert!(!symtab.is_global(&"x".to_string()));
    assert!(!symtab.is_global(&"test_var".to_string()));
}

#[test]
fn test_clear() {
    let mut symtab = SymbolTable::new();

    symtab.insert("x".to_string(), number(123.45));

    assert_eq!(symtab.get(&"x".to_string()), Some(number(123.45)));

    symtab.clear();

    assert_eq!(symtab.get(&"x".to_string()), None);
    assert_eq!(symtab.get(&"e".to_string()), Some(number(consts::E)));
    assert_eq!(symtab.get(&"pi".to_string()), Some(number(consts::PI)));
}

#[test]
fn insert_replaces_the_value() {
    let mut symtab = SymbolTable::new();

    symtab.insert("x".to_string(), number(1.));
    symtab.insert("y".to_string(), number(2.));
    symtab.insert("x".to_string(), number(3.));

    assert_eq!(symtab.get(&"x".to_string()), Some(number(3.)));
    assert_eq!(symtab.get(&"y".to_string()), Some(number(2.)));
}

#[test]
fn a_constant_is_never_bound() {
    let mut symtab = SymbolTable::new();

    symtab.insert("pi".to_string(), number(3.));
    symtab.insert("e".to_string(), number(2.));

    assert_eq!(symtab.get(&"pi".to_string()), Some(number(consts::PI)));
    assert_eq!(symtab.get(&"e".to_string()), Some(number(consts::E)));

    symtab.clear();

    assert_eq!(symtab.get(&"pi".to_string()), Some(number(consts::PI)));
}

#[test]
fn a_copy_has_the_same_variables_and_its_own_life() {
    let mut symtab = SymbolTable::new();
    symtab.insert("x".to_string(), number(1.));

    let mut copy = symtab.clone();
    copy.insert("x".to_string(), number(2.));
    copy.insert("y".to_string(), number(3.));

    assert_eq!(symtab.get(&"x".to_string()), Some(number(1.)));
    assert_eq!(symtab.get(&"y".to_string()), None);
    assert_eq!(copy.get(&"x".to_string()), Some(number(2.)));
    assert_eq!(copy.get(&"y".to_string()), Some(number(3.)));
}

#[test]
fn the_constants_have_their_patterns() {
    assert_eq!(calculator::number::E_BITS, consts::E.to_bits());
    assert_eq!(calculator::number::PI_BITS, consts::PI.to_bits());
    assert_eq!(calculator::number::SIGN_BIT, (-0f64).to_bits());
}
