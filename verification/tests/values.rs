//! Tests of the value model: list building and iteration, structural
//! equality, the printed forms, and the error messages.

use oat_scheme::{parse_one, Error, Number, Value};

fn items(texts: &[&str]) -> Vec<Value> {
    texts.iter().map(|t| parse_one(t).unwrap()).collect()
}

#[test]
fn list_build_then_iterate_is_identity() {
    for sample in [
        vec![],
        vec!["1"],
        vec!["1", "#t", "\"s\"", "(a b)"],
        vec!["a", "a", "a"],
    ] {
        let elements = items(&sample);
        let built = Value::from_iter(elements.clone());
        let back = built.list_items().unwrap();
        assert_eq!(back, elements);
    }
}

#[test]
fn improper_lists_stop_iteration_with_the_tail() {
    let improper = Value::pair(&parse_one("1").unwrap(), &parse_one("2").unwrap());
    match improper.list_items() {
        Err(Error::ExpectedList(tail)) => assert_eq!(tail, parse_one("2").unwrap()),
        other => panic!("expected a list-expected error, got {:?}", other),
    }
}

#[test]
fn printed_forms() {
    assert_eq!(parse_one("#t").unwrap().render(), "#t");
    assert_eq!(parse_one("#f").unwrap().render(), "#f");
    assert_eq!(parse_one("#\\a").unwrap().render(), "#\\a");
    assert_eq!(parse_one("#\\space").unwrap().render(), "#\\ ");
    assert_eq!(parse_one("123.450").unwrap().render(), "123.45");
    assert_eq!(parse_one("007").unwrap().render(), "7");
    assert_eq!(parse_one("-0").unwrap().render(), "-0");
    assert_eq!(parse_one("100").unwrap().render(), "100");
    assert_eq!(parse_one("0.056").unwrap().render(), "0.056");
    assert_eq!(parse_one("\"a b\"").unwrap().render(), "\"a b\"");
    // the printed form re-escapes what the reader treats specially
    assert_eq!(parse_one(r#""\\""#).unwrap().render(), r#""\\""#);
    assert_eq!(parse_one(r#""\"""#).unwrap().render(), r#""\"""#);
    assert_eq!(
        parse_one(r#""\t\n\\\"""#).unwrap().render(),
        "\"\t\n\\\\\\\"\""
    );
    assert_eq!(parse_one("abc").unwrap().render(), "abc");
    assert_eq!(parse_one("|a b|").unwrap().render(), "|a b|");
    assert_eq!(parse_one("()").unwrap().render(), "()");
    assert_eq!(parse_one("(1 2 3)").unwrap().render(), "(1 2 3)");
    assert_eq!(parse_one("((a) (b c))").unwrap().render(), "((a) (b c))");
    assert_eq!(parse_one("'x").unwrap().render(), "'x");
    assert_eq!(parse_one("''x").unwrap().render(), "''x");
    assert_eq!(Value::void().render(), "#<void>");
    assert_eq!(Value::PrimitiveProcedure("car".to_string()).render(), "#<procedure>");
}

#[test]
fn dotted_tails_print_after_a_dot() {
    let improper = Value::pair(&parse_one("1").unwrap(), &parse_one("2").unwrap());
    assert_eq!(improper.render(), "(1 . 2)");
    let longer = Value::pair(&parse_one("0").unwrap(), &improper);
    assert_eq!(longer.render(), "(0 1 . 2)");
}

#[test]
fn non_finite_numbers_print_like_host_floats() {
    assert_eq!(Value::number(Number::NotANumber).render(), "NaN");
    assert_eq!(Value::number(Number::Infinite { negative: false }).render(), "inf");
    assert_eq!(Value::number(Number::Infinite { negative: true }).render(), "-inf");
}

#[test]
fn structural_equality() {
    let a = parse_one("(1 (2 #t) \"s\")").unwrap();
    let b = parse_one("(1 (2 #t) \"s\")").unwrap();
    let c = parse_one("(1 (2 #f) \"s\")").unwrap();
    assert!(oat_scheme::value::eq(&a, &b));
    assert!(!oat_scheme::value::eq(&a, &c));
    // zero equals zero whatever its sign
    assert!(oat_scheme::value::eq(
        &parse_one("0").unwrap(),
        &parse_one("-0").unwrap()
    ));
    // the not-a-number value equals nothing, not even itself
    let nan = Value::number(Number::NotANumber);
    assert!(!oat_scheme::value::eq(&nan, &nan));
    // the void value compares equal to nothing
    assert!(!oat_scheme::value::eq(&Value::void(), &Value::void()));
}

#[test]
fn error_messages() {
    assert_eq!(
        Error::UndefinedVariable("x".to_string()).render(),
        "variable `x` is unbound"
    );
    assert_eq!(
        Error::EmptyApplication.render(),
        "cannot evaluate empty application `()`"
    );
    assert_eq!(Error::EmptyProcedure.render(), "procedure body cannot be empty");
    assert_eq!(
        Error::IncorrectArity(2, 1).render(),
        "expected 2 arguments, but found 1"
    );
    assert_eq!(
        Error::TypeMismatch("pair".to_string(), parse_one("5").unwrap()).render(),
        "expected an value of type 'pair', but found `5`"
    );
    assert_eq!(
        Error::ExpectedList(parse_one("5").unwrap()).render(),
        "expected a list, but found `5`"
    );
    assert_eq!(Error::IndexOutOfBounds(9).render(), "index 9 out of bounds");
    assert_eq!(Error::UnexpectedEndOfInput.render(), "unexpected end of input");
    match parse_one(")") {
        Err(e @ Error::ParseError(_)) => {
            let text = e.render();
            assert!(text.contains("but found ')'"), "{text}");
        }
        other => panic!("expected a parse error, got {:?}", other),
    }
}

#[test]
fn truthiness() {
    assert!(!parse_one("#f").unwrap().to_bool());
    assert!(parse_one("#t").unwrap().to_bool());
    assert!(parse_one("0").unwrap().to_bool());
    assert!(parse_one("\"\"").unwrap().to_bool());
    assert!(parse_one("()").unwrap().to_bool());
}
