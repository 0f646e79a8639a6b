//! Tests of the reader: every token class, lists, and the quotation
//! shorthand, with the printed forms round-tripping where the external
//! form is canonical.

use oat_scheme::{parse, parse_one, Number, Value};

fn num(negative: bool, digits: &[u8], exponent: i128) -> Value {
    Value::number(Number::from_parts(negative, digits.to_vec(), exponent))
}

fn sym(name: &str) -> Value {
    Value::symbol(name)
}

fn list(items: Vec<Value>) -> Value {
    Value::from_iter(items)
}

#[test]
fn parse_boolean() {
    assert_eq!(parse_one("#true").unwrap(), Value::Boolean(true));
    assert_eq!(parse_one("#t").unwrap(), Value::Boolean(true));
    assert_eq!(parse_one("#false").unwrap(), Value::Boolean(false));
    assert_eq!(parse_one("#f").unwrap(), Value::Boolean(false));
}

#[test]
fn parse_number() {
    assert_eq!(parse_one("123456").unwrap(), num(false, &[1, 2, 3, 4, 5, 6], 0));
    assert_eq!(parse_one("123.456").unwrap(), num(false, &[1, 2, 3, 4, 5, 6], -3));
    assert_eq!(parse_one("123.").unwrap(), num(false, &[1, 2, 3], 0));
    assert_eq!(parse_one("123.0").unwrap(), num(false, &[1, 2, 3], 0));
    assert_eq!(parse_one("0.456").unwrap(), num(false, &[4, 5, 6], -3));
    assert_eq!(parse_one(".456").unwrap(), num(false, &[4, 5, 6], -3));
}

#[test]
fn parse_string() {
    assert_eq!(parse_one(r#""""#).unwrap(), Value::string(""));
    assert_eq!(parse_one(r#""\t\n\\\"""#).unwrap(), Value::string("\t\n\\\""));
    assert_eq!(parse_one(r#""a b c d""#).unwrap(), Value::string("a b c d"));
}

#[test]
fn parse_character() {
    assert_eq!(parse_one("#\\a").unwrap(), Value::Character('a'));
    assert_eq!(parse_one("#\\space").unwrap(), Value::Character(' '));
    assert_eq!(parse_one("#\\newline").unwrap(), Value::Character('\n'));
}

#[test]
fn parse_symbol() {
    assert_eq!(parse_one("a").unwrap(), sym("a"));
    assert_eq!(parse_one("|a b|").unwrap(), sym("a b"));
    assert_eq!(parse_one("!$%&*+-./:<=>?@^_~").unwrap(), sym("!$%&*+-./:<=>?@^_~"));
}

#[test]
fn parse_list() {
    assert_eq!(parse_one("()").unwrap(), Value::EmptyList);
    assert_eq!(parse_one("(a)").unwrap(), list(vec![sym("a")]));
    assert_eq!(parse_one("((a))").unwrap(), list(vec![list(vec![sym("a")])]));
    assert_eq!(
        parse_one("(a 2 \"c\" (1 2 3))").unwrap(),
        list(vec![
            sym("a"),
            num(false, &[2], 0),
            Value::string("c"),
            list(vec![num(false, &[1], 0), num(false, &[2], 0), num(false, &[3], 0)]),
        ])
    );
    assert_eq!(parse_one("((a) b)").unwrap(), list(vec![list(vec![sym("a")]), sym("b")]));
}

#[test]
fn parse_quote() {
    assert_eq!(parse_one("'a").unwrap(), list(vec![sym("quote"), sym("a")]));
    assert_eq!(
        parse_one("''a").unwrap(),
        list(vec![sym("quote"), list(vec![sym("quote"), sym("a")])])
    );
    assert_eq!(
        parse_one("'(1 2 3)").unwrap(),
        list(vec![
            sym("quote"),
            list(vec![num(false, &[1], 0), num(false, &[2], 0), num(false, &[3], 0)]),
        ])
    );
    assert_eq!(
        parse_one("'(''1 2)").unwrap(),
        list(vec![
            sym("quote"),
            list(vec![
                list(vec![
                    sym("quote"),
                    list(vec![sym("quote"), num(false, &[1], 0)]),
                ]),
                num(false, &[2], 0),
            ]),
        ])
    );
}

#[test]
fn parse_program() {
    assert_eq!(parse("").unwrap(), Vec::<Value>::new());
    assert_eq!(parse("   \n\t ").unwrap(), Vec::<Value>::new());
    assert_eq!(parse("1 2").unwrap(), vec![num(false, &[1], 0), num(false, &[2], 0)]);
    assert_eq!(parse("(a)(b)").unwrap(), vec![list(vec![sym("a")]), list(vec![sym("b")])]);
}

#[test]
fn parse_number_normalizes() {
    assert_eq!(parse_one("007").unwrap(), parse_one("7").unwrap());
    assert_eq!(parse_one("100").unwrap(), num(false, &[1], 2));
    assert_eq!(parse_one("1.50").unwrap(), num(false, &[1, 5], -1));
    assert_eq!(parse_one("-0").unwrap(), num(true, &[0], 0));
    assert_eq!(parse_one("-12.5").unwrap(), num(true, &[1, 2, 5], -1));
}

#[test]
fn parse_errors() {
    assert!(matches!(parse_one("(a"), Err(oat_scheme::Error::UnexpectedEndOfInput)));
    assert!(matches!(parse_one("\"abc"), Err(oat_scheme::Error::UnexpectedEndOfInput)));
    assert!(matches!(parse_one("#\\"), Err(oat_scheme::Error::UnexpectedEndOfInput)));
    assert!(matches!(parse_one(")"), Err(oat_scheme::Error::ParseError(_))));
    assert!(matches!(parse_one("a b"), Err(oat_scheme::Error::ParseError(_))));
    assert!(matches!(parse_one(""), Err(oat_scheme::Error::UnexpectedEndOfInput)));
}

#[test]
fn roundtrip_atoms() {
    for text in [
        "#t", "#f", "#\\a", "#\\ ", "123", "-4.25", "0", "-0", "0.001", "\"a b\"", "abc", "|a b|",
        "'x", "(1 2 (3 . 4))", r#""a\\b""#, r#""say \"hi\"""#,
    ] {
        let v = parse_one(text).unwrap();
        let printed = v.render();
        let again = parse_one(&printed).unwrap();
        assert_eq!(again, v, "round trip through {printed}");
        assert_eq!(again.render(), printed);
    }
}
