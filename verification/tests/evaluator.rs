//! Tests of the evaluator: scoping, shadowing, closures, tail calls,
//! arity and type errors, and the base primitives, driven through a
//! registry that supplies the host-side arithmetic.

use oat_scheme::{builtin, eval, eval_to_value, parse_one, Environment, Error, Number, Registry, Value};

/// The test registry: the pure base primitives from the library, plus
/// floating-point arithmetic and printing done host-side.
struct Host;

fn to_f64(v: &Value) -> Result<f64, Error> {
    match v {
        Value::Number(n) => {
            let text: String = n.render_chars().into_iter().collect();
            Ok(text.parse::<f64>().unwrap())
        }
        _ => Err(Error::TypeMismatch("number".to_string(), v.clone())),
    }
}

fn from_f64(x: f64) -> Value {
    if x.is_nan() {
        Value::number(Number::NotANumber)
    } else if x.is_infinite() {
        Value::number(Number::Infinite { negative: x < 0.0 })
    } else {
        parse_one(&format!("{}", x)).unwrap()
    }
}

fn arithmetic(
    host: &mut Host,
    name: &str,
    operands: &Value,
    env: &mut Environment,
) -> Result<Value, Error> {
    let values = builtin::eval_operands(operands, env, host)?;
    let mut numbers = Vec::new();
    for v in &values {
        numbers.push(to_f64(v)?);
    }
    let result = match name {
        "+" => numbers.iter().sum::<f64>(),
        "*" => numbers.iter().product::<f64>(),
        "-" => match numbers.len() {
            0 => return Err(Error::IncorrectArity(1, 0)),
            1 => -numbers[0],
            _ => numbers[0] - numbers[1..].iter().sum::<f64>(),
        },
        "/" => match numbers.len() {
            0 => return Err(Error::IncorrectArity(1, 0)),
            1 => 1.0 / numbers[0],
            _ => numbers[0] / numbers[1..].iter().product::<f64>(),
        },
        _ => unreachable!(),
    };
    Ok(from_f64(result))
}

impl Registry for Host {
    fn call_primitive(
        &mut self,
        name: &str,
        operands: &Value,
        env: &mut Environment,
    ) -> Result<Value, Error> {
        if let Some(result) = builtin::dispatch_base(name, operands, env, self) {
            return result;
        }
        match name {
            "display" => {
                // exactly one operand, evaluated demanding a value
                let x = builtin::split_one(operands)?;
                let v = eval_to_value(&x, env, self)?;
                match &v {
                    Value::Str(s) => println!("{}", s),
                    Value::Character(c) => println!("{}", c),
                    other => println!("{}", other.render()),
                }
                Ok(Value::void())
            }
            "+" | "-" | "*" | "/" => arithmetic(self, name, operands, env),
            other => Err(Error::UndefinedVariable(other.to_string())),
        }
    }
}

fn run(env: &mut Environment, text: &str) -> Result<Value, Error> {
    let expr = parse_one(text)?;
    eval(&expr, env, &mut Host)
}

fn number(text: &str) -> Value {
    parse_one(text).unwrap()
}

#[test]
fn scoping() {
    let env = &mut Environment::default();

    run(env, "(define (f x) (define a 0) x)").unwrap();

    run(env, "(f 0)").unwrap();

    assert!(env.get("f").is_ok());
    assert!(env.get("x").is_err());
    assert!(env.get("a").is_err());

    run(env, "(define (g f) (eq? f 0))").unwrap();

    assert_eq!(run(env, "(g 0)").unwrap(), Value::boolean(true));
}

#[test]
fn closures() {
    let env = &mut Environment::default();

    run(
        env,
        "
        (define (make-closure)
          (define local 0)
          (define (closure) local)
          closure)
        ",
    )
    .unwrap();

    assert_eq!(run(env, "((make-closure))").unwrap(), number("0"));
}

#[test]
fn tail_calls_run_in_constant_scope_depth() {
    let env = &mut Environment::default();
    run(env, "(define (count n) (if (eq? n 0) 0 (count (- n 1))))").unwrap();
    let before = env.depth();
    assert_eq!(run(env, "(count 100000)").unwrap(), number("0"));
    assert_eq!(env.depth(), before);
}

#[test]
fn arity_and_type_errors() {
    let env = &mut Environment::default();
    run(env, "(define (two a b) a)").unwrap();
    assert_eq!(run(env, "(two 1)").unwrap_err(), Error::IncorrectArity(2, 1));
    assert_eq!(
        run(env, "(car 5)").unwrap_err(),
        Error::TypeMismatch("pair".to_string(), number("5"))
    );
    assert_eq!(
        run(env, "(/ 1 0)").unwrap(),
        Value::number(Number::Infinite { negative: false })
    );
}

#[test]
fn application_head_errors() {
    let env = &mut Environment::default();
    run(env, "(define seven 7)").unwrap();
    // a head bound to a non-procedure carries the evaluated head value
    assert_eq!(
        run(env, "(seven 1)").unwrap_err(),
        Error::ExpectedProcedure(number("7"))
    );
    assert!(matches!(
        run(env, "(missing 1)").unwrap_err(),
        Error::UndefinedVariable(_)
    ));
}

#[test]
fn if_selects_exactly_one_branch() {
    let env = &mut Environment::default();
    assert_eq!(run(env, "(if #t 1 2)").unwrap(), number("1"));
    assert_eq!(run(env, "(if #f 1 2)").unwrap(), number("2"));
    // every non-#f value is truthy
    assert_eq!(run(env, "(if 0 1 2)").unwrap(), number("1"));
    // the untaken branch is never evaluated
    assert_eq!(run(env, "(if #t 1 nowhere)").unwrap(), number("1"));
    // exactly three operands
    assert!(matches!(run(env, "(if #t 1)"), Err(Error::TypeMismatch(_, _))));
    assert!(matches!(run(env, "(if #t 1 2 3)"), Err(Error::ExpectedList(_))));
}

#[test]
fn constant_bodied_calls_return_their_body() {
    let env = &mut Environment::default();
    run(env, "(define (always x y) 42)").unwrap();
    assert_eq!(run(env, "(always 1 2)").unwrap(), number("42"));
}

#[test]
fn parameter_returning_calls_give_back_their_argument() {
    let env = &mut Environment::default();
    run(env, "(define (pick a b) b)").unwrap();
    assert_eq!(run(env, "(pick 1 2)").unwrap(), number("2"));
    // a later duplicate parameter shadows an earlier one
    run(env, "(define (same x x) x)").unwrap();
    assert_eq!(run(env, "(same 5 6)").unwrap(), number("6"));
}

#[test]
fn display_demands_one_operand() {
    let env = &mut Environment::default();
    assert!(matches!(run(env, "(display)"), Err(Error::TypeMismatch(_, _))));
    assert!(matches!(run(env, "(display 1 2)"), Err(Error::ExpectedList(_))));
}

#[test]
fn atoms_evaluate_to_themselves() {
    let env = &mut Environment::default();
    assert_eq!(run(env, "5").unwrap(), number("5"));
    assert_eq!(run(env, "#t").unwrap(), Value::boolean(true));
    assert_eq!(run(env, "\"s\"").unwrap(), Value::string("s"));
    assert_eq!(run(env, "#\\x").unwrap(), Value::character('x'));
    assert_eq!(run(env, "()").unwrap_err(), Error::EmptyApplication);
    assert!(matches!(
        run(env, "nowhere").unwrap_err(),
        Error::UndefinedVariable(_)
    ));
}

#[test]
fn quote_returns_operand_unevaluated() {
    let env = &mut Environment::default();
    assert_eq!(run(env, "'a").unwrap(), Value::symbol("a"));
    assert_eq!(run(env, "(quote (1 2))").unwrap(), parse_one("(1 2)").unwrap());
    assert!(matches!(run(env, "(quote a b)"), Err(Error::ExpectedList(_))));
    assert_eq!(run(env, "(quote)").unwrap_err(), Error::IncorrectArity(1, 0));
}

#[test]
fn and_or_return_booleans_only() {
    let env = &mut Environment::default();
    assert_eq!(run(env, "(and)").unwrap(), Value::boolean(true));
    assert_eq!(run(env, "(or)").unwrap(), Value::boolean(false));
    assert_eq!(run(env, "(and 1 2 3)").unwrap(), Value::boolean(true));
    assert_eq!(run(env, "(and 1 #f 3)").unwrap(), Value::boolean(false));
    assert_eq!(run(env, "(or #f #f 7)").unwrap(), Value::boolean(true));
    // short-circuiting: the undefined symbol after the decision is not reached
    assert_eq!(run(env, "(and #f nowhere)").unwrap(), Value::boolean(false));
    assert_eq!(run(env, "(or 1 nowhere)").unwrap(), Value::boolean(true));
}

#[test]
fn define_binds_and_returns_void() {
    let env = &mut Environment::default();
    assert_eq!(run(env, "(define x 41)").unwrap(), Value::void());
    assert_eq!(run(env, "(+ x 1)").unwrap(), number("42"));
    // a symbol right-hand side binds the value it resolves to
    assert_eq!(run(env, "(define alias x)").unwrap(), Value::void());
    assert_eq!(run(env, "alias").unwrap(), number("41"));
    assert!(matches!(
        run(env, "(define broken nowhere)").unwrap_err(),
        Error::UndefinedVariable(_)
    ));
    // a define may not stand where a value is demanded
    assert!(matches!(run(env, "(car (define y 1))"), Err(Error::ExpectedValue(_))));
    // the empty body is rejected at construction
    assert_eq!(run(env, "(lambda (x))").unwrap_err(), Error::EmptyProcedure);
    // a non-symbol parameter is rejected, naming the leftmost offender
    assert_eq!(
        run(env, "(lambda (x 1) 2)").unwrap_err(),
        Error::TypeMismatch("symbol".to_string(), number("1"))
    );
}

#[test]
fn shadowing_hides_outer_bindings_until_return() {
    let env = &mut Environment::default();
    run(env, "(define x 1)").unwrap();
    run(env, "(define (probe x) x)").unwrap();
    assert_eq!(run(env, "(probe 9)").unwrap(), number("9"));
    assert_eq!(run(env, "x").unwrap(), number("1"));
}

#[test]
fn captures_are_snapshots() {
    let env = &mut Environment::default();
    run(env, "(define y 1)").unwrap();
    run(env, "(define (snap) y)").unwrap();
    run(env, "(define y 2)").unwrap();
    // the closure keeps the value y had when it was defined
    assert_eq!(run(env, "(snap)").unwrap(), number("1"));
}

#[test]
fn pair_primitives() {
    let env = &mut Environment::default();
    assert_eq!(run(env, "(car (cons 1 2))").unwrap(), number("1"));
    assert_eq!(run(env, "(cdr (cons 1 2))").unwrap(), number("2"));
    assert_eq!(run(env, "(list 1 2 3)").unwrap(), parse_one("(1 2 3)").unwrap());
    assert_eq!(run(env, "(eq? '(1 (2 3)) '(1 (2 3)))").unwrap(), Value::boolean(true));
    assert_eq!(run(env, "(eq? '(1 2) '(1 3))").unwrap(), Value::boolean(false));
    assert_eq!(run(env, "(eq? 'a 'a)").unwrap(), Value::boolean(true));
    assert_eq!(run(env, "(not #f)").unwrap(), Value::boolean(true));
    assert!(matches!(run(env, "(not 3)"), Err(Error::TypeMismatch(_, _))));
}

#[test]
fn numeric_primitives() {
    let env = &mut Environment::default();
    assert_eq!(run(env, "(+ 1 2 3)").unwrap(), number("6"));
    assert_eq!(run(env, "(- 10 1 2)").unwrap(), number("7"));
    assert_eq!(run(env, "(- 5)").unwrap(), number("-5"));
    assert_eq!(run(env, "(* 2 3 4)").unwrap(), number("24"));
    assert_eq!(run(env, "(/ 1 4)").unwrap(), number("0.25"));
    assert_eq!(run(env, "(abs -2.5)").unwrap(), number("2.5"));
    assert_eq!(run(env, "(eq? 123. 123.0)").unwrap(), Value::boolean(true));
    assert_eq!(run(env, "(eq? (+ 0.1 0.2) 0.3)").unwrap(), Value::boolean(false));
    assert_eq!(run(env, "(- )").unwrap_err(), Error::IncorrectArity(1, 0));
    assert_eq!(run(env, "(/)").unwrap_err(), Error::IncorrectArity(1, 0));
}

#[test]
fn string_primitives() {
    let env = &mut Environment::default();
    assert_eq!(run(env, "(string-length \"hello\")").unwrap(), number("5"));
    assert_eq!(run(env, "(string-ref \"abc\" 1)").unwrap(), Value::character('b'));
    assert_eq!(
        run(env, "(string-ref \"abc\" 9)").unwrap_err(),
        Error::IndexOutOfBounds(9)
    );
    assert_eq!(run(env, "(substring \"hello\" 1 3)").unwrap(), Value::string("el"));
    assert_eq!(
        run(env, "(string-append \"ab\" \"\" \"cd\")").unwrap(),
        Value::string("abcd")
    );
    assert!(matches!(
        run(env, "(string-length 5)"),
        Err(Error::TypeMismatch(_, _))
    ));
}
