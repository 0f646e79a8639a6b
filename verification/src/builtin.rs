//! The base primitive registry: the names the bottom scope starts with,
//! and the pure primitive procedures themselves, each verified against an
//! exact contract.  A registry outside the evaluator dispatches on the
//! name carried by a primitive-procedure value; the procedures that only
//! inspect and build values live here, so that a registry can call them
//! with the operands it has evaluated.

use vstd::prelude::*;

verus! {

use crate::value::{Value, size, str_eq, val_eq, list_elements, improper_tail, is_list_of,
    pair_head, pair_tail};
use crate::number::{abs_rel, Number, normal_form, nat_digits, spec_index};
use crate::environment::Environment;
use crate::eval::{Registry, eval_to_value, frames_preserved, self_evaluating, simple_spine};
use crate::error::Error;
use vstd::string::StringExecFns;
use vstd::string::StrSliceExecFns;

/// The names the base registry supplies, in registration order.
pub open spec fn builtin_names() -> Seq<Seq<char>> {
    seq![
        "display"@,
        "not"@,
        "eq?"@,
        "cons"@,
        "car"@,
        "cdr"@,
        "list"@,
        "abs"@,
        "+"@,
        "-"@,
        "*"@,
        "/"@,
        "string-length"@,
        "string-ref"@,
        "substring"@,
        "string-append"@,
    ]
}

/// Append one registry entry: the name bound to the primitive-procedure
/// value carrying that name.
fn push_builtin(out: &mut Vec<(String, Value)>, name: &str)
    ensures
        final(out)@.len() == old(out)@.len() + 1,
        forall|i: int| 0 <= i < old(out)@.len() ==> final(out)@[i] == old(out)@[i],
        final(out)@.last().0@ == name@,
        final(out)@.last().1 matches Value::PrimitiveProcedure(n) && n@ == name@,
{
    let key = String::from_str(name);
    let tag = String::from_str(name);
    out.push((key, Value::PrimitiveProcedure(tag)));
}

/// The base registry's bindings: each name bound to the primitive value
/// that carries it, in the order of [`builtin_names`].
pub fn builtins() -> (r: Vec<(String, Value)>)
    ensures
        r@.len() == builtin_names().len(),
        forall|i: int|
            0 <= i < builtin_names().len() ==> r@[i].0@ == builtin_names()[i] && (r@[i].1
                matches Value::PrimitiveProcedure(n) && n@ == builtin_names()[i]),
{
    let mut out: Vec<(String, Value)> = Vec::new();
    push_builtin(&mut out, "display");
    push_builtin(&mut out, "not");
    push_builtin(&mut out, "eq?");
    push_builtin(&mut out, "cons");
    push_builtin(&mut out, "car");
    push_builtin(&mut out, "cdr");
    push_builtin(&mut out, "list");
    push_builtin(&mut out, "abs");
    push_builtin(&mut out, "+");
    push_builtin(&mut out, "-");
    push_builtin(&mut out, "*");
    push_builtin(&mut out, "/");
    push_builtin(&mut out, "string-length");
    push_builtin(&mut out, "string-ref");
    push_builtin(&mut out, "substring");
    push_builtin(&mut out, "string-append");
    out
}

/// Split an operand list of exactly one expression, unevaluated.
pub fn split_one(args: &Value) -> (r: Result<Value, Error>)
    ensures
        match *args {
            Value::Pair(x, e) => {
                if *e == Value::EmptyList {
                    r == Ok::<Value, Error>(*x)
                } else {
                    r matches Err(err) && err matches Error::ExpectedList(t) && t == *e
                }
            },
            _ => r matches Err(err) && err matches Error::TypeMismatch(k, v) && k@ == "pair"@ && v
                == *args,
        },
{
    match args {
        Value::Pair(x, e) => {
            if matches!(&**e, Value::EmptyList) {
                Ok((**x).clone())
            } else {
                Err(Error::ExpectedList((**e).clone()))
            }
        },
        _ => {
            let kind = String::from_str("pair");
            proof {
                reveal_strlit("pair");
            }
            Err(Error::TypeMismatch(kind, args.clone()))
        },
    }
}

/// Split an operand list of exactly two expressions, unevaluated.
pub fn split_two(args: &Value) -> (r: Result<(Value, Value), Error>)
    ensures
        match *args {
            Value::Pair(x, t1) => match *t1 {
                Value::Pair(y, t2) => {
                    if *t2 == Value::EmptyList {
                        r == Ok::<(Value, Value), Error>((*x, *y))
                    } else {
                        r matches Err(err) && err matches Error::ExpectedList(t) && t == *t2
                    }
                },
                _ => r matches Err(err) && err matches Error::TypeMismatch(k, v) && k@ == "pair"@
                    && v == *t1,
            },
            _ => r matches Err(err) && err matches Error::ExpectedList(t) && t == *args,
        },
{
    match args {
        Value::Pair(x, t1) => match &**t1 {
            Value::Pair(y, t2) => {
                if matches!(&**t2, Value::EmptyList) {
                    Ok(((**x).clone(), (**y).clone()))
                } else {
                    Err(Error::ExpectedList((**t2).clone()))
                }
            },
            _ => {
                let kind = String::from_str("pair");
                proof {
                    reveal_strlit("pair");
                }
                Err(Error::TypeMismatch(kind, (**t1).clone()))
            },
        },
        _ => Err(Error::ExpectedList(args.clone())),
    }
}

/// Evaluate a whole operand list left to right, demanding a value of each
/// element; fail with the list-expected error at an improper tail.
pub fn eval_operands<R: Registry>(
    operands: &Value,
    env: &mut Environment,
    registry: &mut R,
) -> (r: Result<Vec<Value>, Error>)
    requires
        old(env).frames@.len() > 0,
    ensures
        frames_preserved(old(env).frames@, final(env).frames@),
        r matches Ok(vs) ==> forall|i: int|
            0 <= i < vs@.len() ==> !(#[trigger] vs@[i] matches Value::Void),
        simple_spine(*operands) ==> match list_elements(*operands) {
            Some(items) => r matches Ok(vs) && vs@ == items,
            None => r matches Err(e) && e matches Error::ExpectedList(t) && t == improper_tail(
                *operands,
            ),
        },
{
    let mut out: Vec<Value> = Vec::new();
    let mut cur: Value = operands.clone();
    proof {
        if simple_spine(*operands) && list_elements(*operands) is Some {
            let items = list_elements(*operands)->Some_0;
            assert(Seq::<Value>::empty() + items =~= items);
        }
    }
    loop
        invariant
            old(env).frames@.len() > 0,
            frames_preserved(old(env).frames@, env.frames@),
            forall|i: int| 0 <= i < out@.len() ==> !(#[trigger] out@[i] matches Value::Void),
            simple_spine(*operands) ==> {
                &&& simple_spine(cur)
                &&& improper_tail(cur) == improper_tail(*operands)
                &&& (list_elements(cur) is Some <==> list_elements(*operands) is Some)
                &&& (list_elements(*operands) matches Some(items) ==> (list_elements(cur)
                    matches Some(rest2) && items == out@ + rest2))
            },
        decreases size(cur),
    {
        let ghost oc = cur;
        let (a, rest) = match &cur {
            Value::Pair(a, rest) => ((**a).clone(), (**rest).clone()),
            Value::EmptyList => {
                proof {
                    if simple_spine(*operands) && list_elements(*operands) is Some {
                        assert(out@ + Seq::<Value>::empty() =~= out@);
                    }
                }
                return Ok(out);
            },
            _ => {
                return Err(Error::ExpectedList(cur.clone()));
            },
        };
        let v = match eval_to_value(&a, env, registry) {
            Ok(v) => v,
            Err(e) => {
                return Err(e);
            },
        };
        let ghost prevout = out@;
        out.push(v);
        proof {
            assert(size(rest) < size(cur));
            if simple_spine(*operands) && list_elements(*operands) is Some {
                let rt = list_elements(pair_tail(oc))->Some_0;
                assert(list_elements(oc)->Some_0 == seq![pair_head(oc)] + rt);
                assert(v == pair_head(oc));
                assert(prevout + (seq![pair_head(oc)] + rt) =~= out@ + rt);
            }
        }
        cur = rest;
    }
}

/// What a one-operand primitive yields: the operand-shape errors checked
/// before evaluation, and — once the single operand is a self-evaluating
/// value — the given leaf relation on it, or the expected-value error for
/// `Void`.
pub open spec fn unary_prim_spec(
    operands: Value,
    r: Result<Value, Error>,
    leaf: spec_fn(Value, Result<Value, Error>) -> bool,
) -> bool {
    &&& (!(operands matches Value::Pair(x, e)) ==> (r matches Err(err) && err
        matches Error::TypeMismatch(k, w) && k@ == "pair"@ && w == operands))
    &&& (operands matches Value::Pair(x, e) ==> {
        &&& (*e != Value::EmptyList ==> (r matches Err(err) && err matches Error::ExpectedList(t)
            && t == *e))
        &&& (*e == Value::EmptyList && self_evaluating(*x) && *x != Value::Void ==> leaf(*x, r))
        &&& (*e == Value::EmptyList && *x == Value::Void ==> (r matches Err(err) && err
            matches Error::ExpectedValue(w) && w == *x))
    })
}

/// What a two-operand primitive yields, built like [`unary_prim_spec`]:
/// operand-shape errors first, then left-to-right evaluation of
/// self-evaluating operands into the leaf relation.
pub open spec fn binary_prim_spec(
    operands: Value,
    r: Result<Value, Error>,
    leaf: spec_fn(Value, Value, Result<Value, Error>) -> bool,
) -> bool {
    &&& (!(operands matches Value::Pair(x, t1)) ==> (r matches Err(err) && err
        matches Error::ExpectedList(t) && t == operands))
    &&& (operands matches Value::Pair(x, t1) ==> {
        &&& (!(*t1 matches Value::Pair(y, t2)) ==> (r matches Err(err) && err
            matches Error::TypeMismatch(k, w) && k@ == "pair"@ && w == *t1))
        &&& (*t1 matches Value::Pair(y, t2) ==> {
            &&& (*t2 != Value::EmptyList ==> (r matches Err(err) && err
                matches Error::ExpectedList(t) && t == *t2))
            &&& (*t2 == Value::EmptyList ==> {
                &&& (self_evaluating(*x) && *x != Value::Void && self_evaluating(*y) && *y
                    != Value::Void ==> leaf(*x, *y, r))
                &&& (*x == Value::Void ==> (r matches Err(err) && err
                    matches Error::ExpectedValue(w) && w == *x))
                &&& (self_evaluating(*x) && *x != Value::Void && *y == Value::Void ==> (r
                    matches Err(err) && err matches Error::ExpectedValue(w) && w == *y))
            })
        })
    })
}

/// What a three-operand primitive yields, built like [`unary_prim_spec`].
pub open spec fn ternary_prim_spec(
    operands: Value,
    r: Result<Value, Error>,
    leaf: spec_fn(Value, Value, Value, Result<Value, Error>) -> bool,
) -> bool {
    &&& (!(operands matches Value::Pair(x, t1)) ==> (r matches Err(err) && err
        matches Error::ExpectedList(t) && t == operands))
    &&& (operands matches Value::Pair(x, t1) ==> {
        &&& (!(*t1 matches Value::Pair(y, t2)) ==> (r matches Err(err) && err
            matches Error::ExpectedList(t) && t == *t1))
        &&& (*t1 matches Value::Pair(y, t2) ==> {
            &&& (!(*t2 matches Value::Pair(z, t3)) ==> (r matches Err(err) && err
                matches Error::TypeMismatch(k, w) && k@ == "pair"@ && w == *t2))
            &&& (*t2 matches Value::Pair(z, t3) ==> {
                &&& (*t3 != Value::EmptyList ==> (r matches Err(err) && err
                    matches Error::ExpectedList(t) && t == *t3))
                &&& (*t3 == Value::EmptyList ==> {
                    &&& (self_evaluating(*x) && *x != Value::Void && self_evaluating(*y) && *y
                        != Value::Void && self_evaluating(*z) && *z != Value::Void ==> leaf(
                        *x,
                        *y,
                        *z,
                        r,
                    ))
                    &&& (*x == Value::Void ==> (r matches Err(err) && err
                        matches Error::ExpectedValue(w) && w == *x))
                    &&& (self_evaluating(*x) && *x != Value::Void && *y == Value::Void ==> (r
                        matches Err(err) && err matches Error::ExpectedValue(w) && w == *y))
                    &&& (self_evaluating(*x) && *x != Value::Void && self_evaluating(*y) && *y
                        != Value::Void && *z == Value::Void ==> (r matches Err(err) && err
                        matches Error::ExpectedValue(w) && w == *z))
                })
            })
        })
    })
}

/// What a primitive over the whole evaluated operand list yields over a
/// spine of self-evaluating operands: the leaf relation on exactly those
/// values, or the list-expected error at an improper tail.
pub open spec fn variadic_prim_spec(
    operands: Value,
    r: Result<Value, Error>,
    leaf: spec_fn(Seq<Value>, Result<Value, Error>) -> bool,
) -> bool {
    simple_spine(operands) ==> match list_elements(operands) {
        Some(items) => leaf(items, r),
        None => r matches Err(e) && e matches Error::ExpectedList(t) && t == improper_tail(
            operands,
        ),
    }
}

/// What `not` yields for an evaluated argument.
pub open spec fn not_result(v: Value, r: Result<Value, Error>) -> bool {
    match v {
        Value::Boolean(b) => r == Ok::<Value, Error>(Value::Boolean(!b)),
        _ => r matches Err(err) && err matches Error::TypeMismatch(k, w) && k@ == "boolean"@ && w
            == v,
    }
}

/// What `car` yields for an evaluated argument.
pub open spec fn car_result(v: Value, r: Result<Value, Error>) -> bool {
    match v {
        Value::Pair(h, t) => r == Ok::<Value, Error>(*h),
        _ => r matches Err(err) && err matches Error::TypeMismatch(k, w) && k@ == "pair"@ && w
            == v,
    }
}

/// What `cdr` yields for an evaluated argument.
pub open spec fn cdr_result(v: Value, r: Result<Value, Error>) -> bool {
    match v {
        Value::Pair(h, t) => r == Ok::<Value, Error>(*t),
        _ => r matches Err(err) && err matches Error::TypeMismatch(k, w) && k@ == "pair"@ && w
            == v,
    }
}

/// What `abs` yields for an evaluated argument.
pub open spec fn abs_result(v: Value, r: Result<Value, Error>) -> bool {
    &&& (v matches Value::Number(m) ==> (r matches Ok(w) && w matches Value::Number(m2)
        && abs_rel(*m, *m2)))
    &&& (!(v matches Value::Number(m)) ==> (r matches Err(err) && err
        matches Error::TypeMismatch(k, w) && k@ == "number"@ && w == v))
}

/// What `string-length` yields for an evaluated argument.
pub open spec fn string_length_result(v: Value, r: Result<Value, Error>) -> bool {
    &&& (v matches Value::Str(s) ==> (r matches Ok(w) && w matches Value::Number(m) && (*m
        matches Number::Finite { negative, digits, exponent } && (
    negative,
    digits@,
    exponent as int,
    ) == normal_form(false, nat_digits(s@.len()), 0))))
    &&& (!(v matches Value::Str(s)) ==> (r matches Err(err) && err matches Error::TypeMismatch(
        k,
        w,
    ) && k@ == "string"@ && w == v))
}

/// What `string-ref` yields for its two evaluated arguments.
pub open spec fn string_ref_result(sv: Value, nv: Value, r: Result<Value, Error>) -> bool {
    &&& (sv matches Value::Str(s) ==> (nv matches Value::Number(m) ==> ({
        let idx = spec_index(*m);
        if idx < s@.len() {
            r == Ok::<Value, Error>(Value::Character(s@[idx as int]))
        } else {
            r == Err::<Value, Error>(Error::IndexOutOfBounds(idx as usize))
        }
    })))
    &&& (!(sv matches Value::Str(s)) ==> (r matches Err(err) && err matches Error::TypeMismatch(
        k,
        w,
    ) && k@ == "string"@ && w == sv))
    &&& (sv matches Value::Str(s) && !(nv matches Value::Number(m)) ==> (r matches Err(err) && err
        matches Error::TypeMismatch(k, w) && k@ == "number"@ && w == nv))
}

/// What `substring` yields for its three evaluated arguments.
pub open spec fn substring_result(sv: Value, av: Value, bv: Value, r: Result<Value, Error>) -> bool {
    &&& (sv matches Value::Str(s) ==> (av matches Value::Number(ma) ==> (bv
        matches Value::Number(mb) ==> ({
        let ia = spec_index(*ma);
        let ib = spec_index(*mb);
        if ib > s@.len() {
            r == Err::<Value, Error>(Error::IndexOutOfBounds(ib as usize))
        } else if ia > ib {
            r == Err::<Value, Error>(Error::IndexOutOfBounds(ia as usize))
        } else {
            r matches Ok(w) && w matches Value::Str(t) && t@ == s@.subrange(ia as int, ib as int)
        }
    }))))
    &&& (!(sv matches Value::Str(s)) ==> (r matches Err(err) && err matches Error::TypeMismatch(
        k,
        w,
    ) && k@ == "string"@ && w == sv))
    &&& (sv matches Value::Str(s) && !(av matches Value::Number(ma)) ==> (r matches Err(err) && err
        matches Error::TypeMismatch(k, w) && k@ == "number"@ && w == av))
    &&& (sv matches Value::Str(s) && av matches Value::Number(ma) && !(bv matches Value::Number(
        mb,
    )) ==> (r matches Err(err) && err matches Error::TypeMismatch(k, w) && k@ == "number"@ && w
        == bv))
}

/// What `string-append` yields for its evaluated arguments.
pub open spec fn append_result(items: Seq<Value>, r: Result<Value, Error>) -> bool {
    match concat_strs(items) {
        Some(t) => r matches Ok(w) && w matches Value::Str(u) && u@ == t,
        None => r matches Err(err) && err matches Error::TypeMismatch(k, w) && k@ == "string"@
            && w == first_non_str(items),
    }
}

/// The `not` procedure on its evaluated argument: boolean negation;
/// anything but a boolean is a type mismatch.
pub fn not_of(v: &Value) -> (r: Result<Value, Error>)
    ensures
        not_result(*v, r),
{
    match v {
        Value::Boolean(b) => Ok(Value::Boolean(!*b)),
        _ => {
            let kind = String::from_str("boolean");
            proof {
                reveal_strlit("boolean");
            }
            Err(Error::TypeMismatch(kind, v.clone()))
        },
    }
}

/// The `car` procedure on its evaluated argument: the head of a pair.
pub fn car_of(v: &Value) -> (r: Result<Value, Error>)
    ensures
        car_result(*v, r),
{
    match v {
        Value::Pair(h, t) => Ok((**h).clone()),
        _ => {
            let kind = String::from_str("pair");
            proof {
                reveal_strlit("pair");
            }
            Err(Error::TypeMismatch(kind, v.clone()))
        },
    }
}

/// The `cdr` procedure on its evaluated argument: the tail of a pair.
pub fn cdr_of(v: &Value) -> (r: Result<Value, Error>)
    ensures
        cdr_result(*v, r),
{
    match v {
        Value::Pair(h, t) => Ok((**t).clone()),
        _ => {
            let kind = String::from_str("pair");
            proof {
                reveal_strlit("pair");
            }
            Err(Error::TypeMismatch(kind, v.clone()))
        },
    }
}

/// The `abs` procedure on its evaluated argument: the number with its
/// sign cleared.
pub fn abs_of(v: &Value) -> (r: Result<Value, Error>)
    ensures
        abs_result(*v, r),
{
    match v {
        Value::Number(n) => Ok(Value::number(n.abs_number())),
        _ => {
            let kind = String::from_str("number");
            proof {
                reveal_strlit("number");
            }
            Err(Error::TypeMismatch(kind, v.clone()))
        },
    }
}


/// The characters of a run of string values, or nothing when one of them
/// is not a string.
pub open spec fn concat_strs(items: Seq<Value>) -> Option<Seq<char>>
    decreases items.len(),
{
    if items.len() == 0 {
        Some(Seq::empty())
    } else {
        match items[0] {
            Value::Str(s) => match concat_strs(items.drop_first()) {
                Some(t) => Some(s@ + t),
                None => None,
            },
            _ => None,
        }
    }
}

/// The first value of the run that is not a string (the empty list when
/// every one is).
pub open spec fn first_non_str(items: Seq<Value>) -> Value
    decreases items.len(),
{
    if items.len() == 0 {
        Value::EmptyList
    } else if !(items[0] matches Value::Str(s)) {
        items[0]
    } else {
        first_non_str(items.drop_first())
    }
}

/// The `string-length` procedure on its evaluated argument: the number of
/// characters, as a number.
pub fn string_length_of(v: &Value) -> (r: Result<Value, Error>)
    ensures
        string_length_result(*v, r),
{
    match v {
        Value::Str(s) => {
            let len = s.as_str().unicode_len();
            Ok(Value::number(Number::from_u64(len as u64)))
        },
        _ => {
            let kind = String::from_str("string");
            proof {
                reveal_strlit("string");
            }
            Err(Error::TypeMismatch(kind, v.clone()))
        },
    }
}

/// The `string-ref` procedure on its evaluated arguments: the character
/// at the index the number stands for, or the index-out-of-bounds error
/// past the end.
pub fn string_ref_of(sv: &Value, nv: &Value) -> (r: Result<Value, Error>)
    ensures
        string_ref_result(*sv, *nv, r),
{
    let s = match sv {
        Value::Str(s) => s,
        _ => {
            let kind = String::from_str("string");
            proof {
                reveal_strlit("string");
            }
            return Err(Error::TypeMismatch(kind, sv.clone()));
        },
    };
    let m = match nv {
        Value::Number(m) => m,
        _ => {
            let kind = String::from_str("number");
            proof {
                reveal_strlit("number");
            }
            return Err(Error::TypeMismatch(kind, nv.clone()));
        },
    };
    let idx = m.to_index();
    let len = s.as_str().unicode_len();
    if idx < len {
        Ok(Value::Character(s.as_str().get_char(idx)))
    } else {
        Err(Error::IndexOutOfBounds(idx))
    }
}

/// The `substring` procedure on its evaluated arguments: the characters
/// from the first index up to the second, or the index-out-of-bounds
/// error when the range does not fit the string.
pub fn substring_of(sv: &Value, av: &Value, bv: &Value) -> (r: Result<Value, Error>)
    ensures
        substring_result(*sv, *av, *bv, r),
{
    let s = match sv {
        Value::Str(s) => s,
        _ => {
            let kind = String::from_str("string");
            proof {
                reveal_strlit("string");
            }
            return Err(Error::TypeMismatch(kind, sv.clone()));
        },
    };
    let ma = match av {
        Value::Number(m) => m,
        _ => {
            let kind = String::from_str("number");
            proof {
                reveal_strlit("number");
            }
            return Err(Error::TypeMismatch(kind, av.clone()));
        },
    };
    let mb = match bv {
        Value::Number(m) => m,
        _ => {
            let kind = String::from_str("number");
            proof {
                reveal_strlit("number");
            }
            return Err(Error::TypeMismatch(kind, bv.clone()));
        },
    };
    let ia = ma.to_index();
    let ib = mb.to_index();
    let len = s.as_str().unicode_len();
    if ib > len {
        Err(Error::IndexOutOfBounds(ib))
    } else if ia > ib {
        Err(Error::IndexOutOfBounds(ia))
    } else {
        let part = s.as_str().substring_char(ia, ib);
        Ok(Value::Str(part.to_owned()))
    }
}

/// The `string-append` procedure on its evaluated arguments: the
/// concatenation of the strings, or a type mismatch at the first value
/// that is not one.
pub fn append_of(items: &Vec<Value>) -> (r: Result<Value, Error>)
    ensures
        append_result(items@, r),
{
    let n = items.len();
    let mut acc = String::new();
    let mut i: usize = 0;
    proof {
        assert(items@.skip(0) =~= items@);
    }
    while i < n
        invariant
            i <= n,
            n == items@.len(),
            forall|j: int| 0 <= j < i ==> (#[trigger] items@[j] matches Value::Str(s)),
            concat_strs(items@) matches Some(t) ==> (concat_strs(items@.skip(i as int))
                matches Some(t2) && t == acc@ + t2),
            concat_strs(items@.skip(i as int)) is Some ==> concat_strs(items@) is Some,
            concat_strs(items@) is None ==> first_non_str(items@) == first_non_str(
                items@.skip(i as int),
            ),
        decreases n - i,
    {
        match &items[i] {
            Value::Str(s) => {
                let ghost before = acc@;
                acc.append(s.as_str());
                proof {
                    assert(items@.skip(i as int)[0] == items@[i as int]);
                    assert(items@.skip(i as int).drop_first() =~= items@.skip(i as int + 1));
                    if concat_strs(items@.skip(i as int + 1)) is Some {
                        let t2 = concat_strs(items@.skip(i as int + 1))->Some_0;
                        assert(before + (s@ + t2) =~= acc@ + t2);
                    }
                }
                i = i + 1;
            },
            _ => {
                proof {
                    assert(items@.skip(i as int)[0] == items@[i as int]);
                    assert(items@.skip(i as int).drop_first() =~= items@.skip(i as int + 1));
                }
                let kind = String::from_str("string");
                proof {
                    reveal_strlit("string");
                }
                return Err(Error::TypeMismatch(kind, items[i].clone()));
            },
        }
    }
    proof {
        assert(items@.skip(n as int) =~= Seq::<Value>::empty());
        if concat_strs(items@) is Some {
            let t2 = concat_strs(items@.skip(n as int))->Some_0;
            assert(acc@ + t2 =~= acc@);
        }
    }
    Ok(Value::Str(acc))
}


/// The full contract of the `not` primitive over its raw operand list.
pub open spec fn not_prim_spec(operands: Value, r: Result<Value, Error>) -> bool {
    unary_prim_spec(operands, r, |v: Value, rr: Result<Value, Error>| not_result(v, rr))
}

/// The full contract of the `eq?` primitive over its raw operand list.
pub open spec fn eq_prim_spec(operands: Value, r: Result<Value, Error>) -> bool {
    binary_prim_spec(
        operands,
        r,
        |a: Value, b: Value, rr: Result<Value, Error>|
            rr == Ok::<Value, Error>(Value::Boolean(val_eq(a, b))),
    )
}

/// The full contract of the `cons` primitive over its raw operand list.
pub open spec fn cons_prim_spec(operands: Value, r: Result<Value, Error>) -> bool {
    binary_prim_spec(
        operands,
        r,
        |a: Value, b: Value, rr: Result<Value, Error>|
            (rr matches Ok(v) && v matches Value::Pair(h, t) && *h == a && *t == b),
    )
}

/// The full contract of the `car` primitive over its raw operand list.
pub open spec fn car_prim_spec(operands: Value, r: Result<Value, Error>) -> bool {
    unary_prim_spec(operands, r, |v: Value, rr: Result<Value, Error>| car_result(v, rr))
}

/// The full contract of the `cdr` primitive over its raw operand list.
pub open spec fn cdr_prim_spec(operands: Value, r: Result<Value, Error>) -> bool {
    unary_prim_spec(operands, r, |v: Value, rr: Result<Value, Error>| cdr_result(v, rr))
}

/// The full contract of the `list` primitive over its raw operand list.
pub open spec fn list_prim_spec(operands: Value, r: Result<Value, Error>) -> bool {
    variadic_prim_spec(
        operands,
        r,
        |items: Seq<Value>, rr: Result<Value, Error>| (rr matches Ok(v) && is_list_of(v, items)),
    )
}

/// The full contract of the `abs` primitive over its raw operand list.
pub open spec fn abs_prim_spec(operands: Value, r: Result<Value, Error>) -> bool {
    unary_prim_spec(operands, r, |v: Value, rr: Result<Value, Error>| abs_result(v, rr))
}

/// The full contract of the `string-length` primitive over its raw operand list.
pub open spec fn string_length_prim_spec(operands: Value, r: Result<Value, Error>) -> bool {
    unary_prim_spec(operands, r, |v: Value, rr: Result<Value, Error>| string_length_result(v, rr))
}

/// The full contract of the `string-ref` primitive over its raw operand list.
pub open spec fn string_ref_prim_spec(operands: Value, r: Result<Value, Error>) -> bool {
    binary_prim_spec(
        operands,
        r,
        |a: Value, b: Value, rr: Result<Value, Error>| string_ref_result(a, b, rr),
    )
}

/// The full contract of the `substring` primitive over its raw operand list.
pub open spec fn substring_prim_spec(operands: Value, r: Result<Value, Error>) -> bool {
    ternary_prim_spec(
        operands,
        r,
        |a: Value, b: Value, c: Value, rr: Result<Value, Error>| substring_result(a, b, c, rr),
    )
}

/// The full contract of the `string-append` primitive over its raw operand list.
pub open spec fn string_append_prim_spec(operands: Value, r: Result<Value, Error>) -> bool {
    variadic_prim_spec(
        operands,
        r,
        |items: Seq<Value>, rr: Result<Value, Error>| append_result(items, rr),
    )
}

/// Apply `not` to its unevaluated operand list: one operand, evaluated
/// demanding a value, then negated.
pub fn prim_not<R: Registry>(operands: &Value, env: &mut Environment, registry: &mut R) -> (r:
    Result<Value, Error>)
    requires
        old(env).frames@.len() > 0,
    ensures
        frames_preserved(old(env).frames@, final(env).frames@),
        not_prim_spec(*operands, r),
{
    let a = match split_one(operands) {
        Ok(v) => v,
        Err(e) => {
            return Err(e);
        },
    };
    let va = match eval_to_value(&a, env, registry) {
        Ok(v) => v,
        Err(e) => {
            return Err(e);
        },
    };
    not_of(&va)
}

/// Apply `eq?` to its unevaluated operand list: two operands, evaluated
/// left to right, compared structurally.
pub fn prim_eq<R: Registry>(operands: &Value, env: &mut Environment, registry: &mut R) -> (r:
    Result<Value, Error>)
    requires
        old(env).frames@.len() > 0,
    ensures
        frames_preserved(old(env).frames@, final(env).frames@),
        r matches Ok(v) ==> (v == Value::Boolean(true) || v == Value::Boolean(false)),
        eq_prim_spec(*operands, r),
{
    let (a, b) = match split_two(operands) {
        Ok(t) => t,
        Err(e) => {
            return Err(e);
        },
    };
    let va = match eval_to_value(&a, env, registry) {
        Ok(v) => v,
        Err(e) => {
            return Err(e);
        },
    };
    let vb = match eval_to_value(&b, env, registry) {
        Ok(v) => v,
        Err(e) => {
            return Err(e);
        },
    };
    Ok(Value::boolean(crate::value::eq(&va, &vb)))
}

/// Apply `cons` to its unevaluated operand list: two operands, evaluated
/// left to right, paired.
pub fn prim_cons<R: Registry>(operands: &Value, env: &mut Environment, registry: &mut R) -> (r:
    Result<Value, Error>)
    requires
        old(env).frames@.len() > 0,
    ensures
        frames_preserved(old(env).frames@, final(env).frames@),
        r matches Ok(v) ==> v matches Value::Pair(h, t),
        cons_prim_spec(*operands, r),
{
    let (a, b) = match split_two(operands) {
        Ok(t) => t,
        Err(e) => {
            return Err(e);
        },
    };
    let va = match eval_to_value(&a, env, registry) {
        Ok(v) => v,
        Err(e) => {
            return Err(e);
        },
    };
    let vb = match eval_to_value(&b, env, registry) {
        Ok(v) => v,
        Err(e) => {
            return Err(e);
        },
    };
    Ok(Value::pair(&va, &vb))
}

/// Apply `car` to its unevaluated operand list.
pub fn prim_car<R: Registry>(operands: &Value, env: &mut Environment, registry: &mut R) -> (r:
    Result<Value, Error>)
    requires
        old(env).frames@.len() > 0,
    ensures
        frames_preserved(old(env).frames@, final(env).frames@),
        car_prim_spec(*operands, r),
{
    let a = match split_one(operands) {
        Ok(v) => v,
        Err(e) => {
            return Err(e);
        },
    };
    let va = match eval_to_value(&a, env, registry) {
        Ok(v) => v,
        Err(e) => {
            return Err(e);
        },
    };
    car_of(&va)
}

/// Apply `cdr` to its unevaluated operand list.
pub fn prim_cdr<R: Registry>(operands: &Value, env: &mut Environment, registry: &mut R) -> (r:
    Result<Value, Error>)
    requires
        old(env).frames@.len() > 0,
    ensures
        frames_preserved(old(env).frames@, final(env).frames@),
        cdr_prim_spec(*operands, r),
{
    let a = match split_one(operands) {
        Ok(v) => v,
        Err(e) => {
            return Err(e);
        },
    };
    let va = match eval_to_value(&a, env, registry) {
        Ok(v) => v,
        Err(e) => {
            return Err(e);
        },
    };
    cdr_of(&va)
}

/// Apply `list` to its unevaluated operand list: every operand evaluated
/// left to right, collected into a fresh proper list.
pub fn prim_list<R: Registry>(operands: &Value, env: &mut Environment, registry: &mut R) -> (r:
    Result<Value, Error>)
    requires
        old(env).frames@.len() > 0,
    ensures
        frames_preserved(old(env).frames@, final(env).frames@),
        r matches Ok(v) ==> exists|items: Seq<Value>| crate::value::is_list_of(v, items),
        list_prim_spec(*operands, r),
{
    let vs = match eval_operands(operands, env, registry) {
        Ok(vs) => vs,
        Err(e) => {
            return Err(e);
        },
    };
    let ghost witness = vs@;
    let out = Value::from_iter(vs);
    proof {
        assert(crate::value::is_list_of(out, witness));
    }
    Ok(out)
}

/// Apply `abs` to its unevaluated operand list.
pub fn prim_abs<R: Registry>(operands: &Value, env: &mut Environment, registry: &mut R) -> (r:
    Result<Value, Error>)
    requires
        old(env).frames@.len() > 0,
    ensures
        frames_preserved(old(env).frames@, final(env).frames@),
        abs_prim_spec(*operands, r),
{
    let a = match split_one(operands) {
        Ok(v) => v,
        Err(e) => {
            return Err(e);
        },
    };
    let va = match eval_to_value(&a, env, registry) {
        Ok(v) => v,
        Err(e) => {
            return Err(e);
        },
    };
    abs_of(&va)
}

/// Apply `string-length` to its unevaluated operand list.
pub fn prim_string_length<R: Registry>(
    operands: &Value,
    env: &mut Environment,
    registry: &mut R,
) -> (r: Result<Value, Error>)
    requires
        old(env).frames@.len() > 0,
    ensures
        frames_preserved(old(env).frames@, final(env).frames@),
        string_length_prim_spec(*operands, r),
{
    let a = match split_one(operands) {
        Ok(v) => v,
        Err(e) => {
            return Err(e);
        },
    };
    let va = match eval_to_value(&a, env, registry) {
        Ok(v) => v,
        Err(e) => {
            return Err(e);
        },
    };
    string_length_of(&va)
}

/// Apply `string-ref` to its unevaluated operand list.
pub fn prim_string_ref<R: Registry>(
    operands: &Value,
    env: &mut Environment,
    registry: &mut R,
) -> (r: Result<Value, Error>)
    requires
        old(env).frames@.len() > 0,
    ensures
        frames_preserved(old(env).frames@, final(env).frames@),
        string_ref_prim_spec(*operands, r),
{
    let (a, b) = match split_two(operands) {
        Ok(t) => t,
        Err(e) => {
            return Err(e);
        },
    };
    let va = match eval_to_value(&a, env, registry) {
        Ok(v) => v,
        Err(e) => {
            return Err(e);
        },
    };
    let vb = match eval_to_value(&b, env, registry) {
        Ok(v) => v,
        Err(e) => {
            return Err(e);
        },
    };
    string_ref_of(&va, &vb)
}

/// Apply `substring` to its unevaluated operand list.
pub fn prim_substring<R: Registry>(
    operands: &Value,
    env: &mut Environment,
    registry: &mut R,
) -> (r: Result<Value, Error>)
    requires
        old(env).frames@.len() > 0,
    ensures
        frames_preserved(old(env).frames@, final(env).frames@),
        substring_prim_spec(*operands, r),
{
    let (a, b, c) = match crate::eval::if_operands(operands) {
        Ok(t) => t,
        Err(e) => {
            return Err(e);
        },
    };
    let va = match eval_to_value(&a, env, registry) {
        Ok(v) => v,
        Err(e) => {
            return Err(e);
        },
    };
    let vb = match eval_to_value(&b, env, registry) {
        Ok(v) => v,
        Err(e) => {
            return Err(e);
        },
    };
    let vc = match eval_to_value(&c, env, registry) {
        Ok(v) => v,
        Err(e) => {
            return Err(e);
        },
    };
    substring_of(&va, &vb, &vc)
}

/// Apply `string-append` to its unevaluated operand list.
pub fn prim_string_append<R: Registry>(
    operands: &Value,
    env: &mut Environment,
    registry: &mut R,
) -> (r: Result<Value, Error>)
    requires
        old(env).frames@.len() > 0,
    ensures
        frames_preserved(old(env).frames@, final(env).frames@),
        string_append_prim_spec(*operands, r),
{
    let vs = match eval_operands(operands, env, registry) {
        Ok(vs) => vs,
        Err(e) => {
            return Err(e);
        },
    };
    append_of(&vs)
}


/// Dispatch the pure base primitives by name to their verified bodies.
/// `None` comes back exactly for the names whose behaviour the library
/// cannot hold — printing and the floating-point arithmetic — which a
/// registry supplies itself.
#[verifier::rlimit(60)]
#[verifier::spinoff_prover]
pub fn dispatch_base<R: Registry>(
    name: &str,
    operands: &Value,
    env: &mut Environment,
    registry: &mut R,
) -> (r: Option<Result<Value, Error>>)
    requires
        old(env).frames@.len() > 0,
    ensures
        frames_preserved(old(env).frames@, final(env).frames@),
        name@ == "not"@ ==> (r matches Some(res) && not_prim_spec(*operands, res)),
        name@ == "eq?"@ ==> (r matches Some(res) && eq_prim_spec(*operands, res)),
        name@ == "cons"@ ==> (r matches Some(res) && cons_prim_spec(*operands, res)),
        name@ == "car"@ ==> (r matches Some(res) && car_prim_spec(*operands, res)),
        name@ == "cdr"@ ==> (r matches Some(res) && cdr_prim_spec(*operands, res)),
        name@ == "list"@ ==> (r matches Some(res) && list_prim_spec(*operands, res)),
        name@ == "abs"@ ==> (r matches Some(res) && abs_prim_spec(*operands, res)),
        name@ == "string-length"@ ==> (r matches Some(res) && string_length_prim_spec(
            *operands,
            res,
        )),
        name@ == "string-ref"@ ==> (r matches Some(res) && string_ref_prim_spec(*operands, res)),
        name@ == "substring"@ ==> (r matches Some(res) && substring_prim_spec(*operands, res)),
        name@ == "string-append"@ ==> (r matches Some(res) && string_append_prim_spec(
            *operands,
            res,
        )),
        r is None ==> !(name@ == "not"@ || name@ == "eq?"@ || name@ == "cons"@ || name@ == "car"@
            || name@ == "cdr"@ || name@ == "list"@ || name@ == "abs"@ || name@
            == "string-length"@ || name@ == "string-ref"@ || name@ == "substring"@ || name@
            == "string-append"@),
{
    proof {
        reveal_strlit("not");
        reveal_strlit("eq?");
        reveal_strlit("cons");
        reveal_strlit("car");
        reveal_strlit("cdr");
        reveal_strlit("list");
        reveal_strlit("abs");
        reveal_strlit("string-length");
        reveal_strlit("string-ref");
        reveal_strlit("substring");
        reveal_strlit("string-append");
        assert("not"@ =~= seq!['n', 'o', 't']);
        assert("eq?"@ =~= seq!['e', 'q', '?']);
        assert("cons"@ =~= seq!['c', 'o', 'n', 's']);
        assert("car"@ =~= seq!['c', 'a', 'r']);
        assert("cdr"@ =~= seq!['c', 'd', 'r']);
        assert("list"@ =~= seq!['l', 'i', 's', 't']);
        assert("abs"@ =~= seq!['a', 'b', 's']);
        assert("string-length"@ =~= seq![
            's', 't', 'r', 'i', 'n', 'g', '-', 'l', 'e', 'n', 'g', 't', 'h',
        ]);
        assert("string-ref"@ =~= seq!['s', 't', 'r', 'i', 'n', 'g', '-', 'r', 'e', 'f']);
        assert("substring"@ =~= seq!['s', 'u', 'b', 's', 't', 'r', 'i', 'n', 'g']);
        assert("string-append"@ =~= seq![
            's', 't', 'r', 'i', 'n', 'g', '-', 'a', 'p', 'p', 'e', 'n', 'd',
        ]);
    }
    if str_eq(name, "not") {
        Some(prim_not(operands, env, registry))
    } else if str_eq(name, "eq?") {
        Some(prim_eq(operands, env, registry))
    } else if str_eq(name, "cons") {
        Some(prim_cons(operands, env, registry))
    } else if str_eq(name, "car") {
        Some(prim_car(operands, env, registry))
    } else if str_eq(name, "cdr") {
        Some(prim_cdr(operands, env, registry))
    } else if str_eq(name, "list") {
        Some(prim_list(operands, env, registry))
    } else if str_eq(name, "abs") {
        Some(prim_abs(operands, env, registry))
    } else if str_eq(name, "string-length") {
        Some(prim_string_length(operands, env, registry))
    } else if str_eq(name, "string-ref") {
        Some(prim_string_ref(operands, env, registry))
    } else if str_eq(name, "substring") {
        Some(prim_substring(operands, env, registry))
    } else if str_eq(name, "string-append") {
        Some(prim_string_append(operands, env, registry))
    } else {
        None
    }
}

} // verus!
