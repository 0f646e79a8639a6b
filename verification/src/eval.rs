//! The evaluator: the dispatcher that interprets a value as code.
//!
//! Special forms are recognized by name before the general application
//! path; procedure application evaluates the head and the operands left to
//! right; the final body expression of a called closure becomes the next
//! expression of an explicit loop rather than a recursive call, so that
//! self-tail-recursive procedures run in bounded stack depth.  A frame is
//! pushed only when a call enters at the depth the loop started with, and
//! the scope stack is always restored to the depth recorded on entry,
//! whatever the exit path.
//!
//! Because every verified function here must terminate, the loop and the
//! recursion run against an astronomically large step budget; exhausting
//! it reports a distinguished error that no practical program reaches.

use vstd::prelude::*;

verus! {

use crate::value::{Value, size, pair_head, pair_tail, list_elements, improper_tail, str_eq,
    truthy, quote_name};
use crate::environment::{Environment, env_lookup, scope_lookup};
use crate::error::Error;
use vstd::string::StringExecFns;

/// The primitive registry, an external collaborator: it maps the name
/// carried by a primitive-procedure value to native behaviour.  The
/// evaluator hands it the *unevaluated* operand list and the environment;
/// the registry is responsible for evaluating its own operands, normally
/// through [`eval_to_value`].
///
/// The contract below is the registry's side of the bargain: a call may
/// read and extend the innermost scope (operand evaluation does so), but
/// must leave the scope stack at the same depth and every outer scope
/// untouched.  The base registry obeys it because [`eval`] does.
pub trait Registry {
    fn call_primitive(&mut self, name: &str, operands: &Value, env: &mut Environment) -> (r:
        Result<Value, Error>)
        ensures
            final(env).frames@.len() == old(env).frames@.len(),
            forall|i: int|
                0 <= i < old(env).frames@.len() - 1 ==> final(env).frames@[i] == old(
                    env,
                ).frames@[i],
    ;
}

/// The scope stacks have the same depth and agree on every scope but the
/// innermost: what [`eval`] promises about the environment.
pub open spec fn frames_preserved(
    before: Seq<Vec<(String, Value)>>,
    after: Seq<Vec<(String, Value)>>,
) -> bool {
    &&& after.len() == before.len()
    &&& forall|i: int| 0 <= i < before.len() - 1 ==> after[i] == before[i]
}

/// The value is a pair whose head is the symbol with the given name.
pub open spec fn headed_by(v: Value, name: Seq<char>) -> bool {
    v matches Value::Pair(h, t) && *h matches Value::Symbol(s) && s@ == name
}

/// What `(quote ...)` returns for the given operand list: exactly one
/// operand, returned unevaluated; an expected-list error on extra
/// operands; the incorrect-arity error when no operand was given.
pub open spec fn quote_spec(args: Value, r: Result<Value, Error>) -> bool {
    match args {
        Value::Pair(x, e) => {
            if *e == Value::EmptyList {
                r == Ok::<Value, Error>(*x)
            } else {
                r matches Err(err) && err matches Error::ExpectedList(t) && t == *e
            }
        },
        _ => r == Err::<Value, Error>(Error::IncorrectArity(1, 0)),
    }
}

/// Return the single operand of a quotation unevaluated, per [`quote_spec`].
fn eval_quote(args: &Value) -> (r: Result<Value, Error>)
    ensures
        quote_spec(*args, r),
{
    match args {
        Value::Pair(x, e) => {
            if matches!(&**e, Value::EmptyList) {
                Ok((**x).clone())
            } else {
                Err(Error::ExpectedList((**e).clone()))
            }
        },
        _ => Err(Error::IncorrectArity(1, 0)),
    }
}

/// Whether some parameter name equals the given name.
pub open spec fn param_listed(params: Seq<String>, name: Seq<char>) -> bool {
    exists|i: int| 0 <= i < params.len() && params[i]@ == name
}

/// The capture list of a body expression: every symbol in the tree that is
/// not a declared parameter and that the defining environment resolves,
/// paired with the value it resolves to at this moment, heads before
/// tails.  Duplicates are allowed; every occurrence of a name carries the
/// same value, so later bindings repeat earlier ones harmlessly.
pub open spec fn captures_of(
    v: Value,
    params: Seq<String>,
    frames: Seq<Vec<(String, Value)>>,
) -> Seq<(String, Value)>
    decreases v,
{
    match v {
        Value::Symbol(s) => {
            if !param_listed(params, s@) {
                match env_lookup(frames, s@) {
                    Some(found) => seq![(s, found)],
                    None => Seq::empty(),
                }
            } else {
                Seq::empty()
            }
        },
        Value::Pair(a, b) => captures_of(*a, params, frames) + captures_of(*b, params, frames),
        _ => Seq::empty(),
    }
}

/// Whether the name is among the declared parameters.
fn name_is_param(params: &Vec<String>, name: &str) -> (r: bool)
    ensures
        r == param_listed(params@, name@),
{
    let n = params.len();
    let mut i: usize = 0;
    while i < n
        invariant
            i <= n,
            n == params@.len(),
            forall|j: int| 0 <= j < i ==> params@[j]@ != name@,
        decreases n - i,
    {
        if str_eq(params[i].as_str(), name) {
            return true;
        }
        i = i + 1;
    }
    false
}

/// Walk a body expression and append its captures, per [`captures_of`]:
/// free symbols are looked up in the defining environment and snapshotted
/// with the values they have now.
fn get_captures(
    value: &Value,
    parameters: &Vec<String>,
    env: &Environment,
    captures: &mut Vec<(String, Value)>,
)
    ensures
        final(captures)@ == old(captures)@ + captures_of(*value, parameters@, env.frames@),
    decreases size(*value),
{
    match value {
        Value::Symbol(s) => {
            if !name_is_param(parameters, s.as_str()) {
                match env.get(s.as_str()) {
                    Ok(found) => {
                        captures.push((s.clone(), found));
                        proof {
                            assert(captures@ =~= old(captures)@ + captures_of(
                                *value,
                                parameters@,
                                env.frames@,
                            ));
                        }
                    },
                    Err(_) => {
                        proof {
                            assert(captures@ =~= old(captures)@ + captures_of(
                                *value,
                                parameters@,
                                env.frames@,
                            ));
                        }
                    },
                }
            } else {
                proof {
                    assert(captures@ =~= old(captures)@ + captures_of(
                        *value,
                        parameters@,
                        env.frames@,
                    ));
                }
            }
        },
        Value::Pair(a, b) => {
            get_captures(a, parameters, env, captures);
            get_captures(b, parameters, env, captures);
            proof {
                assert(captures@ =~= old(captures)@ + captures_of(
                    *value,
                    parameters@,
                    env.frames@,
                ));
            }
        },
        _ => {
            proof {
                assert(captures@ =~= old(captures)@ + captures_of(
                    *value,
                    parameters@,
                    env.frames@,
                ));
            }
        },
    }
}

/// The parameter list reads as a proper list of symbols with these names.
pub open spec fn symbol_names(items: Seq<Value>, names: Seq<String>) -> bool {
    &&& names.len() == items.len()
    &&& forall|i: int|
        0 <= i < items.len() ==> (#[trigger] items[i] matches Value::Symbol(s) && names[i]@ == s@)
}

/// Every value of the sequence is a symbol.
pub open spec fn all_symbols(items: Seq<Value>) -> bool {
    forall|i: int| 0 <= i < items.len() ==> (#[trigger] items[i] matches Value::Symbol(s))
}

/// The operand shape a lambda accepts: a proper list of symbols as
/// parameters, and a proper, non-empty list of body expressions.
pub open spec fn lambda_args_ok(params_v: Value, body_v: Value) -> bool {
    &&& list_elements(params_v) matches Some(ps) && all_symbols(ps)
    &&& list_elements(body_v) matches Some(bs) && bs.len() > 0
}

/// Walking the parameter list meets a non-symbol element, every element
/// before it a symbol.
pub open spec fn symbol_prefix_then_bad(v: Value) -> bool
    decreases v,
{
    match v {
        Value::Pair(h, t) => if *h matches Value::Symbol(s) {
            symbol_prefix_then_bad(*t)
        } else {
            true
        },
        _ => false,
    }
}

/// The first non-symbol element the parameter walk meets (the list itself
/// when every element is a symbol).
pub open spec fn leftmost_non_symbol(v: Value) -> Value
    decreases v,
{
    match v {
        Value::Pair(h, t) => if *h matches Value::Symbol(s) {
            leftmost_non_symbol(*t)
        } else {
            *h
        },
        _ => v,
    }
}

/// Every element of the parameter list is a symbol but the spine ends in
/// an improper tail.
pub open spec fn symbols_then_improper(v: Value) -> bool
    decreases v,
{
    match v {
        Value::Pair(h, t) => (*h matches Value::Symbol(s)) && symbols_then_improper(*t),
        Value::EmptyList => false,
        _ => true,
    }
}

/// The closure a lambda builds: parameter names spelling the given
/// parameter list, the given body expressions (at least one), and exactly
/// the [`captures_of`] snapshot of those expressions, in order.
pub open spec fn lambda_ok_shape(
    params_v: Value,
    body_v: Value,
    frames: Seq<Vec<(String, Value)>>,
    v: Value,
) -> bool {
    v matches Value::Procedure(p) && {
        &&& list_elements(params_v) matches Some(pitems) && symbol_names(pitems, p.parameters@)
        &&& list_elements(body_v) matches Some(bitems) && p.body@ == bitems && bitems.len() > 0
        &&& p.captures@ == flat_captures(p.body@, p.parameters@, frames)
    }
}

/// What `make_lambda` produces: on success, a closure per
/// [`lambda_ok_shape`]; and success is owed whenever the operand shape is
/// acceptable per [`lambda_args_ok`].
pub open spec fn lambda_spec(
    params_v: Value,
    body_v: Value,
    frames: Seq<Vec<(String, Value)>>,
    r: Result<Value, Error>,
) -> bool {
    &&& (r matches Ok(v) ==> lambda_ok_shape(params_v, body_v, frames, v))
    &&& (lambda_args_ok(params_v, body_v) ==> r is Ok)
    &&& (symbol_prefix_then_bad(params_v) ==> (r matches Err(e) && e matches Error::TypeMismatch(
        k,
        w,
    ) && k@ == "symbol"@ && w == leftmost_non_symbol(params_v)))
    &&& (symbols_then_improper(params_v) ==> (r matches Err(e) && e matches Error::ExpectedList(
        t,
    ) && t == improper_tail(params_v)))
}

/// The captures of a sequence of body expressions, in order.
pub open spec fn flat_captures(
    body: Seq<Value>,
    params: Seq<String>,
    frames: Seq<Vec<(String, Value)>>,
) -> Seq<(String, Value)>
    decreases body.len(),
{
    if body.len() == 0 {
        Seq::empty()
    } else {
        captures_of(body[0], params, frames) + flat_captures(body.drop_first(), params, frames)
    }
}

/// Build a closure from a parameter list and a body.  Every parameter
/// position must be a symbol (type-mismatch otherwise), both lists must be
/// proper (list-expected otherwise), and the body must be non-empty
/// (empty-procedure otherwise).  Captures are snapshotted now, from the
/// defining environment; see [`captures_of`].
fn make_lambda(parameters: &Value, body: &Value, env: &Environment) -> (r: Result<Value, Error>)
    ensures
        lambda_spec(*parameters, *body, env.frames@, r),
        r == Err::<Value, Error>(Error::EmptyProcedure) ==> list_elements(*body) == Some(
            Seq::<Value>::empty(),
        ),
        (list_elements(*parameters) matches Some(ps) && all_symbols(ps) && list_elements(*body)
            == Some(Seq::<Value>::empty())) ==> r == Err::<Value, Error>(Error::EmptyProcedure),
{
    let mut names: Vec<String> = Vec::new();
    let mut cur: &Value = parameters;
    let ghost mut done: Seq<Value> = Seq::empty();
    loop
        invariant
            symbol_names(done, names@),
            list_elements(*cur) matches Some(s) ==> list_elements(*parameters) == Some(done + s),
            (list_elements(*parameters) matches Some(ps) && all_symbols(ps)) ==> (list_elements(
                *cur,
            ) matches Some(cs) && all_symbols(cs)),
            symbol_prefix_then_bad(*parameters) ==> (symbol_prefix_then_bad(*cur)
                && leftmost_non_symbol(*cur) == leftmost_non_symbol(*parameters)),
            symbols_then_improper(*parameters) ==> (symbols_then_improper(*cur) && improper_tail(
                *cur,
            ) == improper_tail(*parameters)),
        ensures
            symbol_names(done, names@),
            list_elements(*parameters) == Some(done),
            !symbol_prefix_then_bad(*parameters),
            !symbols_then_improper(*parameters),
        decreases size(*cur),
    {
        match cur {
            Value::EmptyList => {
                proof {
                    assert(done + Seq::<Value>::empty() =~= done);
                }
                break ;
            },
            Value::Pair(h, t) => {
                match &**h {
                    Value::Symbol(s) => {
                        let ghost cv = *cur;
                        let ghost olddone = done;
                        names.push(s.clone());
                        proof {
                            done = done.push(pair_head(cv));
                        }
                        cur = t;
                        proof {
                            if list_elements(*cur) is Some {
                                let rest = list_elements(*cur)->Some_0;
                                assert(list_elements(cv) == Some(seq![pair_head(cv)] + rest));
                                assert(olddone + (seq![pair_head(cv)] + rest) =~= done + rest);
                                if list_elements(*parameters) is Some && all_symbols(
                                    list_elements(*parameters)->Some_0,
                                ) {
                                    let full = seq![pair_head(cv)] + rest;
                                    assert(forall|i: int|
                                        0 <= i < rest.len() ==> rest[i] == full[i + 1]);
                                }
                            }
                        }
                    },
                    _ => {
                        proof {
                            if list_elements(*parameters) is Some && all_symbols(
                                list_elements(*parameters)->Some_0,
                            ) {
                                let cs = list_elements(*cur)->Some_0;
                                assert(cs[0] == pair_head(*cur));
                            }
                        }
                        return Err(type_mismatch_symbol((**h).clone()));
                    },
                }
            },
            _ => {
                return Err(Error::ExpectedList(cur.clone()));
            },
        }
    }
    let body_items = match body.list_items() {
        Ok(items) => items,
        Err(e) => {
            return Err(e);
        },
    };
    if body_items.len() == 0 {
        return Err(Error::EmptyProcedure);
    }
    let mut captures: Vec<(String, Value)> = Vec::new();
    let n = body_items.len();
    let mut i: usize = 0;
    while i < n
        invariant
            i <= n,
            n == body_items@.len(),
            captures@ == flat_captures(body_items@.subrange(0, i as int), names@, env.frames@),
        decreases n - i,
    {
        let ghost before = captures@;
        get_captures(&body_items[i], &names, env, &mut captures);
        i = i + 1;
        proof {
            lemma_flat_captures_snoc(body_items@.subrange(0, i as int), names@, env.frames@);
            assert(body_items@.subrange(0, i as int).drop_last() =~= body_items@.subrange(
                0,
                i as int - 1,
            ));
            assert(body_items@.subrange(0, i as int).last() == body_items@[i as int - 1]);
        }
    }
    proof {
        assert(body_items@.subrange(0, n as int) =~= body_items@);
    }
    Ok(Value::procedure(names, body_items, captures))
}

/// Appending one body expression appends its captures.
proof fn lemma_flat_captures_snoc(
    body: Seq<Value>,
    params: Seq<String>,
    frames: Seq<Vec<(String, Value)>>,
)
    requires
        body.len() > 0,
    ensures
        flat_captures(body, params, frames) == flat_captures(body.drop_last(), params, frames)
            + captures_of(body.last(), params, frames),
    decreases body.len(),
{
    if body.len() == 1 {
        assert(flat_captures(body.drop_first(), params, frames) == Seq::<(String, Value)>::empty());
        assert(flat_captures(body.drop_last(), params, frames) == Seq::<(String, Value)>::empty());
        assert(body[0] == body.last());
        assert(captures_of(body[0], params, frames) + Seq::<(String, Value)>::empty() =~= Seq::<(
            String,
            Value,
        )>::empty() + captures_of(body[0], params, frames));
    } else {
        lemma_flat_captures_snoc(body.drop_first(), params, frames);
        assert(body.drop_first().drop_last() =~= body.drop_last().drop_first());
        assert(body.drop_first().last() == body.last());
        assert(body.drop_last()[0] == body[0]);
        assert(captures_of(body[0], params, frames) + (flat_captures(
            body.drop_first().drop_last(),
            params,
            frames,
        ) + captures_of(body.last(), params, frames)) =~= (captures_of(body[0], params, frames)
            + flat_captures(body.drop_last().drop_first(), params, frames)) + captures_of(
            body.last(),
            params,
            frames,
        ));
    }
}

/// What destructuring the three operands of `if` yields: the predicate,
/// consequent and alternative, or the exact error the shape produces.
pub open spec fn if_args_spec(args: Value, r: Result<(Value, Value, Value), Error>) -> bool {
    match args {
        Value::Pair(p, t1) => match *t1 {
            Value::Pair(c, t2) => match *t2 {
                Value::Pair(a, t3) => {
                    if *t3 == Value::EmptyList {
                        r == Ok::<(Value, Value, Value), Error>((*p, *c, *a))
                    } else {
                        r matches Err(err) && err matches Error::ExpectedList(t) && t == *t3
                    }
                },
                _ => r matches Err(err) && err matches Error::TypeMismatch(k, v) && k@ == "pair"@
                    && v == *t2,
            },
            _ => r matches Err(err) && err matches Error::ExpectedList(t) && t == *t1,
        },
        _ => r matches Err(err) && err matches Error::ExpectedList(t) && t == args,
    }
}

/// Destructure the operand list of `if` into exactly three expressions,
/// per [`if_args_spec`].
pub(crate) fn if_operands(args: &Value) -> (r: Result<(Value, Value, Value), Error>)
    ensures
        if_args_spec(*args, r),
{
    match args {
        Value::Pair(p, t1) => match &**t1 {
            Value::Pair(c, t2) => match &**t2 {
                Value::Pair(a, t3) => {
                    if matches!(&**t3, Value::EmptyList) {
                        Ok(((**p).clone(), (**c).clone(), (**a).clone()))
                    } else {
                        Err(Error::ExpectedList((**t3).clone()))
                    }
                },
                _ => {
                    let kind = String::from_str("pair");
                    proof {
                        reveal_strlit("pair");
                    }
                    Err(Error::TypeMismatch(kind, (**t2).clone()))
                },
            },
            _ => Err(Error::ExpectedList((**t1).clone())),
        },
        _ => Err(Error::ExpectedList(args.clone())),
    }
}

/// The name of the lambda special form.
pub open spec fn lambda_name() -> Seq<char> {
    seq!['l', 'a', 'm', 'b', 'd', 'a']
}

/// What a `lambda` form evaluates to, given its operand list and the
/// defining scopes: a closure per [`lambda_spec`], or a type mismatch when
/// the operand list is not even a pair.
pub open spec fn lambda_result_spec(
    args: Value,
    frames: Seq<Vec<(String, Value)>>,
    r: Result<Value, Error>,
) -> bool {
    match args {
        Value::Pair(p, b) => lambda_spec(*p, *b, frames, r),
        _ => r matches Err(e) && e matches Error::TypeMismatch(k, v) && k@ == "pair"@ && v == args,
    }
}

/// The name of the define special form.
pub open spec fn define_name() -> Seq<char> {
    seq!['d', 'e', 'f', 'i', 'n', 'e']
}

/// The name a `define` form binds: the symbol itself in the plain form,
/// the head of the signature in the procedure-definition sugar.
pub open spec fn defined_name(args: Value) -> Option<Seq<char>> {
    match args {
        Value::Pair(lhs, rest) => match *lhs {
            Value::Symbol(s) => Some(s@),
            Value::Pair(n, params) => match *n {
                Value::Symbol(s2) => Some(s2@),
                _ => None,
            },
            _ => None,
        },
        _ => None,
    }
}

/// The premise of [`app_simple_premise`] narrowed further: the closure
/// the head resolves to takes exactly as many operands as given and its
/// whole body is one self-evaluating expression, so the call's result is
/// that expression itself.
pub open spec fn app_constant_premise(v: Value, frames: Seq<Vec<(String, Value)>>) -> bool {
    v matches Value::Pair(h, ops) && *h matches Value::Symbol(s) && env_lookup(
        frames,
        s@,
    ) matches Some(pv) && pv matches Value::Procedure(p) && list_elements(*ops) matches Some(
        items,
    ) && !is_special_name(s@) && simple_spine(*ops) && items.len() == p.parameters@.len()
        && p.body@.len() == 1 && self_evaluating(p.body@[0])
}

/// The single body expression of the closure the head resolves to (the
/// value itself when the shape is not that of such an application).
pub open spec fn app_constant_body(v: Value, frames: Seq<Vec<(String, Value)>>) -> Value {
    match v {
        Value::Pair(h, ops) => match *h {
            Value::Symbol(s) => match env_lookup(frames, s@) {
                Some(pv) => match pv {
                    Value::Procedure(p) => if p.body@.len() >= 1 {
                        p.body@[0]
                    } else {
                        v
                    },
                    _ => v,
                },
                None => v,
            },
            _ => v,
        },
        _ => v,
    }
}

/// The value the last parameter binding of `name` carries: parameters
/// are bound left to right, so a later duplicate wins.
pub open spec fn param_lookup(params: Seq<String>, args: Seq<Value>, name: Seq<char>) -> Option<
    Value,
>
    decreases params.len(),
{
    if params.len() == 0 {
        None
    } else if params.last()@ == name {
        Some(args[params.len() - 1])
    } else {
        param_lookup(params.drop_last(), args.drop_last(), name)
    }
}

/// Some capture carries the given name.
pub open spec fn capture_named(captures: Seq<(String, Value)>, name: Seq<char>) -> bool {
    exists|i: int| 0 <= i < captures.len() && captures[i].0@ == name
}

/// The premise of [`app_simple_premise`] narrowed to a closure of
/// matching arity whose whole body is one symbol naming a parameter and
/// shadowed by no capture: the call returns that parameter's argument.
pub open spec fn app_param_premise(v: Value, frames: Seq<Vec<(String, Value)>>) -> bool {
    v matches Value::Pair(h, ops) && *h matches Value::Symbol(s) && env_lookup(
        frames,
        s@,
    ) matches Some(pv) && pv matches Value::Procedure(p) && p.body@[0] matches Value::Symbol(bs)
        && list_elements(*ops) matches Some(items) && !is_special_name(s@) && simple_spine(*ops)
        && items.len() == p.parameters@.len() && p.body@.len() == 1 && param_lookup(
        p.parameters@,
        items,
        bs@,
    ) is Some && !capture_named(p.captures@, bs@)
}

/// The name the single body symbol of such a call carries.
pub open spec fn app_param_symbol(v: Value, frames: Seq<Vec<(String, Value)>>) -> Seq<char> {
    match v {
        Value::Pair(h, ops) => match *h {
            Value::Symbol(s) => match env_lookup(frames, s@) {
                Some(pv) => match pv {
                    Value::Procedure(p) => match p.body@[0] {
                        Value::Symbol(bs) => bs@,
                        _ => Seq::empty(),
                    },
                    _ => Seq::empty(),
                },
                None => Seq::empty(),
            },
            _ => Seq::empty(),
        },
        _ => Seq::empty(),
    }
}

/// The argument such a call returns.
pub open spec fn app_param_result(v: Value, frames: Seq<Vec<(String, Value)>>) -> Value {
    match v {
        Value::Pair(h, ops) => match *h {
            Value::Symbol(s) => match env_lookup(frames, s@) {
                Some(pv) => match pv {
                    Value::Procedure(p) => match p.body@[0] {
                        Value::Symbol(bs) => match list_elements(*ops) {
                            Some(items) => match param_lookup(p.parameters@, items, bs@) {
                                Some(w) => w,
                                None => v,
                            },
                            None => v,
                        },
                        _ => v,
                    },
                    _ => v,
                },
                None => v,
            },
            _ => v,
        },
        _ => v,
    }
}

/// The value has one of the shapes the evaluator settles in a single
/// step: an atom, a symbol, the empty list, or a quotation or lambda form.
pub open spec fn shallow_shape(v: Value) -> bool {
    ||| self_evaluating(v)
    ||| v matches Value::Symbol(s)
    ||| v == Value::EmptyList
    ||| headed_by(v, quote_name())
    ||| headed_by(v, lambda_name())
}

/// What evaluating a shallow-shaped value yields, by shape; vacuous for
/// every other shape.
pub open spec fn shallow_result(
    v: Value,
    frames: Seq<Vec<(String, Value)>>,
    r: Result<Value, Error>,
) -> bool {
    &&& (self_evaluating(v) ==> r == Ok::<Value, Error>(v))
    &&& (v matches Value::Symbol(s) ==> symbol_result(frames, s@, r))
    &&& (v == Value::EmptyList ==> r == Err::<Value, Error>(Error::EmptyApplication))
    &&& (headed_by(v, quote_name()) ==> quote_spec(pair_tail(v), r))
    &&& (headed_by(v, lambda_name()) ==> lambda_result_spec(pair_tail(v), frames, r))
}

/// The operand shape of a well-formed `if` with a self-evaluating,
/// non-`Void` predicate: its branch selection is decided immediately.
pub open spec fn if_simple_premise(args: Value) -> bool {
    args matches Value::Pair(p, t1) && *t1 matches Value::Pair(c, t2) && *t2 matches Value::Pair(
        a,
        t3,
    ) && *t3 == Value::EmptyList && self_evaluating(*p) && *p != Value::Void
}

/// The operand list of an `if` destructures into exactly three operands.
pub open spec fn if_three_shape(args: Value) -> bool {
    args matches Value::Pair(p, t1) && *t1 matches Value::Pair(c, t2) && *t2 matches Value::Pair(
        a,
        t3,
    ) && *t3 == Value::EmptyList
}

/// The exact errors an `if` form's operand shape produces, mirroring the
/// error legs of [`if_args_spec`]; vacuous on the three-operand shape.
pub open spec fn if_shape_error_spec(args: Value, r: Result<Value, Error>) -> bool {
    &&& (!(args matches Value::Pair(p, t1)) ==> (r matches Err(e) && e
        matches Error::ExpectedList(t) && t == args))
    &&& (args matches Value::Pair(p, t1) ==> {
        &&& (!(*t1 matches Value::Pair(c, t2)) ==> (r matches Err(e) && e
            matches Error::ExpectedList(t) && t == *t1))
        &&& (*t1 matches Value::Pair(c, t2) ==> {
            &&& (!(*t2 matches Value::Pair(a, t3)) ==> (r matches Err(e) && e
                matches Error::TypeMismatch(k, w) && k@ == "pair"@ && w == *t2))
            &&& (*t2 matches Value::Pair(a, t3) ==> (*t3 != Value::EmptyList ==> (r matches Err(
                e,
            ) && e matches Error::ExpectedList(t) && t == *t3)))
        })
    })
}

/// The branch a well-formed `if` selects by its predicate's truthiness
/// (the operand list itself when the shape is not that of an `if`).
pub open spec fn if_chosen(args: Value) -> Value {
    match args {
        Value::Pair(p, t1) => match *t1 {
            Value::Pair(c, t2) => match *t2 {
                Value::Pair(a, t3) => if truthy(*p) {
                    *c
                } else {
                    *a
                },
                _ => args,
            },
            _ => args,
        },
        _ => args,
    }
}

/// What a `define` form does, given its operand list, the scopes at entry
/// (for capture snapshots) and at exit (for the binding made): success
/// returns `Void` and binds the defined name in the innermost scope — to
/// the right-hand side itself when that is a self-evaluating value, and to
/// the built closure in the procedure-definition sugar.
pub open spec fn define_result_spec(
    args: Value,
    frames_before: Seq<Vec<(String, Value)>>,
    frames_after: Seq<Vec<(String, Value)>>,
    r: Result<Value, Error>,
) -> bool {
    &&& (r matches Ok(v) ==> (defined_name(args) matches Some(nm) && v == Value::Void
        && frames_after.len() > 0 && scope_lookup(frames_after.last()@, nm) is Some))
    &&& (!(args matches Value::Pair(h, t)) ==> (r matches Err(e) && e matches Error::ExpectedList(
        t2,
    ) && t2 == args))
    &&& (args matches Value::Pair(lhs, rest) ==> (*lhs matches Value::Symbol(n) ==> (*rest
        matches Value::Pair(rhs, tail) ==> (*tail == Value::EmptyList ==> {
        &&& (self_evaluating(*rhs) && *rhs != Value::Void ==> (r == Ok::<Value, Error>(Value::Void)
            && frames_after.len() > 0 && scope_lookup(frames_after.last()@, n@) == Some(*rhs)))
        &&& (*rhs == Value::Void ==> (r matches Err(e) && e matches Error::ExpectedValue(w) && w
            == *rhs))
        &&& (*rhs matches Value::Symbol(rs) ==> match env_lookup(frames_before, rs@) {
            Some(v) => if v == Value::Void {
                r matches Err(e) && e matches Error::ExpectedValue(w) && w == *rhs
            } else {
                r == Ok::<Value, Error>(Value::Void) && frames_after.len() > 0 && scope_lookup(
                    frames_after.last()@,
                    n@,
                ) == Some(v)
            },
            None => r matches Err(e) && e matches Error::UndefinedVariable(s2) && s2@ == rs@,
        })
    }))))
    &&& (args matches Value::Pair(h0, bodyv) ==> (*h0 matches Value::Pair(namev, paramsv) ==> {
        &&& (!(*namev matches Value::Symbol(n2)) ==> (r matches Err(e) && e
            matches Error::TypeMismatch(k, w) && k@ == "symbol"@ && w == *namev))
        &&& (*namev matches Value::Symbol(n) ==> (lambda_args_ok(*paramsv, *bodyv) ==> (r == Ok::<
            Value,
            Error,
        >(Value::Void) && frames_after.len() > 0 && (scope_lookup(frames_after.last()@, n@)
            matches Some(pv) && lambda_ok_shape(*paramsv, *bodyv, frames_before, pv)))))
    }))
}

/// The name of the `and` special form.
pub open spec fn and_name() -> Seq<char> {
    seq!['a', 'n', 'd']
}

/// The name of the `or` special form.
pub open spec fn or_name() -> Seq<char> {
    seq!['o', 'r']
}

/// Every element along the operand spine is a self-evaluating, non-`Void`
/// value (trivially so at the end, proper or not).
pub open spec fn simple_spine(v: Value) -> bool
    decreases v,
{
    match v {
        Value::Pair(h, t) => self_evaluating(*h) && *h != Value::Void && simple_spine(*t),
        _ => true,
    }
}

/// Every element along the operand spine is truthy.
pub open spec fn spine_all_truthy(v: Value) -> bool
    decreases v,
{
    match v {
        Value::Pair(h, t) => truthy(*h) && spine_all_truthy(*t),
        _ => true,
    }
}

/// Some element along the operand spine is truthy.
pub open spec fn spine_any_truthy(v: Value) -> bool
    decreases v,
{
    match v {
        Value::Pair(h, t) => truthy(*h) || spine_any_truthy(*t),
        _ => false,
    }
}

/// What `and` returns over self-evaluating operands: `#f` as soon as one
/// is falsy, `#t` at the end of a proper list of truthy ones, and the
/// list-expected error at an improper tail reached with every operand
/// before it truthy.
pub open spec fn and_result_spec(args: Value, r: Result<Value, Error>) -> bool {
    if !spine_all_truthy(args) {
        r == Ok::<Value, Error>(Value::Boolean(false))
    } else if list_elements(args) is Some {
        r == Ok::<Value, Error>(Value::Boolean(true))
    } else {
        r matches Err(e) && e matches Error::ExpectedList(t) && t == improper_tail(args)
    }
}

/// What `or` returns over self-evaluating operands: `#t` as soon as one is
/// truthy, `#f` at the end of a proper list of falsy ones, and the
/// list-expected error at an improper tail reached with every operand
/// before it falsy.
pub open spec fn or_result_spec(args: Value, r: Result<Value, Error>) -> bool {
    if spine_any_truthy(args) {
        r == Ok::<Value, Error>(Value::Boolean(true))
    } else if list_elements(args) is Some {
        r == Ok::<Value, Error>(Value::Boolean(false))
    } else {
        r matches Err(e) && e matches Error::ExpectedList(t) && t == improper_tail(args)
    }
}

/// The name of the `if` special form.
pub open spec fn if_name() -> Seq<char> {
    seq!['i', 'f']
}

/// The name is one of the six special forms, which the dispatcher claims
/// before the general application path.
pub open spec fn is_special_name(s: Seq<char>) -> bool {
    ||| s == define_name()
    ||| s == and_name()
    ||| s == or_name()
    ||| s == lambda_name()
    ||| s == quote_name()
    ||| s == if_name()
}

/// The application premise under which operand evaluation is fully
/// determined: a symbol head that is no special form and resolves to a
/// closure, over a spine of self-evaluating, non-`Void` operands.
pub open spec fn app_simple_premise(v: Value, frames: Seq<Vec<(String, Value)>>) -> bool {
    v matches Value::Pair(h, ops) && *h matches Value::Symbol(s) && env_lookup(
        frames,
        s@,
    ) matches Some(pv) && pv matches Value::Procedure(p) && !is_special_name(s@) && simple_spine(
        *ops,
    )
}

/// The shape an application must have had for the evaluator's loop to
/// continue into a closure body: the head resolved to a closure and, over
/// self-evaluating operands, a proper list of matching length.
pub open spec fn app_ok(v: Value, frames: Seq<Vec<(String, Value)>>) -> bool {
    v matches Value::Pair(h, ops) ==> (*h matches Value::Symbol(s) ==> (!is_special_name(s@)
        ==> (env_lookup(frames, s@) matches Some(pv) && pv matches Value::Procedure(p) && (
    simple_spine(*ops) ==> (list_elements(*ops) matches Some(items) && items.len()
        == p.parameters@.len())))))
}

/// What applying a symbol-headed, non-special form settles before any
/// closure body runs: an unbound head, a head bound to `Void` or to a
/// non-procedure, an improper operand tail, and an operand count that
/// misses the closure's arity each give their exact error.
pub open spec fn application_spec(
    v: Value,
    frames: Seq<Vec<(String, Value)>>,
    r: Result<Value, Error>,
) -> bool {
    v matches Value::Pair(h, ops) ==> (*h matches Value::Symbol(s) ==> (!is_special_name(s@)
        ==> {
        &&& (env_lookup(frames, s@) is None ==> (r matches Err(e) && e
            matches Error::UndefinedVariable(s2) && s2@ == s@))
        &&& (env_lookup(frames, s@) matches Some(pv) ==> {
            &&& (pv == Value::Void ==> (r matches Err(e) && e matches Error::ExpectedValue(w) && w
                == *h))
            &&& (!(pv matches Value::Procedure(p0)) && !(pv matches Value::PrimitiveProcedure(pn))
                && pv != Value::Void ==> (r matches Err(e) && e matches Error::ExpectedProcedure(
                w2,
            ) && w2 == pv))
            &&& (pv matches Value::Procedure(p) ==> (simple_spine(*ops) ==> {
                &&& (list_elements(*ops) is None ==> (r matches Err(e) && e
                    matches Error::ExpectedList(t) && t == improper_tail(*ops)))
                &&& (list_elements(*ops) matches Some(items) ==> (items.len()
                    != p.parameters@.len() ==> r == Err::<Value, Error>(
                    Error::IncorrectArity(p.parameters@.len() as usize, items.len() as usize),
                )))
            }))
        })
    }))
}

/// A value that evaluates to itself: any atom that is neither a symbol
/// nor the empty list, and any procedure value.
pub open spec fn self_evaluating(v: Value) -> bool {
    &&& !(v matches Value::Pair(h, t))
    &&& !(v matches Value::Symbol(s))
    &&& v != Value::EmptyList
}

/// What evaluating a symbol returns: the innermost binding, or the
/// undefined-variable error naming it.
pub open spec fn symbol_result(
    frames: Seq<Vec<(String, Value)>>,
    name: Seq<char>,
    r: Result<Value, Error>,
) -> bool {
    match env_lookup(frames, name) {
        Some(v) => r == Ok::<Value, Error>(v),
        None => r matches Err(e) && e matches Error::UndefinedVariable(s) && s@ == name,
    }
}

/// Evaluate the right-hand side of a `define` form and bind it, per the
/// two surface forms; a successful `define` returns `Void`.
fn eval_define_fuel<R: Registry>(
    args: &Value,
    env: &mut Environment,
    registry: &mut R,
    fuel: u64,
) -> (r: Result<Value, Error>)
    requires
        old(env).frames@.len() > 0,
    ensures
        frames_preserved(old(env).frames@, final(env).frames@),
        r matches Ok(v) ==> v == Value::Void,
        r matches Ok(v) ==> (defined_name(*args) matches Some(nm)
            && final(env).frames@.len() > 0 && scope_lookup(
            final(env).frames@.last()@,
            nm,
        ) is Some),
        !(*args matches Value::Pair(h, t)) ==> (r matches Err(e) && e matches Error::ExpectedList(
            t2,
        ) && t2 == *args),
        *args matches Value::Pair(lhs, rest) ==> (*lhs matches Value::Symbol(n) ==> (*rest
            matches Value::Pair(rhs, tail) ==> (*tail == Value::EmptyList ==> {
            &&& (fuel >= 1 && self_evaluating(*rhs) && *rhs != Value::Void ==> (r == Ok::<
                Value,
                Error,
            >(Value::Void) && final(env).frames@.len() > 0 && scope_lookup(
                final(env).frames@.last()@,
                n@,
            ) == Some(*rhs)))
            &&& (fuel >= 1 && *rhs == Value::Void ==> (r matches Err(e) && e
                matches Error::ExpectedValue(w) && w == *rhs))
            &&& (fuel >= 1 ==> (*rhs matches Value::Symbol(rs) ==> match env_lookup(
                old(env).frames@,
                rs@,
            ) {
                Some(v) => if v == Value::Void {
                    r matches Err(e) && e matches Error::ExpectedValue(w) && w == *rhs
                } else {
                    r == Ok::<Value, Error>(Value::Void) && final(env).frames@.len() > 0
                        && scope_lookup(final(env).frames@.last()@, n@) == Some(v)
                },
                None => r matches Err(e) && e matches Error::UndefinedVariable(s2) && s2@ == rs@,
            }))
        }))),
        *args matches Value::Pair(h0, bodyv) ==> (*h0 matches Value::Pair(namev, paramsv) ==> {
            &&& (!(*namev matches Value::Symbol(n2)) ==> (r matches Err(e) && e
                matches Error::TypeMismatch(k, w) && k@ == "symbol"@ && w == *namev))
            &&& (*namev matches Value::Symbol(n) ==> (lambda_args_ok(*paramsv, *bodyv) ==> (r
                == Ok::<Value, Error>(Value::Void) && final(env).frames@.len() > 0 && (
            scope_lookup(final(env).frames@.last()@, n@) matches Some(pv) && lambda_ok_shape(
                *paramsv,
                *bodyv,
                old(env).frames@,
                pv,
            )))))
        }),
    decreases fuel, 3int,
{
    if let Value::Pair(h0, bodyv) = args {
        if let Value::Pair(namev, paramsv) = &**h0 {
            // procedure-definition sugar: (define (name params...) body...)
            let name = match &**namev {
                Value::Symbol(s) => s.clone(),
                _ => {
                    return Err(type_mismatch_symbol((**namev).clone()));
                },
            };
            let procv = match make_lambda(paramsv, bodyv, env) {
                Ok(v) => v,
                Err(e) => {
                    return Err(e);
                },
            };
            env.bind(name.as_str(), procv);
            return Ok(Value::Void);
        }
    }
    // plain form: (define name expr)
    match args {
        Value::Pair(lhs, rest) => match &**lhs {
            Value::Symbol(s) => match &**rest {
                Value::Pair(rhs, tail) => {
                    if matches!(&**tail, Value::EmptyList) {
                        let v = match eval_to_value_fuel(rhs, env, registry, fuel) {
                            Ok(v) => v,
                            Err(e) => {
                                return Err(e);
                            },
                        };
                        env.bind(s.as_str(), v);
                        Ok(Value::Void)
                    } else {
                        Err(Error::ExpectedList((**tail).clone()))
                    }
                },
                _ => {
                    let kind = String::from_str("pair");
                    proof {
                        reveal_strlit("pair");
                    }
                    Err(Error::TypeMismatch(kind, (**rest).clone()))
                },
            },
            _ => Err(type_mismatch_symbol((**lhs).clone())),
        },
        _ => Err(Error::ExpectedList(args.clone())),
    }
}

/// Evaluate operands left to right, demanding a value of each; `#f` at any
/// point short-circuits to `#f`, otherwise the result is `#t`.
fn eval_and_fuel<R: Registry>(
    args: &Value,
    env: &mut Environment,
    registry: &mut R,
    fuel: u64,
) -> (r: Result<Value, Error>)
    requires
        old(env).frames@.len() > 0,
    ensures
        frames_preserved(old(env).frames@, final(env).frames@),
        r matches Ok(v) ==> (v == Value::Boolean(true) || v == Value::Boolean(false)),
        fuel >= 1 && simple_spine(*args) ==> and_result_spec(*args, r),
    decreases fuel, 3int,
{
    let mut cur: Value = args.clone();
    loop
        invariant
            old(env).frames@.len() > 0,
            frames_preserved(old(env).frames@, env.frames@),
            fuel >= 1 && simple_spine(*args) ==> {
                &&& simple_spine(cur)
                &&& improper_tail(cur) == improper_tail(*args)
                &&& spine_all_truthy(cur) == spine_all_truthy(*args)
                &&& (list_elements(cur) is Some <==> list_elements(*args) is Some)
            },
        decreases size(cur),
    {
        let (a, rest) = match &cur {
            Value::Pair(a, rest) => ((**a).clone(), (**rest).clone()),
            Value::EmptyList => {
                return Ok(Value::Boolean(true));
            },
            _ => {
                return Err(Error::ExpectedList(cur.clone()));
            },
        };
        let v = match eval_to_value_fuel(&a, env, registry, fuel) {
            Ok(v) => v,
            Err(e) => {
                return Err(e);
            },
        };
        if !v.to_bool() {
            return Ok(Value::Boolean(false));
        }
        proof {
            assert(size(rest) < size(cur));
        }
        cur = rest;
    }
}

/// Evaluate operands left to right, demanding a value of each; a truthy
/// value at any point short-circuits to `#t`, otherwise the result is `#f`.
fn eval_or_fuel<R: Registry>(
    args: &Value,
    env: &mut Environment,
    registry: &mut R,
    fuel: u64,
) -> (r: Result<Value, Error>)
    requires
        old(env).frames@.len() > 0,
    ensures
        frames_preserved(old(env).frames@, final(env).frames@),
        r matches Ok(v) ==> (v == Value::Boolean(true) || v == Value::Boolean(false)),
        fuel >= 1 && simple_spine(*args) ==> or_result_spec(*args, r),
    decreases fuel, 3int,
{
    let mut cur: Value = args.clone();
    loop
        invariant
            old(env).frames@.len() > 0,
            frames_preserved(old(env).frames@, env.frames@),
            fuel >= 1 && simple_spine(*args) ==> {
                &&& simple_spine(cur)
                &&& improper_tail(cur) == improper_tail(*args)
                &&& spine_any_truthy(cur) == spine_any_truthy(*args)
                &&& (list_elements(cur) is Some <==> list_elements(*args) is Some)
            },
        decreases size(cur),
    {
        let (a, rest) = match &cur {
            Value::Pair(a, rest) => ((**a).clone(), (**rest).clone()),
            Value::EmptyList => {
                return Ok(Value::Boolean(false));
            },
            _ => {
                return Err(Error::ExpectedList(cur.clone()));
            },
        };
        let v = match eval_to_value_fuel(&a, env, registry, fuel) {
            Ok(v) => v,
            Err(e) => {
                return Err(e);
            },
        };
        if v.to_bool() {
            return Ok(Value::Boolean(true));
        }
        proof {
            assert(size(rest) < size(cur));
        }
        cur = rest;
    }
}

/// Build a closure from `(lambda (params...) body...)` operands.
fn eval_lambda(args: &Value, env: &Environment) -> (r: Result<Value, Error>)
    ensures
        lambda_result_spec(*args, env.frames@, r),
{
    match args {
        Value::Pair(p, b) => make_lambda(p, b, env),
        _ => {
            let kind = String::from_str("pair");
            proof {
                reveal_strlit("pair");
            }
            Err(Error::TypeMismatch(kind, args.clone()))
        },
    }
}

/// What demanding a value of a symbol returns: the innermost binding
/// unless it is `Void`, in which case the expected-value error carries the
/// unevaluated expression `orig`.
pub open spec fn symbol_demand_result(
    frames: Seq<Vec<(String, Value)>>,
    name: Seq<char>,
    orig: Value,
    r: Result<Value, Error>,
) -> bool {
    match env_lookup(frames, name) {
        Some(v) => if v == Value::Void {
            r matches Err(e) && e matches Error::ExpectedValue(w) && w == orig
        } else {
            r == Ok::<Value, Error>(v)
        },
        None => r matches Err(e) && e matches Error::UndefinedVariable(s2) && s2@ == name,
    }
}

/// What demanding a value of a quotation returns: the operand unless it is
/// `Void`, in which case the expected-value error carries the whole quote
/// expression `orig`; the operand-shape errors are those of [`quote_spec`].
pub open spec fn quote_demand_result(orig: Value, args: Value, r: Result<Value, Error>) -> bool {
    match args {
        Value::Pair(x, e) => {
            if *e == Value::EmptyList {
                if *x == Value::Void {
                    r matches Err(err) && err matches Error::ExpectedValue(w) && w == orig
                } else {
                    r == Ok::<Value, Error>(*x)
                }
            } else {
                r matches Err(err) && err matches Error::ExpectedList(t) && t == *e
            }
        },
        _ => r == Err::<Value, Error>(Error::IncorrectArity(1, 0)),
    }
}

/// Evaluate, then demand a value: a `Void` result becomes the
/// expected-value error carrying the unevaluated expression.
fn eval_to_value_fuel<R: Registry>(
    value: &Value,
    env: &mut Environment,
    registry: &mut R,
    fuel: u64,
) -> (r: Result<Value, Error>)
    requires
        old(env).frames@.len() > 0,
    ensures
        frames_preserved(old(env).frames@, final(env).frames@),
        r matches Ok(v) ==> !(v matches Value::Void),
        fuel >= 1 ==> {
            &&& (self_evaluating(*value) && *value != Value::Void ==> (r == Ok::<Value, Error>(
                *value,
            ) && final(env).frames@ == old(env).frames@))
            &&& (*value == Value::Void ==> ((r matches Err(e) && e matches Error::ExpectedValue(w)
                && w == *value) && final(env).frames@ == old(env).frames@))
            &&& (*value matches Value::Symbol(s) ==> (symbol_demand_result(
                old(env).frames@,
                s@,
                *value,
                r,
            ) && final(env).frames@ == old(env).frames@))
        },
    decreases fuel, 2int,
{
    let res = eval_fuel(value, env, registry, fuel);
    match res {
        Ok(v) => {
            if matches!(v, Value::Void) {
                Err(Error::ExpectedValue(value.clone()))
            } else {
                Ok(v)
            }
        },
        Err(e) => Err(e),
    }
}

/// The evaluator's central loop.  Dispatches on the shape of the current
/// expression: special forms by name, then application; tail positions
/// (the chosen branch of `if`, the last body expression of a called
/// closure) re-enter the loop instead of recursing.  A frame is pushed
/// only when a call enters at the loop's starting depth; the stack is
/// restored to that depth on every exit.
fn eval_fuel<R: Registry>(value: &Value, env: &mut Environment, registry: &mut R, fuel: u64) -> (r:
    Result<Value, Error>)
    requires
        old(env).frames@.len() > 0,
    ensures
        frames_preserved(old(env).frames@, final(env).frames@),
        fuel >= 1 ==> {
            &&& self_evaluating(*value) ==> (r == Ok::<Value, Error>(*value) && final(env).frames@
                == old(env).frames@)
            &&& (*value matches Value::Symbol(s) ==> (symbol_result(old(env).frames@, s@, r)
                && final(env).frames@ == old(env).frames@))
            &&& (*value == Value::EmptyList ==> (r == Err::<Value, Error>(Error::EmptyApplication)
                && final(env).frames@ == old(env).frames@))
            &&& (headed_by(*value, quote_name()) ==> (quote_spec(pair_tail(*value), r)
                && final(env).frames@ == old(env).frames@))
            &&& (headed_by(*value, lambda_name()) ==> (lambda_result_spec(
                pair_tail(*value),
                old(env).frames@,
                r,
            ) && final(env).frames@ == old(env).frames@))
            &&& (headed_by(*value, define_name()) ==> (r matches Ok(v) ==> (defined_name(
                pair_tail(*value),
            ) matches Some(nm) && v == Value::Void && env_lookup(
                final(env).frames@,
                nm,
            ) is Some)))
        },
        fuel >= 2 ==> {
            &&& (headed_by(*value, define_name()) ==> define_result_spec(
                pair_tail(*value),
                old(env).frames@,
                final(env).frames@,
                r,
            ))
            &&& (headed_by(*value, and_name()) ==> (simple_spine(pair_tail(*value))
                ==> and_result_spec(pair_tail(*value), r)))
            &&& (headed_by(*value, or_name()) ==> (simple_spine(pair_tail(*value))
                ==> or_result_spec(pair_tail(*value), r)))
            &&& application_spec(*value, old(env).frames@, r)
            &&& (headed_by(*value, if_name()) ==> if_shape_error_spec(pair_tail(*value), r))
            &&& (app_constant_premise(*value, old(env).frames@) ==> r == Ok::<Value, Error>(
                app_constant_body(*value, old(env).frames@),
            ))
            &&& (app_param_premise(*value, old(env).frames@) ==> r == Ok::<Value, Error>(
                app_param_result(*value, old(env).frames@),
            ))
        },
        fuel >= 3 ==> (headed_by(*value, if_name()) ==> (if_simple_premise(pair_tail(*value))
            ==> shallow_result(if_chosen(pair_tail(*value)), old(env).frames@, r))),
    decreases fuel, 1int,
{
    let initial_depth = env.depth();
    let mut current: Value = value.clone();
    let mut remaining: u64 = fuel;
    let ghost mut first: bool = true;
    let ghost mut pending: Option<Value> = None;
    let ghost mut ret_expect: Option<Value> = None;
    let ghost mut sym_expect: Option<Value> = None;
    loop
        invariant
            old(env).frames@.len() > 0,
            initial_depth == old(env).frames@.len(),
            env.frames@.len() >= initial_depth,
            forall|i: int|
                0 <= i < initial_depth - 1 ==> env.frames@[i] == old(env).frames@[i],
            remaining <= fuel,
            first ==> current == *value && env.frames@ == old(env).frames@ && remaining == fuel,
            !first ==> ((*value matches Value::Pair(h, t)) && !headed_by(*value, quote_name())
                && !headed_by(*value, lambda_name()) && !headed_by(*value, define_name())
                && !headed_by(*value, and_name()) && !headed_by(*value, or_name())),
            !first && fuel >= 2 ==> app_ok(*value, old(env).frames@),
            !first ==> (headed_by(*value, if_name()) ==> if_three_shape(pair_tail(*value))),
            pending matches Some(b) ==> (current == b && env.frames@ == old(env).frames@
                && remaining >= 1 && !first),
            fuel >= 3 && !first ==> (headed_by(*value, if_name()) ==> (if_simple_premise(
                pair_tail(*value),
            ) ==> (shallow_shape(if_chosen(pair_tail(*value))) ==> pending == Some(
                if_chosen(pair_tail(*value)),
            )))),
            ret_expect matches Some(b) ==> (current == b && self_evaluating(b) && remaining >= 1
                && !first),
            fuel >= 2 && !first ==> (app_constant_premise(*value, old(env).frames@) ==> ret_expect
                == Some(app_constant_body(*value, old(env).frames@))),
            sym_expect matches Some(res) ==> (!first && remaining >= 1 && (current
                matches Value::Symbol(cs) && env_lookup(env.frames@, cs@) == Some(res))),
            fuel >= 2 && !first ==> (app_param_premise(*value, old(env).frames@) ==> sym_expect
                == Some(app_param_result(*value, old(env).frames@))),
        decreases remaining,
    {
        proof {
            reveal_strlit("define");
            reveal_strlit("and");
            reveal_strlit("or");
            reveal_strlit("lambda");
            reveal_strlit("quote");
            reveal_strlit("if");
            assert("quote"@ =~= quote_name());
            assert("lambda"@ =~= lambda_name());
            assert("define"@ =~= define_name());
            assert("and"@ =~= and_name());
            assert("or"@ =~= or_name());
            assert("if"@ =~= if_name());
        }
        if remaining == 0 {
            env.restore(initial_depth);
            proof {
                lemma_restored(old(env).frames@, env.frames@);
            }
            return Err(Error::StepLimitReached);
        }
        remaining = remaining - 1;
        let (head_v, args_v) = match &current {
            Value::Symbol(name) => {
                let res = env.get(name.as_str());
                env.restore(initial_depth);
                proof {
                    lemma_restored(old(env).frames@, env.frames@);
                    if first {
                        assert(env.frames@ =~= old(env).frames@);
                    }
                }
                return res;
            },
            Value::EmptyList => {
                env.restore(initial_depth);
                proof {
                    lemma_restored(old(env).frames@, env.frames@);
                    if first {
                        assert(env.frames@ =~= old(env).frames@);
                    }
                }
                return Err(Error::EmptyApplication);
            },
            Value::Pair(h, t) => ((**h).clone(), (**t).clone()),
            _ => {
                let res = current.clone();
                env.restore(initial_depth);
                proof {
                    lemma_restored(old(env).frames@, env.frames@);
                    if first {
                        assert(env.frames@ =~= old(env).frames@);
                    }
                }
                return Ok(res);
            },
        };
        let ghost cv = current;
        let mut handled_special = false;
        if let Value::Symbol(sym) = &head_v {
            if str_eq(sym.as_str(), "define") {
                let res = eval_define_fuel(&args_v, env, registry, remaining);
                let ghost pre = env.frames@;
                proof {
                    if first {
                        assert(args_v == pair_tail(*value));
                        assert(pre.len() == initial_depth);
                    }
                }
                env.restore(initial_depth);
                proof {
                    lemma_restored(old(env).frames@, env.frames@);
                    if first {
                        assert(env.frames@ =~= pre);
                    }
                }
                return res;
            }
            if str_eq(sym.as_str(), "and") {
                let res = eval_and_fuel(&args_v, env, registry, remaining);
                env.restore(initial_depth);
                proof {
                    lemma_restored(old(env).frames@, env.frames@);
                    if first {
                        assert(args_v == pair_tail(*value));
                    }
                }
                return res;
            }
            if str_eq(sym.as_str(), "or") {
                let res = eval_or_fuel(&args_v, env, registry, remaining);
                env.restore(initial_depth);
                proof {
                    lemma_restored(old(env).frames@, env.frames@);
                    if first {
                        assert(args_v == pair_tail(*value));
                    }
                }
                return res;
            }
            if str_eq(sym.as_str(), "lambda") {
                let res = eval_lambda(&args_v, env);
                env.restore(initial_depth);
                proof {
                    lemma_restored(old(env).frames@, env.frames@);
                    if first {
                        assert(env.frames@ =~= old(env).frames@);
                        assert(args_v == pair_tail(*value));
                    }
                }
                return res;
            }
            if str_eq(sym.as_str(), "quote") {
                let res = eval_quote(&args_v);
                env.restore(initial_depth);
                proof {
                    lemma_restored(old(env).frames@, env.frames@);
                    if first {
                        assert(env.frames@ =~= old(env).frames@);
                        assert(args_v == pair_tail(*value));
                    }
                }
                return res;
            }
            if str_eq(sym.as_str(), "if") {
                let (p, c, a) = match if_operands(&args_v) {
                    Ok(t) => t,
                    Err(e) => {
                        env.restore(initial_depth);
                        proof {
                            lemma_restored(old(env).frames@, env.frames@);
                        }
                        return Err(e);
                    },
                };
                let pv = match eval_to_value_fuel(&p, env, registry, remaining) {
                    Ok(v) => v,
                    Err(e) => {
                        env.restore(initial_depth);
                        proof {
                            lemma_restored(old(env).frames@, env.frames@);
                        }
                        return Err(e);
                    },
                };
                current = if pv.to_bool() {
                    c
                } else {
                    a
                };
                proof {
                    if first && fuel >= 3 && if_simple_premise(args_v) {
                        assert(args_v == pair_tail(*value));
                        assert(current == if_chosen(pair_tail(*value)));
                        pending = Some(current);
                    } else {
                        pending = None;
                    }
                    ret_expect = None;
                    sym_expect = None;
                    first = false;
                }
                handled_special = true;
            }
        }
        if handled_special {
            continue ;
        }
        // application: evaluate the head, demanding a procedure
        let procedure = match eval_to_value_fuel(&head_v, env, registry, remaining) {
            Ok(v) => v,
            Err(e) => {
                env.restore(initial_depth);
                proof {
                    lemma_restored(old(env).frames@, env.frames@);
                }
                return Err(e);
            },
        };
        let ghost procg = procedure;
        match procedure {
            Value::PrimitiveProcedure(pname) => {
                let res = registry.call_primitive(pname.as_str(), &args_v, env);
                env.restore(initial_depth);
                proof {
                    lemma_restored(old(env).frames@, env.frames@);
                }
                return res;
            },
            Value::Procedure(p) => {
                // evaluate the operands left to right, demanding values
                let mut argvals: Vec<Value> = Vec::new();
                let mut opcur: Value = args_v;
                proof {
                    if fuel >= 2 && first && app_simple_premise(*value, old(env).frames@) {
                        if list_elements(pair_tail(*value)) is Some {
                            let items = list_elements(pair_tail(*value))->Some_0;
                            assert(Seq::<Value>::empty() + items =~= items);
                        }
                    }
                }
                loop
                    invariant
                        old(env).frames@.len() > 0,
                        initial_depth == old(env).frames@.len(),
                        env.frames@.len() >= initial_depth,
                        forall|i: int|
                            0 <= i < initial_depth - 1 ==> env.frames@[i] == old(env).frames@[i],
                        remaining < fuel,
                        *value matches Value::Pair(vh, vt),
                        !headed_by(*value, quote_name()),
                        !headed_by(*value, lambda_name()),
                        !headed_by(*value, define_name()),
                        !headed_by(*value, and_name()),
                        !headed_by(*value, or_name()),
                        !first && fuel >= 2 ==> app_ok(*value, old(env).frames@),
                        fuel >= 2 && !first ==> !app_constant_premise(*value, old(env).frames@),
                        fuel >= 2 && !first ==> !app_param_premise(*value, old(env).frames@),
                        first ==> !headed_by(*value, if_name()),
                        !first ==> (headed_by(*value, if_name()) ==> if_three_shape(
                            pair_tail(*value),
                        )),
                        fuel >= 3 && !first ==> (headed_by(*value, if_name()) ==> (
                        if_simple_premise(pair_tail(*value)) ==> !shallow_shape(
                            if_chosen(pair_tail(*value)),
                        ))),
                        first ==> remaining + 1 == fuel,
                        procg matches Value::Procedure(pp) && pp == p,
                        fuel >= 2 && first ==> (*value matches Value::Pair(vh2, vops) ==> (
                        pair_head(*value) matches Value::Symbol(sname) ==> env_lookup(
                            old(env).frames@,
                            sname@,
                        ) == Some(procg))),
                        fuel >= 2 && first && app_simple_premise(*value, old(env).frames@) ==> {
                            &&& simple_spine(opcur)
                            &&& improper_tail(opcur) == improper_tail(pair_tail(*value))
                            &&& (list_elements(opcur) is Some <==> list_elements(
                                pair_tail(*value),
                            ) is Some)
                            &&& (list_elements(pair_tail(*value)) matches Some(items) ==> (
                            list_elements(opcur) matches Some(rest2) && items == argvals@ + rest2))
                        },
                    ensures
                        fuel >= 2 && first && app_simple_premise(*value, old(env).frames@) ==> (
                        list_elements(pair_tail(*value)) matches Some(items) && items
                            == argvals@),
                    decreases size(opcur),
                {
                    let ghost oc = opcur;
                    let (a, rest) = match &opcur {
                        Value::Pair(a, rest) => ((**a).clone(), (**rest).clone()),
                        Value::EmptyList => {
                            proof {
                                if fuel >= 2 && first && app_simple_premise(
                                    *value,
                                    old(env).frames@,
                                ) {
                                    if list_elements(pair_tail(*value)) is Some {
                                        let items = list_elements(pair_tail(*value))->Some_0;
                                        assert(argvals@ + Seq::<Value>::empty() =~= argvals@);
                                    }
                                }
                            }
                            break ;
                        },
                        _ => {
                            let res = Err(Error::ExpectedList(opcur.clone()));
                            env.restore(initial_depth);
                            proof {
                                lemma_restored(old(env).frames@, env.frames@);
                            }
                            return res;
                        },
                    };
                    let v = match eval_to_value_fuel(&a, env, registry, remaining) {
                        Ok(v) => v,
                        Err(e) => {
                            env.restore(initial_depth);
                            proof {
                                lemma_restored(old(env).frames@, env.frames@);
                            }
                            return Err(e);
                        },
                    };
                    let ghost prevargs = argvals@;
                    argvals.push(v);
                    proof {
                        assert(size(rest) < size(opcur));
                        if fuel >= 2 && first && app_simple_premise(*value, old(env).frames@) {
                            if list_elements(pair_tail(*value)) is Some {
                                let rt = list_elements(pair_tail(oc))->Some_0;
                                assert(list_elements(oc)->Some_0 == seq![pair_head(oc)] + rt);
                                assert(v == pair_head(oc));
                                assert(prevargs + (seq![pair_head(oc)] + rt) =~= argvals@ + rt);
                            }
                        }
                    }
                    opcur = rest;
                }
                // exact arity
                if argvals.len() != p.parameters.len() {
                    let res = Err(Error::IncorrectArity(p.parameters.len(), argvals.len()));
                    env.restore(initial_depth);
                    proof {
                        lemma_restored(old(env).frames@, env.frames@);
                    }
                    return res;
                }
                proof {
                    if fuel >= 2 {
                        assert(app_ok(*value, old(env).frames@));
                    }
                }
                // a frame is pushed only when entering a new call at the
                // loop's starting depth; tail calls reuse the frame
                if env.depth() == initial_depth {
                    env.new_scope();
                }
                let ghost frame0 = env.frames@.last()@;
                // parameters first, then captures; capture analysis never
                // records a parameter's name, so parameters shadow captures
                let pn = p.parameters.len();
                let mut pi: usize = 0;
                while pi < pn
                    invariant
                        pi <= pn,
                        pn == p.parameters@.len(),
                        pn == argvals@.len(),
                        old(env).frames@.len() > 0,
                        initial_depth == old(env).frames@.len(),
                        env.frames@.len() > initial_depth,
                        forall|i: int|
                            0 <= i < initial_depth - 1 ==> env.frames@[i] == old(env).frames@[i],
                        fuel >= 2 ==> app_ok(*value, old(env).frames@),
                        first ==> !headed_by(*value, if_name()),
                        !first ==> (headed_by(*value, if_name()) ==> if_three_shape(
                            pair_tail(*value),
                        )),
                        fuel >= 3 && !first ==> (headed_by(*value, if_name()) ==> (
                        if_simple_premise(pair_tail(*value)) ==> !shallow_shape(
                            if_chosen(pair_tail(*value)),
                        ))),
                        procg matches Value::Procedure(pp2) && pp2 == p,
                        fuel >= 2 && first ==> (*value matches Value::Pair(vh2, vops) ==> (
                        pair_head(*value) matches Value::Symbol(sname) ==> env_lookup(
                            old(env).frames@,
                            sname@,
                        ) == Some(procg))),
                        first ==> remaining + 1 == fuel,
                        fuel >= 2 && !first ==> !app_constant_premise(*value, old(env).frames@),
                        fuel >= 2 && !first ==> !app_param_premise(*value, old(env).frames@),
                        fuel >= 2 && first && app_simple_premise(*value, old(env).frames@) ==> (
                        list_elements(pair_tail(*value)) matches Some(items2) && items2
                            == argvals@),
                        first ==> forall|nm: Seq<char>|
                            #![trigger scope_lookup(env.frames@.last()@, nm)]
                            match param_lookup(
                                p.parameters@.subrange(0, pi as int),
                                argvals@.subrange(0, pi as int),
                                nm,
                            ) {
                                Some(vv) => scope_lookup(env.frames@.last()@, nm) == Some(vv),
                                None => scope_lookup(env.frames@.last()@, nm) == scope_lookup(
                                    frame0,
                                    nm,
                                ),
                            },
                    decreases pn - pi,
                {
                    env.bind(p.parameters[pi].as_str(), argvals[pi].clone());
                    pi = pi + 1;
                    proof {
                        if first {
                            let ps = p.parameters@.subrange(0, pi as int);
                            let ags = argvals@.subrange(0, pi as int);
                            assert(ps.drop_last() =~= p.parameters@.subrange(0, pi as int - 1));
                            assert(ags.drop_last() =~= argvals@.subrange(0, pi as int - 1));
                            assert(ps.last() == p.parameters@[pi as int - 1]);
                        }
                    }
                }
                let ghost frame1 = env.frames@.last()@;
                proof {
                    if fuel >= 2 && first && app_param_premise(*value, old(env).frames@) {
                        assert(app_simple_premise(*value, old(env).frames@));
                        assert(p.parameters@.subrange(0, pn as int) =~= p.parameters@);
                        assert(argvals@.subrange(0, pn as int) =~= argvals@);
                        assert(scope_lookup(frame1, app_param_symbol(*value, old(env).frames@))
                            == Some(app_param_result(*value, old(env).frames@)));
                    }
                }
                let cn = p.captures.len();
                let mut ci: usize = 0;
                while ci < cn
                    invariant
                        ci <= cn,
                        cn == p.captures@.len(),
                        old(env).frames@.len() > 0,
                        initial_depth == old(env).frames@.len(),
                        env.frames@.len() > initial_depth,
                        forall|i: int|
                            0 <= i < initial_depth - 1 ==> env.frames@[i] == old(env).frames@[i],
                        fuel >= 2 ==> app_ok(*value, old(env).frames@),
                        first ==> !headed_by(*value, if_name()),
                        !first ==> (headed_by(*value, if_name()) ==> if_three_shape(
                            pair_tail(*value),
                        )),
                        fuel >= 3 && !first ==> (headed_by(*value, if_name()) ==> (
                        if_simple_premise(pair_tail(*value)) ==> !shallow_shape(
                            if_chosen(pair_tail(*value)),
                        ))),
                        procg matches Value::Procedure(pp2) && pp2 == p,
                        fuel >= 2 && first ==> (*value matches Value::Pair(vh2, vops) ==> (
                        pair_head(*value) matches Value::Symbol(sname) ==> env_lookup(
                            old(env).frames@,
                            sname@,
                        ) == Some(procg))),
                        first ==> remaining + 1 == fuel,
                        fuel >= 2 && !first ==> !app_constant_premise(*value, old(env).frames@),
                        fuel >= 2 && !first ==> !app_param_premise(*value, old(env).frames@),
                        fuel >= 2 && first && app_simple_premise(*value, old(env).frames@) ==> (
                        list_elements(pair_tail(*value)) matches Some(items2) && items2
                            == argvals@),
                        first ==> forall|nm: Seq<char>|
                            #![trigger scope_lookup(env.frames@.last()@, nm)]
                            !capture_named(p.captures@, nm) ==> scope_lookup(
                                env.frames@.last()@,
                                nm,
                            ) == scope_lookup(frame1, nm),
                        fuel >= 2 && first && app_param_premise(*value, old(env).frames@)
                            ==> scope_lookup(frame1, app_param_symbol(*value, old(env).frames@))
                            == Some(app_param_result(*value, old(env).frames@)),
                    decreases cn - ci,
                {
                    env.bind(p.captures[ci].0.as_str(), p.captures[ci].1.clone());
                    ci = ci + 1;
                    proof {
                        if first {
                            assert(p.captures@[ci as int - 1].0@ == p.captures@[ci as int
                                - 1].0@);
                        }
                    }
                }
                proof {
                    if fuel >= 2 && first && app_param_premise(*value, old(env).frames@) {
                        assert(scope_lookup(
                            env.frames@.last()@,
                            app_param_symbol(*value, old(env).frames@),
                        ) == Some(app_param_result(*value, old(env).frames@)));
                    }
                }
                // body: all but the last for effect, the last in tail position
                let blen = p.body.len();
                if blen == 0 {
                    env.restore(initial_depth);
                    proof {
                        lemma_restored(old(env).frames@, env.frames@);
                    }
                    return Err(Error::EmptyProcedure);
                }
                let mut bi: usize = 0;
                while bi + 1 < blen
                    invariant
                        bi < blen,
                        blen == p.body@.len(),
                        old(env).frames@.len() > 0,
                        initial_depth == old(env).frames@.len(),
                        env.frames@.len() >= initial_depth,
                        forall|i: int|
                            0 <= i < initial_depth - 1 ==> env.frames@[i] == old(env).frames@[i],
                        remaining < fuel,
                        *value matches Value::Pair(vh, vt),
                        !headed_by(*value, quote_name()),
                        !headed_by(*value, lambda_name()),
                        !headed_by(*value, define_name()),
                        !headed_by(*value, and_name()),
                        !headed_by(*value, or_name()),
                        fuel >= 2 ==> app_ok(*value, old(env).frames@),
                        first ==> !headed_by(*value, if_name()),
                        !first ==> (headed_by(*value, if_name()) ==> if_three_shape(
                            pair_tail(*value),
                        )),
                        fuel >= 3 && !first ==> (headed_by(*value, if_name()) ==> (
                        if_simple_premise(pair_tail(*value)) ==> !shallow_shape(
                            if_chosen(pair_tail(*value)),
                        ))),
                        procg matches Value::Procedure(pp2) && pp2 == p,
                        fuel >= 2 && first ==> (*value matches Value::Pair(vh2, vops) ==> (
                        pair_head(*value) matches Value::Symbol(sname) ==> env_lookup(
                            old(env).frames@,
                            sname@,
                        ) == Some(procg))),
                        first ==> remaining + 1 == fuel,
                        fuel >= 2 && !first ==> !app_constant_premise(*value, old(env).frames@),
                        fuel >= 2 && !first ==> !app_param_premise(*value, old(env).frames@),
                        fuel >= 2 && first && app_param_premise(*value, old(env).frames@)
                            ==> scope_lookup(
                            env.frames@.last()@,
                            app_param_symbol(*value, old(env).frames@),
                        ) == Some(app_param_result(*value, old(env).frames@)),
                    decreases blen - bi,
                {
                    match eval_fuel(&p.body[bi], env, registry, remaining) {
                        Ok(_) => {},
                        Err(e) => {
                            env.restore(initial_depth);
                            proof {
                                lemma_restored(old(env).frames@, env.frames@);
                            }
                            return Err(e);
                        },
                    }
                    bi = bi + 1;
                }
                current = p.body[blen - 1].clone();
                proof {
                    pending = None;
                    if first && fuel >= 2 && app_constant_premise(*value, old(env).frames@) {
                        assert(current == app_constant_body(*value, old(env).frames@));
                        ret_expect = Some(current);
                    } else {
                        ret_expect = None;
                    }
                    if first && fuel >= 2 && app_param_premise(*value, old(env).frames@) {
                        let w = app_param_result(*value, old(env).frames@);
                        assert(scope_lookup(
                            env.frames@.last()@,
                            app_param_symbol(*value, old(env).frames@),
                        ) == Some(w));
                        assert(env_lookup(env.frames@, app_param_symbol(*value, old(env).frames@))
                            == Some(w));
                        sym_expect = Some(w);
                    } else {
                        sym_expect = None;
                    }
                    first = false;
                }
            },
            other => {
                let res = Err(Error::ExpectedProcedure(other));
                env.restore(initial_depth);
                proof {
                    lemma_restored(old(env).frames@, env.frames@);
                }
                return res;
            },
        }
    }
}

/// After truncating back to the entry depth, the scope stack is preserved
/// in the sense of [`frames_preserved`].
proof fn lemma_restored(before: Seq<Vec<(String, Value)>>, after: Seq<Vec<(String, Value)>>)
    requires
        after.len() == before.len(),
        forall|i: int| 0 <= i < before.len() - 1 ==> after[i] == before[i],
    ensures
        frames_preserved(before, after),
{
}

/// Evaluate an expression against an environment: the central contract of
/// the interpreter.  Atoms other than symbols evaluate to themselves;
/// symbols resolve through the environment; the empty list cannot be
/// applied; quotation returns its operand untouched.  Whatever happens,
/// the scope stack comes back at the depth it had on entry with every
/// outer scope untouched — tail calls do not grow it, and no scope leaks
/// across calls.
pub fn eval<R: Registry>(value: &Value, env: &mut Environment, registry: &mut R) -> (r: Result<
    Value,
    Error,
>)
    requires
        old(env).frames@.len() > 0,
    ensures
        frames_preserved(old(env).frames@, final(env).frames@),
        self_evaluating(*value) ==> (r == Ok::<Value, Error>(*value)
            && final(env).frames@ == old(env).frames@),
        *value matches Value::Symbol(s) ==> (symbol_result(old(env).frames@, s@, r)
            && final(env).frames@ == old(env).frames@),
        *value == Value::EmptyList ==> (r == Err::<Value, Error>(Error::EmptyApplication)
            && final(env).frames@ == old(env).frames@),
        headed_by(*value, quote_name()) ==> (quote_spec(pair_tail(*value), r)
            && final(env).frames@ == old(env).frames@),
        headed_by(*value, lambda_name()) ==> (lambda_result_spec(
            pair_tail(*value),
            old(env).frames@,
            r,
        ) && final(env).frames@ == old(env).frames@),
        headed_by(*value, define_name()) ==> (r matches Ok(v) ==> (defined_name(
            pair_tail(*value),
        ) matches Some(nm) && v == Value::Void && env_lookup(
            final(env).frames@,
            nm,
        ) is Some)),
        headed_by(*value, define_name()) ==> define_result_spec(
            pair_tail(*value),
            old(env).frames@,
            final(env).frames@,
            r,
        ),
        headed_by(*value, and_name()) ==> (simple_spine(pair_tail(*value)) ==> and_result_spec(
            pair_tail(*value),
            r,
        )),
        headed_by(*value, or_name()) ==> (simple_spine(pair_tail(*value)) ==> or_result_spec(
            pair_tail(*value),
            r,
        )),
        application_spec(*value, old(env).frames@, r),
        headed_by(*value, if_name()) ==> if_shape_error_spec(pair_tail(*value), r),
        headed_by(*value, if_name()) ==> (if_simple_premise(pair_tail(*value)) ==> shallow_result(
            if_chosen(pair_tail(*value)),
            old(env).frames@,
            r,
        )),
        app_constant_premise(*value, old(env).frames@) ==> r == Ok::<Value, Error>(
            app_constant_body(*value, old(env).frames@),
        ),
        app_param_premise(*value, old(env).frames@) ==> r == Ok::<Value, Error>(
            app_param_result(*value, old(env).frames@),
        ),
{
    eval_fuel(value, env, registry, u64::MAX)
}

/// Evaluate and demand a value: exactly [`eval`], except that a `Void`
/// result becomes the expected-value error carrying the unevaluated
/// expression.  Registries use this to evaluate their operands.
pub fn eval_to_value<R: Registry>(value: &Value, env: &mut Environment, registry: &mut R) -> (r:
    Result<Value, Error>)
    requires
        old(env).frames@.len() > 0,
    ensures
        frames_preserved(old(env).frames@, final(env).frames@),
        r matches Ok(v) ==> !(v matches Value::Void),
        self_evaluating(*value) && *value != Value::Void ==> (r == Ok::<Value, Error>(*value)
            && final(env).frames@ == old(env).frames@),
        *value == Value::Void ==> ((r matches Err(e) && e matches Error::ExpectedValue(w) && w
            == *value) && final(env).frames@ == old(env).frames@),
        *value matches Value::Symbol(s) ==> (symbol_demand_result(old(env).frames@, s@, *value, r)
            && final(env).frames@ == old(env).frames@),
        *value == Value::EmptyList ==> (r == Err::<Value, Error>(Error::EmptyApplication)
            && final(env).frames@ == old(env).frames@),
        headed_by(*value, quote_name()) ==> (quote_demand_result(*value, pair_tail(*value), r)
            && final(env).frames@ == old(env).frames@),
        headed_by(*value, lambda_name()) ==> (lambda_result_spec(
            pair_tail(*value),
            old(env).frames@,
            r,
        ) && final(env).frames@ == old(env).frames@),
{
    let res = eval(value, env, registry);
    match res {
        Ok(v) => {
            if matches!(v, Value::Void) {
                Err(Error::ExpectedValue(value.clone()))
            } else {
                Ok(v)
            }
        },
        Err(e) => Err(e),
    }
}

/// A type-mismatch error asking for a symbol.
fn type_mismatch_symbol(v: Value) -> (r: Error)
    ensures
        r matches Error::TypeMismatch(k, w) && k@ == "symbol"@ && w == v,
{
    let kind = String::from_str("symbol");
    Error::TypeMismatch(kind, v)
}

} // verus!
