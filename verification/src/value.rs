//! The value model: the tagged union every datum of the language lives in,
//! together with structural equality, truthiness, list construction and
//! iteration, and the external (printed) form.
//!
//! Values are immutable and structurally shared: the fields of a pair are
//! reference-counted handles, so taking the tail of a list hands out a view
//! into the original spine without copying.  The grammar and the evaluator
//! never build cyclic structures, so reference counting reclaims everything.

use vstd::prelude::*;

verus! {

use std::rc::Rc;
use crate::number::{Number, num_eq, render_number};
use vstd::string::StrSliceExecFns;
use vstd::string::StringExecFns;
use crate::error::Error;

/// A datum of the language: an atom, a pair, or a procedure.
#[derive(Debug, PartialEq)]
pub enum Value {
    /// The result of side-effecting forms; never a first-class argument.
    Void,
    /// An identifier.
    Symbol(String),
    /// The sole numeric type.
    Number(Rc<Number>),
    /// A string literal.
    Str(String),
    /// A character literal.
    Character(char),
    /// A boolean literal.
    Boolean(bool),
    /// The unique canonical empty-list terminator.
    EmptyList,
    /// A cons cell; both fields are shared, immutable references.
    Pair(Rc<Value>, Rc<Value>),
    /// A native procedure, named so a registry outside the evaluator can
    /// dispatch on it; carries no captured state.
    PrimitiveProcedure(String),
    /// A user-defined closure.
    Procedure(Rc<Procedure>),
}

/// A user-defined closure: parameter names, a non-empty body, and the
/// free-variable bindings captured when the closure was built.
#[derive(Debug, PartialEq)]
pub struct Procedure {
    pub parameters: Vec<String>,
    pub body: Vec<Value>,
    pub captures: Vec<(String, Value)>,
}

/// The number of nodes in a value tree; a measure for recursion over values.
pub open spec fn size(v: Value) -> nat
    decreases v,
{
    match v {
        Value::Pair(a, b) => 1 + size(*a) + size(*b),
        _ => 1,
    }
}

/// Truthiness: `#f` is the only falsy value.
pub open spec fn truthy(v: Value) -> bool {
    !(v matches Value::Boolean(false))
}

/// Structural equality, as the `eq?` procedure decides it: identical
/// variant and equal leaf payload, recursing through pairs.  Numbers
/// compare numerically (see [`num_eq`]); `Void` and procedures equal
/// nothing, not even themselves.
pub open spec fn val_eq(a: Value, b: Value) -> bool
    decreases a,
{
    match (a, b) {
        (Value::Symbol(l), Value::Symbol(r)) => l@ == r@,
        (Value::Number(l), Value::Number(r)) => num_eq(*l, *r),
        (Value::Str(l), Value::Str(r)) => l@ == r@,
        (Value::Character(l), Value::Character(r)) => l == r,
        (Value::Boolean(l), Value::Boolean(r)) => l == r,
        (Value::EmptyList, Value::EmptyList) => true,
        (Value::Pair(l1, r1), Value::Pair(l2, r2)) => val_eq(*l1, *l2) && val_eq(*r1, *r2),
        _ => false,
    }
}

impl Clone for Value {
    /// Cloning shares pairs and procedures and copies atoms; the clone is
    /// indistinguishable from the original.
    fn clone(&self) -> (res: Self)
        ensures
            res == *self,
    {
        match self {
            Value::Void => Value::Void,
            Value::Symbol(s) => Value::Symbol(s.clone()),
            Value::Number(n) => Value::Number(Rc::clone(n)),
            Value::Str(s) => Value::Str(s.clone()),
            Value::Character(c) => Value::Character(*c),
            Value::Boolean(b) => Value::Boolean(*b),
            Value::EmptyList => Value::EmptyList,
            Value::Pair(a, b) => Value::Pair(Rc::clone(a), Rc::clone(b)),
            Value::PrimitiveProcedure(s) => Value::PrimitiveProcedure(s.clone()),
            Value::Procedure(p) => Value::Procedure(Rc::clone(p)),
        }
    }
}

impl Value {
    /// The void value.
    pub fn void() -> (r: Self)
        ensures
            r == Value::Void,
    {
        Value::Void
    }

    /// A symbol with the given name.
    pub fn symbol(s: &str) -> (r: Self)
        ensures
            r matches Value::Symbol(n) && n@ == s@,
    {
        Value::Symbol(s.to_owned())
    }

    /// A numeric atom.
    pub fn number(n: Number) -> (r: Self)
        ensures
            r matches Value::Number(m) && *m == n,
    {
        Value::Number(Rc::new(n))
    }

    /// A string atom.
    pub fn string(s: &str) -> (r: Self)
        ensures
            r matches Value::Str(t) && t@ == s@,
    {
        Value::Str(s.to_owned())
    }

    /// A character atom.
    pub fn character(c: char) -> (r: Self)
        ensures
            r == Value::Character(c),
    {
        Value::Character(c)
    }

    /// A boolean atom.
    pub fn boolean(b: bool) -> (r: Self)
        ensures
            r == Value::Boolean(b),
    {
        Value::Boolean(b)
    }

    /// The empty list.
    pub fn empty_list() -> (r: Self)
        ensures
            r == Value::EmptyList,
    {
        Value::EmptyList
    }

    /// A cons cell over shared references to the two given values.
    pub fn pair(l: &Value, r: &Value) -> (res: Self)
        ensures
            res matches Value::Pair(a, b) && *a == *l && *b == *r,
    {
        Value::Pair(Rc::new(l.clone()), Rc::new(r.clone()))
    }

    /// A closure value from its parts.  The evaluator only builds closures
    /// with a non-empty body; see `make_lambda`.
    pub fn procedure(parameters: Vec<String>, body: Vec<Value>, captures: Vec<(String, Value)>) -> (r: Self)
        ensures
            r matches Value::Procedure(p) && p.parameters@ == parameters@ && p.body@ == body@
                && p.captures@ == captures@,
    {
        Value::Procedure(Rc::new(Procedure { parameters, body, captures }))
    }

    /// Truthiness of this value, per [`truthy`].
    pub fn to_bool(&self) -> (r: bool)
        ensures
            r == truthy(*self),
    {
        !matches!(self, Value::Boolean(false))
    }
}

/// The elements of a value read as a proper list, or `None` when some tail
/// is neither a pair nor the empty list.
pub open spec fn list_elements(v: Value) -> Option<Seq<Value>>
    decreases v,
{
    match v {
        Value::EmptyList => Some(Seq::empty()),
        Value::Pair(h, t) => match list_elements(*t) {
            Some(s) => Some(seq![*h] + s),
            None => None,
        },
        _ => None,
    }
}

/// The tail that stops list iteration: the first non-pair reached by
/// following second fields.
pub open spec fn improper_tail(v: Value) -> Value
    decreases v,
{
    match v {
        Value::Pair(h, t) => improper_tail(*t),
        _ => v,
    }
}

/// The first field of a pair (the pair itself when the value is no pair).
pub open spec fn pair_head(v: Value) -> Value {
    match v {
        Value::Pair(h, t) => *h,
        _ => v,
    }
}

/// The second field of a pair (the pair itself when the value is no pair).
pub open spec fn pair_tail(v: Value) -> Value {
    match v {
        Value::Pair(h, t) => *t,
        _ => v,
    }
}

/// The value is the proper list holding exactly the given elements in order.
pub open spec fn is_list_of(v: Value, items: Seq<Value>) -> bool
    decreases items.len(),
{
    if items.len() == 0 {
        v == Value::EmptyList
    } else {
        v matches Value::Pair(h, t) && *h == items[0] && is_list_of(*t, items.drop_first())
    }
}

/// Building a value from an ordered sequence of elements and then iterating
/// it gives back exactly that sequence: [`is_list_of`] and [`list_elements`]
/// are inverse on proper lists.
pub proof fn lemma_list_roundtrip(v: Value, items: Seq<Value>)
    requires
        is_list_of(v, items),
    ensures
        list_elements(v) == Some(items),
    decreases items.len(),
{
    if items.len() == 0 {
        assert(list_elements(v) == Some(Seq::<Value>::empty()));
        assert(items =~= Seq::<Value>::empty());
    } else {
        lemma_list_roundtrip(pair_tail(v), items.drop_first());
        assert(seq![items[0]] + items.drop_first() =~= items);
    }
}

impl Value {
    /// Collect the elements of this value read as a list, in order; fail
    /// with the list-expected error at the first improper tail.
    pub fn list_items(&self) -> (r: Result<Vec<Value>, Error>)
        ensures
            match r {
                Ok(items) => list_elements(*self) == Some(items@),
                Err(e) => list_elements(*self) is None && e == Error::ExpectedList(
                    improper_tail(*self),
                ),
            },
    {
        let mut out: Vec<Value> = Vec::new();
        let mut cur: &Value = self;
        loop
            invariant
                improper_tail(*self) == improper_tail(*cur),
                forall|s: Seq<Value>|
                    list_elements(*cur) == Some(s) ==> list_elements(*self) == Some(out@ + s),
                list_elements(*cur) is None ==> list_elements(*self) is None,
            decreases size(*cur),
        {
            match cur {
                Value::EmptyList => {
                    proof {
                        assert(out@ + Seq::<Value>::empty() =~= out@);
                    }
                    return Ok(out);
                },
                Value::Pair(h, t) => {
                    let ghost cv = *cur;
                    let ghost prev = out@;
                    out.push((**h).clone());
                    proof {
                        if list_elements(pair_tail(cv)) is Some {
                            let s = list_elements(pair_tail(cv))->Some_0;
                            assert(prev + (seq![pair_head(cv)] + s) =~= out@ + s);
                        }
                    }
                    cur = t;
                },
                _ => {
                    return Err(Error::ExpectedList(cur.clone()));
                },
            }
        }
    }

    /// Fold an ordered sequence of elements, right to left, into the proper
    /// list that holds them in order.
    pub fn from_iter(items: Vec<Value>) -> (r: Value)
        ensures
            is_list_of(r, items@),
    {
        let mut acc = Value::EmptyList;
        let len = items.len();
        let mut i: usize = len;
        while i > 0
            invariant
                i <= len,
                len == items@.len(),
                is_list_of(acc, items@.subrange(i as int, len as int)),
            decreases i,
        {
            i = i - 1;
            acc = Value::pair(&items[i], &acc);
            proof {
                assert(items@.subrange(i as int, len as int).drop_first() =~= items@.subrange(
                    i as int + 1,
                    len as int,
                ));
            }
        }
        proof {
            assert(items@.subrange(0, len as int) =~= items@);
        }
        acc
    }
}

/// The whitespace characters this interpreter recognizes: the ones that
/// separate tokens in source text.
pub open spec fn is_space(c: char) -> bool {
    c == ' ' || c == '\t' || c == '\n' || c == '\r'
}

/// Whether the character sequence holds any whitespace.
pub open spec fn has_space(s: Seq<char>) -> bool {
    exists|i: int| 0 <= i < s.len() && is_space(s[i])
}

/// The name of the quotation special form.
pub open spec fn quote_name() -> Seq<char> {
    seq!['q', 'u', 'o', 't', 'e']
}

/// The opaque token procedures print as.
pub open spec fn proc_chars() -> Seq<char> {
    seq!['#', '<', 'p', 'r', 'o', 'c', 'e', 'd', 'u', 'r', 'e', '>']
}

/// The characters that write one character inside a string literal: a
/// backslash escapes the two characters the reader treats specially, so
/// that every string's printed form reads back to the same string.
pub open spec fn escape_char_out(c: char) -> Seq<char> {
    if c == '"' || c == '\\' {
        seq!['\\', c]
    } else {
        seq![c]
    }
}

/// The printed body of a string literal: each character escaped as needed.
pub open spec fn escape_text(s: Seq<char>) -> Seq<char>
    decreases s.len(),
{
    if s.len() == 0 {
        Seq::empty()
    } else {
        escape_char_out(s[0]) + escape_text(s.drop_first())
    }
}

/// The external (printed) form of a value.  Atoms print in their literal
/// form (symbols holding whitespace wrapped in `|...|`, strings quoted
/// with `"` and `\` re-escaped, characters after `#\`), two-element
/// `quote` forms print abbreviated as `'x`, proper lists as `(a b c)`,
/// improper tails after a dot, and procedures as an opaque token.
pub open spec fn render_value(v: Value) -> Seq<char>
    decreases v, 0int,
{
    match v {
        Value::Void => seq!['#', '<', 'v', 'o', 'i', 'd', '>'],
        Value::Symbol(s) => if has_space(s@) {
            seq!['|'] + s@ + seq!['|']
        } else {
            s@
        },
        Value::Number(n) => render_number(*n),
        Value::Str(s) => seq!['"'] + escape_text(s@) + seq!['"'],
        Value::Character(c) => seq!['#', '\\', c],
        Value::Boolean(b) => if b {
            seq!['#', 't']
        } else {
            seq!['#', 'f']
        },
        Value::EmptyList => seq!['(', ')'],
        Value::PrimitiveProcedure(_) => proc_chars(),
        Value::Procedure(_) => proc_chars(),
        Value::Pair(h, t) => match *t {
            Value::Pair(x, e) => {
                if (*h matches Value::Symbol(s) && s@ == quote_name()) && *e == Value::EmptyList {
                    seq!['\''] + render_value(*x)
                } else {
                    seq!['('] + render_value(*h) + render_tail(*t)
                }
            },
            _ => seq!['('] + render_value(*h) + render_tail(*t),
        },
    }
}

/// The printed form of a list tail: the remaining elements, a closing
/// parenthesis, and a dotted improper tail where there is one.
pub open spec fn render_tail(v: Value) -> Seq<char>
    decreases v, 1int,
{
    match v {
        Value::EmptyList => seq![')'],
        Value::Pair(h, t) => seq![' '] + render_value(*h) + render_tail(*t),
        _ => seq![' ', '.', ' '] + render_value(v) + seq![')'],
    }
}

/// Relies on `String::push` from std: it appends exactly the given
/// character to the string.
#[verifier::external_body]
fn push_char(s: &mut String, c: char)
    ensures
        final(s)@ == old(s)@.push(c),
{
    s.push(c)
}

/// Build a string holding exactly the given characters.
pub fn chars_to_string(v: &Vec<char>) -> (s: String)
    ensures
        s@ == v@,
{
    let mut s = String::new();
    let n = v.len();
    let mut i: usize = 0;
    proof {
        assert(s@ =~= v@.subrange(0, 0));
    }
    while i < n
        invariant
            i <= n,
            n == v@.len(),
            s@ == v@.subrange(0, i as int),
        decreases n - i,
    {
        push_char(&mut s, v[i]);
        i = i + 1;
        proof {
            assert(s@ =~= v@.subrange(0, i as int));
        }
    }
    proof {
        assert(v@.subrange(0, n as int) =~= v@);
    }
    s
}

/// Append every character of the slice to `out`.
pub fn push_str_chars(s: &str, out: &mut Vec<char>)
    ensures
        final(out)@ == old(out)@ + s@,
{
    let n = s.unicode_len();
    let mut i: usize = 0;
    proof {
        assert(out@ =~= old(out)@ + s@.subrange(0, 0));
    }
    while i < n
        invariant
            i <= n,
            n == s@.len(),
            out@ == old(out)@ + s@.subrange(0, i as int),
        decreases n - i,
    {
        let c = s.get_char(i);
        out.push(c);
        i = i + 1;
        proof {
            assert(out@ =~= old(out)@ + s@.subrange(0, i as int));
        }
    }
    proof {
        assert(s@.subrange(0, n as int) =~= s@);
    }
}

/// Whether two string slices hold the same characters.
pub fn str_eq(a: &str, b: &str) -> (r: bool)
    ensures
        r == (a@ == b@),
{
    let n = a.unicode_len();
    if n != b.unicode_len() {
        proof {
            assert(a@ != b@);
        }
        return false;
    }
    let mut i: usize = 0;
    while i < n
        invariant
            i <= n,
            n == a@.len() && n == b@.len(),
            forall|j: int| 0 <= j < i ==> a@[j] == b@[j],
        decreases n - i,
    {
        if a.get_char(i) != b.get_char(i) {
            return false;
        }
        i = i + 1;
    }
    proof {
        assert(a@ =~= b@);
    }
    true
}

/// Adding one character to a string appends its escaped form.
proof fn lemma_escape_snoc(s: Seq<char>)
    requires
        s.len() > 0,
    ensures
        escape_text(s) == escape_text(s.drop_last()) + escape_char_out(s.last()),
    decreases s.len(),
{
    if s.len() == 1 {
        assert(escape_text(s.drop_first()) == Seq::<char>::empty());
        assert(escape_text(s.drop_last()) == Seq::<char>::empty());
        assert(escape_char_out(s[0]) + Seq::<char>::empty() =~= Seq::<char>::empty()
            + escape_char_out(s[0]));
        assert(Seq::<char>::empty() + escape_char_out(s[0]) =~= escape_char_out(s[0]));
        assert(escape_text(s) =~= escape_text(s.drop_last()) + escape_char_out(s.last()));
    } else {
        lemma_escape_snoc(s.drop_first());
        assert(s.drop_first().drop_last() =~= s.drop_last().drop_first());
        assert(s.drop_first().last() == s.last());
        assert(s.drop_last()[0] == s[0]);
        assert(escape_char_out(s[0]) + (escape_text(s.drop_first().drop_last())
            + escape_char_out(s.last())) =~= (escape_char_out(s[0]) + escape_text(
            s.drop_last().drop_first(),
        )) + escape_char_out(s.last()));
    }
}

/// Append the escaped printed body of the slice to `out`, per
/// [`escape_text`].
fn push_escaped_chars(s: &str, out: &mut Vec<char>)
    ensures
        final(out)@ == old(out)@ + escape_text(s@),
{
    let n = s.unicode_len();
    let mut i: usize = 0;
    proof {
        assert(s@.subrange(0, 0) =~= Seq::<char>::empty());
        assert(out@ =~= old(out)@ + escape_text(s@.subrange(0, 0)));
    }
    while i < n
        invariant
            i <= n,
            n == s@.len(),
            out@ == old(out)@ + escape_text(s@.subrange(0, i as int)),
        decreases n - i,
    {
        let c = s.get_char(i);
        if c == '"' || c == '\\' {
            out.push('\\');
        }
        out.push(c);
        i = i + 1;
        proof {
            let pre = s@.subrange(0, i as int);
            lemma_escape_snoc(pre);
            assert(pre.drop_last() =~= s@.subrange(0, i as int - 1));
            assert(pre.last() == s@[i as int - 1]);
            assert(out@ =~= old(out)@ + escape_text(pre));
        }
    }
    proof {
        assert(s@.subrange(0, n as int) =~= s@);
    }
}

/// Whether the slice holds a whitespace character.
fn str_has_space(s: &str) -> (r: bool)
    ensures
        r == has_space(s@),
{
    let n = s.unicode_len();
    let mut i: usize = 0;
    while i < n
        invariant
            i <= n,
            n == s@.len(),
            forall|j: int| 0 <= j < i ==> !is_space(s@[j]),
        decreases n - i,
    {
        let c = s.get_char(i);
        if c == ' ' || c == '\t' || c == '\n' || c == '\r' {
            return true;
        }
        i = i + 1;
    }
    false
}

/// Whether the value is the symbol naming the quotation form.
fn is_quote_symbol(v: &Value) -> (r: bool)
    ensures
        r == (*v matches Value::Symbol(s) && s@ == quote_name()),
{
    match v {
        Value::Symbol(s) => {
            let q = String::from_str("quote");
            proof {
                reveal_strlit("quote");
                assert("quote"@ =~= quote_name());
            }
            s.eq(&q)
        },
        _ => false,
    }
}

/// Append the characters of the vector to `out`.
fn push_all(src: &Vec<char>, out: &mut Vec<char>)
    ensures
        final(out)@ == old(out)@ + src@,
{
    let n = src.len();
    let mut i: usize = 0;
    proof {
        assert(out@ =~= old(out)@ + src@.subrange(0, 0));
    }
    while i < n
        invariant
            i <= n,
            n == src@.len(),
            out@ == old(out)@ + src@.subrange(0, i as int),
        decreases n - i,
    {
        out.push(src[i]);
        i = i + 1;
        proof {
            assert(out@ =~= old(out)@ + src@.subrange(0, i as int));
        }
    }
    proof {
        assert(src@.subrange(0, n as int) =~= src@);
    }
}

/// Append the printed form of a value to `out`, per [`render_value`].
pub(crate) fn render_value_into(v: &Value, out: &mut Vec<char>)
    ensures
        final(out)@ == old(out)@ + render_value(*v),
    decreases size(*v), 0int,
{
    match v {
        Value::Void => {
            push_str_chars("#<void>", out);
            proof {
                reveal_strlit("#<void>");
                assert(out@ =~= old(out)@ + render_value(*v));
            }
        },
        Value::Symbol(s) => {
            if str_has_space(s.as_str()) {
                out.push('|');
                push_str_chars(s.as_str(), out);
                out.push('|');
                proof {
                    assert(out@ =~= old(out)@ + render_value(*v));
                }
            } else {
                push_str_chars(s.as_str(), out);
            }
        },
        Value::Number(n) => {
            let cs = n.render_chars();
            push_all(&cs, out);
        },
        Value::Str(s) => {
            out.push('"');
            push_escaped_chars(s.as_str(), out);
            out.push('"');
            proof {
                assert(out@ =~= old(out)@ + render_value(*v));
            }
        },
        Value::Character(c) => {
            out.push('#');
            out.push('\\');
            out.push(*c);
            proof {
                assert(out@ =~= old(out)@ + render_value(*v));
            }
        },
        Value::Boolean(b) => {
            out.push('#');
            if *b {
                out.push('t');
            } else {
                out.push('f');
            }
            proof {
                assert(out@ =~= old(out)@ + render_value(*v));
            }
        },
        Value::EmptyList => {
            out.push('(');
            out.push(')');
            proof {
                assert(out@ =~= old(out)@ + render_value(*v));
            }
        },
        Value::PrimitiveProcedure(_) => {
            push_str_chars("#<procedure>", out);
            proof {
                reveal_strlit("#<procedure>");
                assert(out@ =~= old(out)@ + render_value(*v));
            }
        },
        Value::Procedure(_) => {
            push_str_chars("#<procedure>", out);
            proof {
                reveal_strlit("#<procedure>");
                assert(out@ =~= old(out)@ + render_value(*v));
            }
        },
        Value::Pair(h, t) => {
            let mut quoted = false;
            match &**t {
                Value::Pair(x, e) => {
                    if is_quote_symbol(h) && matches!(&**e, Value::EmptyList) {
                        quoted = true;
                        out.push('\'');
                        proof {
                            assert(size(*v) == 1 + size(pair_head(*v)) + size(pair_tail(*v)));
                            assert(size(pair_tail(*v)) == 1 + size(pair_head(pair_tail(*v)))
                                + size(pair_tail(pair_tail(*v))));
                        }
                        render_value_into(x, out);
                        proof {
                            assert(out@ =~= old(out)@ + render_value(*v));
                        }
                    }
                },
                _ => {},
            }
            if !quoted {
                out.push('(');
                render_value_into(h, out);
                render_tail_into(t, out);
                proof {
                    assert(out@ =~= old(out)@ + render_value(*v));
                }
            }
        },
    }
}

/// Append the printed form of a list tail to `out`, per [`render_tail`].
fn render_tail_into(v: &Value, out: &mut Vec<char>)
    ensures
        final(out)@ == old(out)@ + render_tail(*v),
    decreases size(*v), 1int,
{
    match v {
        Value::EmptyList => {
            out.push(')');
            proof {
                assert(out@ =~= old(out)@ + render_tail(*v));
            }
        },
        Value::Pair(h, t) => {
            out.push(' ');
            render_value_into(h, out);
            render_tail_into(t, out);
            proof {
                assert(out@ =~= old(out)@ + render_tail(*v));
            }
        },
        _ => {
            out.push(' ');
            out.push('.');
            out.push(' ');
            render_value_into(v, out);
            out.push(')');
            proof {
                assert(out@ =~= old(out)@ + render_tail(*v));
            }
        },
    }
}

impl Value {
    /// The external (printed) form of this value, per [`render_value`].
    pub fn render(&self) -> (r: String)
        ensures
            r@ == render_value(*self),
    {
        let mut out: Vec<char> = Vec::new();
        render_value_into(self, &mut out);
        chars_to_string(&out)
    }
}

/// Decide structural equality, per [`val_eq`].
pub fn eq(a: &Value, b: &Value) -> (r: bool)
    ensures
        r == val_eq(*a, *b),
    decreases size(*a),
{
    match (a, b) {
        (Value::Symbol(l), Value::Symbol(r2)) => l.eq(r2),
        (Value::Number(l), Value::Number(r2)) => l.eq_number(r2),
        (Value::Str(l), Value::Str(r2)) => l.eq(r2),
        (Value::Character(l), Value::Character(r2)) => *l == *r2,
        (Value::Boolean(l), Value::Boolean(r2)) => *l == *r2,
        (Value::EmptyList, Value::EmptyList) => true,
        (Value::Pair(l1, r1), Value::Pair(l2, r2)) => eq(l1, l2) && eq(r1, r2),
        _ => false,
    }
}

} // verus!
