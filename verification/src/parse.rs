//! The reader: source text to values.
//!
//! The grammar tries, in order: boolean, character, number, string, symbol,
//! quotation shorthand, list.  Each token class has an exact specification
//! over the character sequence; the token scanners are verified against
//! them, and the expression parser composes the scanners in the same order.
//! A malformed input produces a parse error carrying the offending span and
//! character; input that ends inside an unfinished construct produces the
//! distinguished unexpected-end-of-input error instead.

use vstd::prelude::*;

verus! {

use crate::value::{Value, is_space, chars_to_string, push_str_chars, render_value, has_space,
    is_list_of, quote_name, escape_text, escape_char_out, pair_head, pair_tail};
use crate::number::{Number, digits_wf, normal_form, is_normal, render_number, strip_trailing, drop_leading, all_zero};
use crate::error::{Error, ParseIssue};
use vstd::string::StringExecFns;

/// The outcome of trying one token class at a position.
pub enum Scan<T> {
    /// The token matched, with its payload and the position after it.
    Hit(T, usize),
    /// The class does not start here; the next class should be tried.
    Miss,
    /// The input ended inside the construct.
    AtEnd,
    /// The construct is malformed at the given position.
    Bad(usize),
}

/// The first position at or after `i` holding a non-whitespace character.
pub open spec fn spec_skip_ws(s: Seq<char>, i: int) -> int
    decreases s.len() - i,
{
    if i < 0 || i >= s.len() {
        s.len() as int
    } else if is_space(s[i]) {
        spec_skip_ws(s, i + 1)
    } else {
        i
    }
}

/// The boolean token at `i`: `#t`/`#true` or `#f`/`#false`, the long form
/// preferred when its letters are present.
pub open spec fn spec_bool(s: Seq<char>, i: int) -> Option<(bool, int)> {
    if 0 <= i && i + 2 <= s.len() && s[i] == '#' && s[i + 1] == 't' {
        if i + 5 <= s.len() && s[i + 2] == 'r' && s[i + 3] == 'u' && s[i + 4] == 'e' {
            Some((true, i + 5))
        } else {
            Some((true, i + 2))
        }
    } else if 0 <= i && i + 2 <= s.len() && s[i] == '#' && s[i + 1] == 'f' {
        if i + 6 <= s.len() && s[i + 2] == 'a' && s[i + 3] == 'l' && s[i + 4] == 's' && s[i + 5]
            == 'e' {
            Some((false, i + 6))
        } else {
            Some((false, i + 2))
        }
    } else {
        None
    }
}

/// The character token at `i`: `#\` followed by the name `newline`, the
/// name `space`, or any single character.
pub open spec fn spec_char(s: Seq<char>, i: int) -> Option<(char, int)> {
    if 0 <= i && i + 3 <= s.len() && s[i] == '#' && s[i + 1] == '\\' {
        if i + 9 <= s.len() && s[i + 2] == 'n' && s[i + 3] == 'e' && s[i + 4] == 'w' && s[i + 5]
            == 'l' && s[i + 6] == 'i' && s[i + 7] == 'n' && s[i + 8] == 'e' {
            Some(('\n', i + 9))
        } else if i + 7 <= s.len() && s[i + 2] == 's' && s[i + 3] == 'p' && s[i + 4] == 'a' && s[i
            + 5] == 'c' && s[i + 6] == 'e' {
            Some((' ', i + 7))
        } else {
            Some((s[i + 2], i + 3))
        }
    } else {
        None
    }
}

/// Whether the character is a decimal digit.
pub open spec fn is_digit(c: char) -> bool {
    '0' <= c && c <= '9'
}

/// The digit value of a digit character.
pub open spec fn digit_of(c: char) -> u8 {
    ((c as u32 - 48) as u8)
}

/// The end of the run of digits starting at `i`.
pub open spec fn spec_digit_end(s: Seq<char>, i: int) -> int
    decreases s.len() - i,
{
    if i < 0 || i >= s.len() {
        s.len() as int
    } else if is_digit(s[i]) {
        spec_digit_end(s, i + 1)
    } else {
        i
    }
}

/// The digits written by `s[i..j)`.
pub open spec fn spec_digits(s: Seq<char>, i: int, j: int) -> Seq<u8> {
    s.subrange(i, j).map(|k: int, c: char| digit_of(c))
}

/// The number token at `i`: an optional minus sign, then digits with an
/// optional fractional part (`123.456`, `123.`, `123`, `.456`); at least
/// one digit is required on one side of the point.  The result is the raw
/// sign, digit sequence and decimal exponent, before normalization.
pub open spec fn spec_number(s: Seq<char>, i: int) -> Option<(bool, Seq<u8>, int, int)> {
    if i < 0 || i >= s.len() {
        None
    } else {
        let neg = s[i] == '-';
        let d0 = if neg {
            i + 1
        } else {
            i
        };
        let d1 = spec_digit_end(s, d0);
        if d1 > d0 {
            // leading digits, optionally a point and more digits
            if d1 < s.len() && s[d1] == '.' {
                let d2 = spec_digit_end(s, d1 + 1);
                Some((neg, spec_digits(s, d0, d1) + spec_digits(s, d1 + 1, d2), d1 + 1 - d2, d2))
            } else {
                Some((neg, spec_digits(s, d0, d1), 0, d1))
            }
        } else if d0 < s.len() && s[d0] == '.' {
            // a point first: fractional digits are required
            let d2 = spec_digit_end(s, d0 + 1);
            if d2 > d0 + 1 {
                Some((neg, spec_digits(s, d0 + 1, d2), d0 + 1 - d2, d2))
            } else {
                None
            }
        } else {
            None
        }
    }
}

/// Skip whitespace, per [`spec_skip_ws`].
fn skip_ws(s: &Vec<char>, pos: usize) -> (r: usize)
    requires
        pos <= s@.len(),
    ensures
        r == spec_skip_ws(s@, pos as int),
        pos <= r <= s@.len(),
    decreases s@.len() - pos,
{
    if pos < s.len() {
        let c = s[pos];
        if c == ' ' || c == '\t' || c == '\n' || c == '\r' {
            return skip_ws(s, pos + 1);
        }
    }
    pos
}

/// Scan a boolean token, per [`spec_bool`].
fn scan_bool(s: &Vec<char>, pos: usize) -> (r: Option<(bool, usize)>)
    requires
        pos <= s@.len(),
    ensures
        match spec_bool(s@, pos as int) {
            Some((b, j)) => r == Some((b, j as usize)),
            None => r is None,
        },
{
    if s.len() - pos >= 2 && s[pos] == '#' && s[pos + 1] == 't' {
        if s.len() - pos >= 5 && s[pos + 2] == 'r' && s[pos + 3] == 'u' && s[pos + 4] == 'e' {
            Some((true, pos + 5))
        } else {
            Some((true, pos + 2))
        }
    } else if s.len() - pos >= 2 && s[pos] == '#' && s[pos + 1] == 'f' {
        if s.len() - pos >= 6 && s[pos + 2] == 'a' && s[pos + 3] == 'l' && s[pos + 4] == 's' && s[
            pos + 5] == 'e' {
            Some((false, pos + 6))
        } else {
            Some((false, pos + 2))
        }
    } else {
        None
    }
}

/// Scan a character token, per [`spec_char`].
fn scan_char(s: &Vec<char>, pos: usize) -> (r: Option<(char, usize)>)
    requires
        pos <= s@.len(),
    ensures
        match spec_char(s@, pos as int) {
            Some((c, j)) => r == Some((c, j as usize)),
            None => r is None,
        },
{
    if s.len() - pos >= 3 && s[pos] == '#' && s[pos + 1] == '\\' {
        if s.len() - pos >= 9 && s[pos + 2] == 'n' && s[pos + 3] == 'e' && s[pos + 4] == 'w' && s[
            pos + 5] == 'l' && s[pos + 6] == 'i' && s[pos + 7] == 'n' && s[pos + 8] == 'e' {
            Some(('\n', pos + 9))
        } else if s.len() - pos >= 7 && s[pos + 2] == 's' && s[pos + 3] == 'p' && s[pos + 4] == 'a'
            && s[pos + 5] == 'c' && s[pos + 6] == 'e' {
            Some((' ', pos + 7))
        } else {
            Some((s[pos + 2], pos + 3))
        }
    } else {
        None
    }
}

/// Find the end of a digit run, per [`spec_digit_end`].
fn digit_end(s: &Vec<char>, pos: usize) -> (r: usize)
    requires
        pos <= s@.len(),
    ensures
        r == spec_digit_end(s@, pos as int),
        pos <= r <= s@.len(),
        forall|k: int| pos <= k < r ==> is_digit(s@[k]),
    decreases s@.len() - pos,
{
    if pos < s.len() {
        let c = s[pos];
        if '0' <= c && c <= '9' {
            return digit_end(s, pos + 1);
        }
    }
    pos
}

/// Append the digit values of `s[from..to)`, per [`spec_digits`].
fn push_digit_values(s: &Vec<char>, from: usize, to: usize, out: &mut Vec<u8>)
    requires
        from <= to <= s@.len(),
        forall|k: int| from <= k < to ==> is_digit(s@[k]),
    ensures
        final(out)@ == old(out)@ + spec_digits(s@, from as int, to as int),
        digits_wf(spec_digits(s@, from as int, to as int)),
    decreases to - from,
{
    proof {
        assert(out@ =~= old(out)@ + spec_digits(s@, from as int, from as int));
    }
    let mut i: usize = from;
    while i < to
        invariant
            from <= i <= to <= s@.len(),
            forall|k: int| from <= k < to ==> is_digit(s@[k]),
            out@ == old(out)@ + spec_digits(s@, from as int, i as int),
        decreases to - i,
    {
        let c = s[i];
        let d = ((c as u32) - 48) as u8;
        out.push(d);
        i = i + 1;
        proof {
            assert(out@ =~= old(out)@ + spec_digits(s@, from as int, i as int));
        }
    }
}

/// Scan a number token, per [`spec_number`]; a hit carries the normalized
/// number the raw components stand for.
fn scan_number(s: &Vec<char>, pos: usize) -> (r: Option<(Number, usize)>)
    requires
        pos <= s@.len(),
    ensures
        match spec_number(s@, pos as int) {
            Some((neg, ds, e, j)) => r matches Some((n, j2)) && j2 == j && is_normal(n) && (n
                matches Number::Finite { negative: n2, digits: d2, exponent: e2 } && (
            n2,
            d2@,
            e2 as int,
            ) == normal_form(neg, ds, e)),
            None => r is None,
        },
        r matches Some((num, j2)) ==> pos < j2 <= s@.len(),
{
    if pos >= s.len() {
        return None;
    }
    let neg = s[pos] == '-';
    let d0 = if neg {
        pos + 1
    } else {
        pos
    };
    if d0 > s.len() {
        proof {
            assert(spec_number(s@, pos as int) is None);
        }
        return None;
    }
    let d1 = digit_end(s, d0);
    if d1 > d0 {
        if d1 < s.len() && s[d1] == '.' {
            let d2 = digit_end(s, d1 + 1);
            let mut ds: Vec<u8> = Vec::new();
            push_digit_values(s, d0, d1, &mut ds);
            push_digit_values(s, d1 + 1, d2, &mut ds);
            proof {
                assert(ds@ =~= spec_digits(s@, d0 as int, d1 as int) + spec_digits(
                    s@,
                    d1 as int + 1,
                    d2 as int,
                ));
            }
            let exp: i128 = (d1 as i128) + 1 - (d2 as i128);
            Some((Number::from_parts(neg, ds, exp), d2))
        } else {
            let mut ds: Vec<u8> = Vec::new();
            push_digit_values(s, d0, d1, &mut ds);
            Some((Number::from_parts(neg, ds, 0), d1))
        }
    } else if d0 < s.len() && s[d0] == '.' {
        let d2 = digit_end(s, d0 + 1);
        if d2 > d0 + 1 {
            let mut ds: Vec<u8> = Vec::new();
            push_digit_values(s, d0 + 1, d2, &mut ds);
            let exp: i128 = (d0 as i128) + 1 - (d2 as i128);
            Some((Number::from_parts(neg, ds, exp), d2))
        } else {
            None
        }
    } else {
        None
    }
}

/// The character an escape sequence stands for, if the escape is legal.
pub open spec fn escape_char(c: char) -> Option<char> {
    if c == 'n' {
        Some('\n')
    } else if c == 't' {
        Some('\t')
    } else if c == '"' {
        Some('"')
    } else if c == '\\' {
        Some('\\')
    } else {
        None
    }
}

/// The body of a string literal from `i` to its closing quote: the
/// characters it denotes and the position after the quote.  `None` when
/// the input ends first or an escape is illegal.
pub open spec fn spec_string_body(s: Seq<char>, i: int) -> Option<(Seq<char>, int)>
    decreases s.len() - i,
{
    if i < 0 || i >= s.len() {
        None
    } else if s[i] == '"' {
        Some((Seq::empty(), i + 1))
    } else if s[i] == '\\' {
        if i + 1 < s.len() && escape_char(s[i + 1]) is Some {
            match spec_string_body(s, i + 2) {
                Some((t, j)) => Some((seq![escape_char(s[i + 1])->Some_0] + t, j)),
                None => None,
            }
        } else {
            None
        }
    } else {
        match spec_string_body(s, i + 1) {
            Some((t, j)) => Some((seq![s[i]] + t, j)),
            None => None,
        }
    }
}

/// The string token at `i`: a quote, the body, a closing quote.
pub open spec fn spec_string(s: Seq<char>, i: int) -> Option<(Seq<char>, int)> {
    if 0 <= i && i < s.len() && s[i] == '"' {
        spec_string_body(s, i + 1)
    } else {
        None
    }
}

/// A character that ends an unquoted symbol.
pub open spec fn is_symbol_break(c: char) -> bool {
    is_space(c) || c == '|' || c == '(' || c == ')' || c == '"' || c == ';' || c == '\'' || c
        == '#'
}

/// The end of the run of symbol characters starting at `i`.
pub open spec fn spec_symbol_end(s: Seq<char>, i: int) -> int
    decreases s.len() - i,
{
    if i < 0 || i >= s.len() {
        s.len() as int
    } else if !is_symbol_break(s[i]) {
        spec_symbol_end(s, i + 1)
    } else {
        i
    }
}

/// The end of the run of characters legal inside `|...|` starting at `i`.
pub open spec fn spec_pipe_end(s: Seq<char>, i: int) -> int
    decreases s.len() - i,
{
    if i < 0 || i >= s.len() {
        s.len() as int
    } else if s[i] != '|' && s[i] != '\\' {
        spec_pipe_end(s, i + 1)
    } else {
        i
    }
}

/// The symbol token at `i`: either a non-empty `|`-delimited run of
/// characters other than `|` and `\`, or a non-empty run of characters
/// that no token or delimiter claims.
pub open spec fn spec_symbol(s: Seq<char>, i: int) -> Option<(Seq<char>, int)> {
    if i < 0 || i >= s.len() {
        None
    } else if s[i] == '|' {
        let k = spec_pipe_end(s, i + 1);
        if k < s.len() && s[k] == '|' && k > i + 1 {
            Some((s.subrange(i + 1, k), k + 1))
        } else {
            None
        }
    } else {
        let k = spec_symbol_end(s, i);
        if k > i {
            Some((s.subrange(i, k), k))
        } else {
            None
        }
    }
}

/// Scan a string token, per [`spec_string`]: a hit carries the denoted
/// characters; an illegal escape is malformed at the character after the
/// backslash, and a missing closing quote ends the input early.
fn scan_string(s: &Vec<char>, pos: usize) -> (r: Scan<String>)
    requires
        pos < s@.len(),
        s@[pos as int] == '"',
    ensures
        match spec_string(s@, pos as int) {
            Some((t, j)) => r matches Scan::Hit(w, j2) && w@ == t && j2 == j,
            None => r matches Scan::AtEnd || r matches Scan::Bad(p),
        },
        r matches Scan::Hit(w, j2) ==> pos < j2 <= s@.len(),
        r matches Scan::Bad(p) ==> pos <= p < s@.len(),
{
    let n = s.len();
    let mut out: Vec<char> = Vec::new();
    let mut i: usize = pos + 1;
    proof {
        if spec_string_body(s@, pos as int + 1) is Some {
            assert(out@ + spec_string_body(s@, pos as int + 1)->Some_0.0 =~= spec_string_body(
                s@,
                pos as int + 1,
            )->Some_0.0);
        }
    }
    loop
        invariant
            pos < s@.len(),
            s@[pos as int] == '"',
            pos + 1 <= i <= s@.len(),
            spec_string_body(s@, pos as int + 1) matches Some((t, j)) ==> (spec_string_body(
                s@,
                i as int,
            ) matches Some((t2, j2)) && t == out@ + t2 && j == j2),
            spec_string_body(s@, i as int) is Some ==> spec_string_body(
                s@,
                pos as int + 1,
            ) is Some,
        decreases s@.len() - i,
    {
        if i >= s.len() {
            return Scan::AtEnd;
        }
        let c = s[i];
        if c == '"' {
            proof {
                assert(spec_string_body(s@, i as int) == Some((Seq::<char>::empty(), i + 1)));
                if spec_string_body(s@, pos as int + 1) is Some {
                    assert(out@ + Seq::<char>::empty() =~= out@);
                }
            }
            return Scan::Hit(chars_to_string(&out), i + 1);
        }
        if c == '\\' {
            if i + 1 >= s.len() {
                return Scan::AtEnd;
            }
            let e = s[i + 1];
            let dec: char = if e == 'n' {
                '\n'
            } else if e == 't' {
                '\t'
            } else if e == '"' {
                '"'
            } else if e == '\\' {
                '\\'
            } else {
                return Scan::Bad(i + 1);
            };
            let ghost before = out@;
            out.push(dec);
            proof {
                if spec_string_body(s@, i as int + 2) is Some {
                    let t2 = spec_string_body(s@, i as int + 2)->Some_0.0;
                    assert(before + (seq![dec] + t2) =~= out@ + t2);
                }
            }
            i = i + 2;
        } else {
            let ghost before = out@;
            out.push(c);
            proof {
                if spec_string_body(s@, i as int + 1) is Some {
                    let t2 = spec_string_body(s@, i as int + 1)->Some_0.0;
                    assert(before + (seq![c] + t2) =~= out@ + t2);
                }
            }
            i = i + 1;
        }
    }
}

/// Find the end of an unquoted-symbol run, per [`spec_symbol_end`].
fn symbol_end(s: &Vec<char>, pos: usize) -> (r: usize)
    requires
        pos <= s@.len(),
    ensures
        r == spec_symbol_end(s@, pos as int),
        pos <= r <= s@.len(),
    decreases s@.len() - pos,
{
    if pos < s.len() {
        let c = s[pos];
        if !(c == ' ' || c == '\t' || c == '\n' || c == '\r' || c == '|' || c == '(' || c == ')'
            || c == '"' || c == ';' || c == '\'' || c == '#') {
            return symbol_end(s, pos + 1);
        }
    }
    pos
}

/// Find the end of a `|...|` run, per [`spec_pipe_end`].
fn pipe_end(s: &Vec<char>, pos: usize) -> (r: usize)
    requires
        pos <= s@.len(),
    ensures
        r == spec_pipe_end(s@, pos as int),
        pos <= r <= s@.len(),
    decreases s@.len() - pos,
{
    if pos < s.len() {
        let c = s[pos];
        if c != '|' && c != '\\' {
            return pipe_end(s, pos + 1);
        }
    }
    pos
}

/// Build the string holding `s[from..to)`.
fn take_chars(s: &Vec<char>, from: usize, to: usize) -> (r: String)
    requires
        from <= to <= s@.len(),
    ensures
        r@ == s@.subrange(from as int, to as int),
{
    let mut out: Vec<char> = Vec::new();
    let mut i: usize = from;
    proof {
        assert(out@ =~= s@.subrange(from as int, from as int));
    }
    while i < to
        invariant
            from <= i <= to <= s@.len(),
            out@ == s@.subrange(from as int, i as int),
        decreases to - i,
    {
        out.push(s[i]);
        i = i + 1;
        proof {
            assert(out@ =~= s@.subrange(from as int, i as int));
        }
    }
    chars_to_string(&out)
}

/// Scan a symbol token, per [`spec_symbol`].
fn scan_symbol(s: &Vec<char>, pos: usize) -> (r: Scan<String>)
    requires
        pos < s@.len(),
    ensures
        match spec_symbol(s@, pos as int) {
            Some((t, j)) => r matches Scan::Hit(w, j2) && w@ == t && j2 == j,
            None => !(r matches Scan::Hit(w, j2)),
        },
        r matches Scan::Hit(w, j2) ==> pos < j2 <= s@.len(),
        r matches Scan::Bad(p) ==> pos <= p < s@.len(),
{
    let n = s.len();
    if s[pos] == '|' {
        let k = pipe_end(s, pos + 1);
        if k < s.len() && s[k] == '|' && k > pos + 1 {
            Scan::Hit(take_chars(s, pos + 1, k), k + 1)
        } else if k >= s.len() {
            Scan::AtEnd
        } else {
            Scan::Bad(k)
        }
    } else {
        let k = symbol_end(s, pos);
        if k > pos {
            Scan::Hit(take_chars(s, pos, k), k)
        } else {
            Scan::Miss
        }
    }
}


/// The expression grammar as a relation over positions: the text
/// `s[i..j)` reads as exactly the value `v`.  An atom reads by its token
/// class (earlier classes excluded, as the reader tries them in order); a
/// quotation reads its operand and wraps it; a parenthesized list reads
/// whitespace-separated expressions into a proper list.
pub open spec fn parses_at(s: Seq<char>, i: int, v: Value, j: int) -> bool
    decreases j - i, 0int,
{

    0 <= i < j <= s.len() && {
        ||| (spec_bool(s, i) matches Some((b, j2)) && j2 == j && v == Value::Boolean(b))
        ||| (spec_char(s, i) matches Some((c, j2)) && spec_bool(s, i) is None && j2 == j && v
            == Value::Character(c))
        ||| (spec_number(s, i) matches Some((neg, ds, e, j2)) && spec_bool(s, i) is None
            && spec_char(s, i) is None && j2 == j && (v matches Value::Number(m) && is_normal(
            *m,
        ) && (*m matches Number::Finite { negative, digits, exponent } && (
        negative,
        digits@,
        exponent as int,
        ) == normal_form(neg, ds, e))))
        ||| (spec_string(s, i) matches Some((t, j2)) && spec_bool(s, i) is None && spec_char(
            s,
            i,
        ) is None && spec_number(s, i) is None && j2 == j && (v matches Value::Str(w) && w@ == t))
        ||| (spec_symbol(s, i) matches Some((t, j2)) && spec_bool(s, i) is None && spec_char(
            s,
            i,
        ) is None && spec_number(s, i) is None && spec_string(s, i) is None && j2 == j && (v
            matches Value::Symbol(w) && w@ == t))
        ||| (s[i] == '\'' && (v matches Value::Pair(qh, qt) && *qh matches Value::Symbol(qs)
            && *qt matches Value::Pair(x, e) && qs@ == quote_name() && *e == Value::EmptyList
            && parses_at(s, i + 1, *x, j)))
        ||| (s[i] == '(' && s[j - 1] == ')' && list_parses_at(s, i + 1, v, j - 1))
    }
}

/// One step of the list grammar: after the whitespace from `i`, the head
/// of `v` reads up to `m`, and the rest of the elements up to `j` read as
/// the tail of `v`.
pub open spec fn list_step(s: Seq<char>, i: int, v: Value, j: int, k: int, m: int) -> bool
    decreases j - i, 1int,
{
    k == spec_skip_ws(s, i) && i <= k && k < m <= j && parses_at(s, k, pair_head(v), m)
        && list_parses_at(s, m, pair_tail(v), j)
}

/// Some split makes a step of the list grammar: `v` is a pair whose head
/// and tail read from `i` up to `j`.
pub open spec fn list_cons_at(s: Seq<char>, i: int, v: Value, j: int) -> bool
    decreases j - i, 2int,
{
    (v is Pair) && exists|k: int, m: int|
        #![trigger s.subrange(k, m)]
        list_step(s, i, v, j, k, m)
}

/// The elements between `i` and the closing parenthesis at `j` read as
/// the proper list `v`: nothing but whitespace remains, or one expression
/// follows the whitespace and the rest reads as the tail.
pub open spec fn list_parses_at(s: Seq<char>, i: int, v: Value, j: int) -> bool
    decreases j - i, 3int,
{
    0 <= i <= j <= s.len() && {
        ||| (spec_skip_ws(s, i) == j && v == Value::EmptyList)
        ||| list_cons_at(s, i, v, j)
    }
}

proof fn lemma_list_parses_cons(
    s: Seq<char>,
    i: int,
    k: int,
    m: int,
    mid: Value,
    close: int,
)
    requires
        0 <= i <= close <= s.len(),
        k == spec_skip_ws(s, i),
        i <= k,
        k < m <= close,
        mid matches Value::Pair(h, tt),
        parses_at(s, k, pair_head(mid), m),
        list_parses_at(s, m, pair_tail(mid), close),
    ensures
        list_parses_at(s, i, mid, close),
{
    assert(list_cons_at(s, i, mid, close)) by {
        assert(list_step(s, i, mid, close, k, m));
        assert(s.subrange(k, m) == s.subrange(k, m));
    }
}

proof fn lemma_list_parses_bounds(s: Seq<char>, i: int, v: Value, j: int)
    requires
        list_parses_at(s, i, v, j),
    ensures
        i <= j <= s.len(),
{
}

/// The value `w` is the elements prepended, in order, onto the tail.
pub open spec fn prefixed(items: Seq<Value>, tail: Value, w: Value) -> bool
    decreases items.len(),
{
    if items.len() == 0 {
        w == tail
    } else {
        w matches Value::Pair(h, t) && *h == items[0] && prefixed(items.drop_first(), tail, *t)
    }
}

/// The value left after following `n` pair tails.
pub open spec fn nth_tail(w: Value, n: nat) -> Value
    decreases n,
{
    if n == 0 {
        w
    } else {
        nth_tail(pair_tail(w), (n - 1) as nat)
    }
}

proof fn lemma_prefixed_snoc(items: Seq<Value>, v: Value, tail: Value, w: Value)
    requires
        prefixed(items.push(v), tail, w),
    ensures
        prefixed(items, nth_tail(w, items.len()), w),
        nth_tail(w, items.len()) matches Value::Pair(h, tt) && *h == v && *tt == tail,
    decreases items.len(),
{
    if items.len() == 0 {
        assert(items.push(v)[0] == v);
        assert(items.push(v).drop_first() =~= Seq::<Value>::empty());
        assert(prefixed(items, w, w));
        assert(w matches Value::Pair(h, tt));
        assert(prefixed(items.push(v).drop_first(), tail, pair_tail(w)));
        assert(prefixed(Seq::<Value>::empty(), tail, pair_tail(w)));
        assert(pair_tail(w) == tail);
    } else {
        assert(items.push(v)[0] == items[0]);
        assert(items.push(v).drop_first() =~= items.drop_first().push(v));
        lemma_prefixed_snoc(items.drop_first(), v, tail, pair_tail(w));
        assert(nth_tail(w, items.len()) == nth_tail(pair_tail(w), (items.len() - 1) as nat));
        assert(prefixed(items, nth_tail(w, items.len()), w));
    }
}

proof fn lemma_is_list_of_prefixed(v: Value, items: Seq<Value>)
    requires
        is_list_of(v, items),
    ensures
        prefixed(items, Value::EmptyList, v),
    decreases items.len(),
{
    if items.len() > 0 {
        lemma_is_list_of_prefixed(pair_tail(v), items.drop_first());
    }
}

/// The atom-level contract of the expression parser: each token class, in
/// the order tried, pins the parsed value and the resting position.
pub open spec fn atom_spec(s: Seq<char>, i: int, r: Scan<Value>) -> bool {
    &&& (spec_bool(s, i) matches Some((b, j)) ==> (r matches Scan::Hit(v, j2) && v
        == Value::Boolean(b) && j2 == j))
    &&& (spec_bool(s, i) is None ==> (spec_char(s, i) matches Some((c, j)) ==> (r matches Scan::Hit(
        v,
        j2,
    ) && v == Value::Character(c) && j2 == j)))
    &&& (spec_bool(s, i) is None && spec_char(s, i) is None ==> (spec_number(s, i) matches Some(
        (neg, ds, e, j),
    ) ==> (r matches Scan::Hit(v, j2) && j2 == j && (v matches Value::Number(m) && is_normal(*m)
        && (*m matches Number::Finite { negative, digits, exponent } && (
    negative,
    digits@,
    exponent as int,
    ) == normal_form(neg, ds, e))))))
    &&& (spec_bool(s, i) is None && spec_char(s, i) is None && spec_number(s, i) is None ==> (
    spec_string(s, i) matches Some((t, j)) ==> (r matches Scan::Hit(v, j2) && j2 == j && (v
        matches Value::Str(w) && w@ == t))))
    &&& (spec_bool(s, i) is None && spec_char(s, i) is None && spec_number(s, i) is None
        && spec_string(s, i) is None ==> (spec_symbol(s, i) matches Some((t, j)) ==> (r
        matches Scan::Hit(v, j2) && j2 == j && (v matches Value::Symbol(w) && w@ == t))))
}

/// Parse one expression starting exactly at `pos`: the token classes in
/// order, then the quotation shorthand, then a parenthesized list.
fn parse_expr(s: &Vec<char>, pos: usize) -> (r: Scan<Value>)
    requires
        pos <= s@.len(),
    ensures
        atom_spec(s@, pos as int, r),
        r matches Scan::Hit(v, j) ==> pos < j <= s@.len(),
        r matches Scan::Bad(p) ==> pos <= p < s@.len(),
        !(r matches Scan::Miss),
        pos < s@.len() && s@[pos as int] == '\'' ==> (r matches Scan::Hit(v, j) ==> (v
            matches Value::Pair(qh, qt) && *qh matches Value::Symbol(qs) && *qt
            matches Value::Pair(x, e) && qs@ == quote_name() && *e == Value::EmptyList)),
        pos < s@.len() && s@[pos as int] == '(' ==> (r matches Scan::Hit(v, j) ==> exists|
            items: Seq<Value>,
        | is_list_of(v, items)),
        (pos < s@.len() && s@[pos as int] == '(' && ({
            let k = spec_skip_ws(s@, pos as int + 1);
            k < s@.len() && s@[k] == ')'
        })) ==> (r matches Scan::Hit(v, j) && v == Value::EmptyList && j == spec_skip_ws(
            s@,
            pos as int + 1,
        ) + 1),
        r matches Scan::Hit(v, j) ==> parses_at(s@, pos as int, v, j as int),
    decreases s@.len() - pos,
{
    let n = s.len();
    if pos >= n {
        return Scan::AtEnd;
    }
    if let Some((b, j)) = scan_bool(s, pos) {
        return Scan::Hit(Value::boolean(b), j);
    }
    if let Some((c, j)) = scan_char(s, pos) {
        return Scan::Hit(Value::character(c), j);
    }
    if let Some((num, j)) = scan_number(s, pos) {
        return Scan::Hit(Value::number(num), j);
    }
    if s[pos] == '"' {
        match scan_string(s, pos) {
            Scan::Hit(w, j) => {
                return Scan::Hit(Value::Str(w), j);
            },
            Scan::AtEnd => {
                return Scan::AtEnd;
            },
            Scan::Bad(p) => {
                return Scan::Bad(p);
            },
            Scan::Miss => {
                proof {
                    assert(false);
                }
                return Scan::Bad(pos);
            },
        }
    }
    if s[pos] == '\'' {
        match parse_expr(s, pos + 1) {
            Scan::Hit(v, j) => {
                let quoted = Value::pair(&v, &Value::empty_list());
                let head = Value::symbol("quote");
                proof {
                    reveal_strlit("quote");
                    assert("quote"@ =~= crate::value::quote_name());
                }
                let built = Value::pair(&head, &quoted);
                proof {
                    assert(parses_at(s@, pos as int, built, j as int));
                }
                return Scan::Hit(built, j);
            },
            Scan::AtEnd => {
                return Scan::AtEnd;
            },
            Scan::Bad(p) => {
                return Scan::Bad(p);
            },
            Scan::Miss => {
                return Scan::Bad(pos);
            },
        }
    }
    if s[pos] == '(' {
        let mut items: Vec<Value> = Vec::new();
        let mut cursor: usize = pos + 1;
        loop
            invariant
                pos < cursor <= s@.len(),
                s@.len() == n,
                pos < s@.len(),
                s@[pos as int] == '(',
                ({
                    let k = spec_skip_ws(s@, pos as int + 1);
                    k < s@.len() && s@[k] == ')'
                }) ==> (items@.len() == 0 && cursor == pos + 1),
                forall|t: Value, w: Value, close: int|
                    #![trigger prefixed(items@, t, w), list_parses_at(s@, cursor as int, t, close)]
                    prefixed(items@, t, w) && list_parses_at(s@, cursor as int, t, close)
                        ==> list_parses_at(s@, pos as int + 1, w, close),
            decreases s@.len() - cursor,
        {
            let ghost c0 = cursor as int;
            cursor = skip_ws(s, cursor);
            if cursor >= n {
                return Scan::AtEnd;
            }
            if s[cursor] == ')' {
                let ghost witness = items@;
                let ghost close = cursor as int;
                let built = Value::from_iter(items);
                proof {
                    assert(is_list_of(built, witness));
                    if witness.len() == 0 {
                        assert(built == Value::EmptyList);
                    }
                    lemma_is_list_of_prefixed(built, witness);
                    assert(spec_skip_ws(s@, close) == close);
                    assert(list_parses_at(s@, c0, Value::EmptyList, close));
                    assert(list_parses_at(s@, pos as int + 1, built, close));
                    assert(parses_at(s@, pos as int, built, close + 1));
                }
                return Scan::Hit(built, cursor + 1);
            }
            match parse_expr(s, cursor) {
                Scan::Hit(v, j) => {
                    let ghost old_items = items@;
                    let ghost k0 = cursor as int;
                    items.push(v);
                    cursor = j;
                    proof {
                        assert forall|t: Value, w: Value, close: int|
                            prefixed(items@, t, w) && list_parses_at(
                                s@,
                                cursor as int,
                                t,
                                close,
                            ) implies list_parses_at(s@, pos as int + 1, w, close) by {
                            assert(items@ == old_items.push(v));
                            lemma_prefixed_snoc(old_items, v, t, w);
                            let mid = nth_tail(w, old_items.len());
                            lemma_list_parses_bounds(s@, cursor as int, t, close);
                            assert(spec_skip_ws(s@, c0) == k0);
                            assert(pair_head(mid) == v);
                            assert(pair_tail(mid) == t);
                            assert(parses_at(s@, k0, pair_head(mid), j as int));
                            assert(list_parses_at(s@, j as int, pair_tail(mid), close));
                            lemma_list_parses_cons(s@, c0, k0, j as int, mid, close);
                        }
                    }
                },
                Scan::AtEnd => {
                    return Scan::AtEnd;
                },
                Scan::Bad(p) => {
                    return Scan::Bad(p);
                },
                Scan::Miss => {
                    return Scan::Bad(cursor);
                },
            }
        }
    }
    match scan_symbol(s, pos) {
        Scan::Hit(w, j) => {
            return Scan::Hit(Value::Symbol(w), j);
        },
        Scan::AtEnd => {
            return Scan::AtEnd;
        },
        Scan::Bad(p) => {
            return Scan::Bad(p);
        },
        Scan::Miss => {},
    }
    if s[pos] == '#' && (n - pos == 1 || (n - pos == 2 && s[pos + 1] == '\\')) {
        Scan::AtEnd
    } else {
        Scan::Bad(pos)
    }
}

/// A parse error pointing at the character found at `p`, with the token
/// categories an expression may start with.
fn issue_at(s: &Vec<char>, p: usize) -> (r: Error)
    requires
        p < s@.len(),
    ensures
        r matches Error::ParseError(issues),
{
    let mut expected: Vec<String> = Vec::new();
    expected.push(String::from_str("boolean"));
    expected.push(String::from_str("character"));
    expected.push(String::from_str("number"));
    expected.push(String::from_str("string"));
    expected.push(String::from_str("symbol"));
    expected.push(String::from_str("quote"));
    expected.push(String::from_str("list"));
    let n = s.len();
    let found = Some(s[p]);
    let issue = ParseIssue { start: p, end: p + 1, expected, found };
    let mut issues: Vec<ParseIssue> = Vec::new();
    issues.push(issue);
    Error::from_parse_errors(issues)
}

/// The distinguished error for input that ends inside a construct.
fn end_of_input_error(len: usize) -> (r: Error)
    ensures
        r == Error::UnexpectedEndOfInput,
{
    let expected: Vec<String> = Vec::new();
    let issue = ParseIssue { start: len, end: len, expected, found: None };
    let mut issues: Vec<ParseIssue> = Vec::new();
    issues.push(issue);
    proof {
        assert(exists|i: int| 0 <= i < issues@.len() && issues@[i].found is None) by {
            assert(issues@[0].found is None);
        }
    }
    Error::from_parse_errors(issues)
}

/// Read exactly one datum from the text: leading and trailing whitespace
/// is allowed, anything else after the datum is a parse error.  Atom
/// results follow the token specifications exactly (see [`atom_spec`]).
pub fn parse_one(input: &str) -> (r: Result<Value, Error>)
    ensures
        r matches Err(e) ==> (e matches Error::ParseError(issues) || e
            == Error::UnexpectedEndOfInput),
        spec_bool(input@, spec_skip_ws(input@, 0)) matches Some((b, j)) ==> (spec_skip_ws(
            input@,
            j,
        ) == input@.len() ==> r == Ok::<Value, Error>(Value::Boolean(b))),
        spec_bool(input@, spec_skip_ws(input@, 0)) is None ==> (spec_char(
            input@,
            spec_skip_ws(input@, 0),
        ) matches Some((c, j)) ==> (spec_skip_ws(input@, j) == input@.len() ==> r == Ok::<
            Value,
            Error,
        >(Value::Character(c)))),
        spec_bool(input@, spec_skip_ws(input@, 0)) is None && spec_char(
            input@,
            spec_skip_ws(input@, 0),
        ) is None ==> (spec_number(input@, spec_skip_ws(input@, 0)) matches Some((neg, ds, e, j))
            ==> (spec_skip_ws(input@, j) == input@.len() ==> (r matches Ok(v) && (v
            matches Value::Number(m) && is_normal(*m) && (*m matches Number::Finite {
            negative,
            digits,
            exponent,
        } && (negative, digits@, exponent as int) == normal_form(neg, ds, e)))))),
        spec_bool(input@, spec_skip_ws(input@, 0)) is None && spec_char(
            input@,
            spec_skip_ws(input@, 0),
        ) is None && spec_number(input@, spec_skip_ws(input@, 0)) is None ==> (spec_string(
            input@,
            spec_skip_ws(input@, 0),
        ) matches Some((t, j)) ==> (spec_skip_ws(input@, j) == input@.len() ==> (r matches Ok(v)
            && (v matches Value::Str(w) && w@ == t)))),
        spec_bool(input@, spec_skip_ws(input@, 0)) is None && spec_char(
            input@,
            spec_skip_ws(input@, 0),
        ) is None && spec_number(input@, spec_skip_ws(input@, 0)) is None && spec_string(
            input@,
            spec_skip_ws(input@, 0),
        ) is None ==> (spec_symbol(input@, spec_skip_ws(input@, 0)) matches Some((t, j)) ==> (
        spec_skip_ws(input@, j) == input@.len() ==> (r matches Ok(v) && (v matches Value::Symbol(
            w,
        ) && w@ == t)))),
        ({
            let t0 = spec_skip_ws(input@, 0);
            t0 < input@.len() && input@[t0] == '\''
        }) ==> (r matches Ok(v) ==> (v matches Value::Pair(qh, qt) && *qh matches Value::Symbol(
            qs,
        ) && *qt matches Value::Pair(x, e) && qs@ == quote_name() && *e == Value::EmptyList)),
        ({
            let t0 = spec_skip_ws(input@, 0);
            t0 < input@.len() && input@[t0] == '('
        }) ==> (r matches Ok(v) ==> exists|items: Seq<Value>| is_list_of(v, items)),
        ({
            let t0 = spec_skip_ws(input@, 0);
            t0 < input@.len() && input@[t0] == '(' && ({
                let k = spec_skip_ws(input@, t0 + 1);
                k < input@.len() && input@[k] == ')' && spec_skip_ws(input@, k + 1)
                    == input@.len()
            })
        }) ==> r == Ok::<Value, Error>(Value::EmptyList),
        r matches Ok(v) ==> exists|j: int|
            #![trigger input@.subrange(spec_skip_ws(input@, 0), j)]
            parses_at(input@, spec_skip_ws(input@, 0), v, j) && spec_skip_ws(input@, j)
                == input@.len(),
{
    let mut chars: Vec<char> = Vec::new();
    push_str_chars(input, &mut chars);
    let lo = skip_ws(&chars, 0);
    match parse_expr(&chars, lo) {
        Scan::Hit(v, j) => {
            let j2 = skip_ws(&chars, j);
            if j2 == chars.len() {
                proof {
                    assert(chars@.subrange(lo as int, j as int) == chars@.subrange(
                        lo as int,
                        j as int,
                    ));
                }
                Ok(v)
            } else {
                Err(issue_at(&chars, j2))
            }
        },
        Scan::AtEnd => Err(end_of_input_error(chars.len())),
        Scan::Bad(p) => Err(issue_at(&chars, p)),
        Scan::Miss => {
            proof {
                assert(false);
            }
            Err(end_of_input_error(chars.len()))
        },
    }
}

/// Read a whole program: datum after datum, separated by (optional)
/// whitespace, until the input ends.  All-whitespace input reads as the
/// empty program.
pub fn parse(input: &str) -> (r: Result<Vec<Value>, Error>)
    ensures
        r matches Err(e) ==> (e matches Error::ParseError(issues) || e
            == Error::UnexpectedEndOfInput),
        spec_skip_ws(input@, 0) == input@.len() ==> (r matches Ok(vs) && vs@.len() == 0),
        spec_bool(input@, spec_skip_ws(input@, 0)) matches Some((b, j)) ==> (spec_skip_ws(
            input@,
            j,
        ) == input@.len() ==> (r matches Ok(vs) && vs@.len() == 1 && vs@[0] == Value::Boolean(b))),
        spec_bool(input@, spec_skip_ws(input@, 0)) is None ==> (spec_char(
            input@,
            spec_skip_ws(input@, 0),
        ) matches Some((c, j)) ==> (spec_skip_ws(input@, j) == input@.len() ==> (r matches Ok(vs)
            && vs@.len() == 1 && vs@[0] == Value::Character(c)))),
        spec_bool(input@, spec_skip_ws(input@, 0)) is None && spec_char(
            input@,
            spec_skip_ws(input@, 0),
        ) is None ==> (spec_number(input@, spec_skip_ws(input@, 0)) matches Some((neg, ds, e, j))
            ==> (spec_skip_ws(input@, j) == input@.len() ==> (r matches Ok(vs) && vs@.len() == 1
            && (vs@[0] matches Value::Number(m) && is_normal(*m) && (*m matches Number::Finite {
            negative,
            digits,
            exponent,
        } && (negative, digits@, exponent as int) == normal_form(neg, ds, e)))))),
        spec_bool(input@, spec_skip_ws(input@, 0)) is None && spec_char(
            input@,
            spec_skip_ws(input@, 0),
        ) is None && spec_number(input@, spec_skip_ws(input@, 0)) is None ==> (spec_string(
            input@,
            spec_skip_ws(input@, 0),
        ) matches Some((t, j)) ==> (spec_skip_ws(input@, j) == input@.len() ==> (r matches Ok(vs)
            && vs@.len() == 1 && (vs@[0] matches Value::Str(w) && w@ == t)))),
        spec_bool(input@, spec_skip_ws(input@, 0)) is None && spec_char(
            input@,
            spec_skip_ws(input@, 0),
        ) is None && spec_number(input@, spec_skip_ws(input@, 0)) is None && spec_string(
            input@,
            spec_skip_ws(input@, 0),
        ) is None ==> (spec_symbol(input@, spec_skip_ws(input@, 0)) matches Some((t, j)) ==> (
        spec_skip_ws(input@, j) == input@.len() ==> (r matches Ok(vs) && vs@.len() == 1 && (vs@[0]
            matches Value::Symbol(w) && w@ == t)))),
{
    let mut chars: Vec<char> = Vec::new();
    push_str_chars(input, &mut chars);
    let n = chars.len();
    let mut out: Vec<Value> = Vec::new();
    let mut cursor = skip_ws(&chars, 0);
    while cursor < n
        invariant
            cursor <= n,
            n == chars@.len(),
            chars@ == input@,
            spec_skip_ws(input@, 0) <= cursor,
            spec_skip_ws(input@, 0) == input@.len() ==> out@.len() == 0,
            spec_bool(input@, spec_skip_ws(input@, 0)) matches Some((b, j)) ==> (spec_skip_ws(
                input@,
                j,
            ) == input@.len() ==> ((out@.len() == 0 && cursor == spec_skip_ws(input@, 0)) || (
            out@.len() == 1 && out@[0] == Value::Boolean(b) && cursor == input@.len()))),
            spec_bool(input@, spec_skip_ws(input@, 0)) is None ==> (spec_char(
                input@,
                spec_skip_ws(input@, 0),
            ) matches Some((c, j)) ==> (spec_skip_ws(input@, j) == input@.len() ==> ((out@.len()
                == 0 && cursor == spec_skip_ws(input@, 0)) || (out@.len() == 1 && out@[0]
                == Value::Character(c) && cursor == input@.len())))),
            spec_bool(input@, spec_skip_ws(input@, 0)) is None && spec_char(
                input@,
                spec_skip_ws(input@, 0),
            ) is None ==> (spec_number(input@, spec_skip_ws(input@, 0)) matches Some(
                (neg, ds, e, j),
            ) ==> (spec_skip_ws(input@, j) == input@.len() ==> ((out@.len() == 0 && cursor
                == spec_skip_ws(input@, 0)) || (out@.len() == 1 && (out@[0]
                matches Value::Number(m) && is_normal(*m) && (*m matches Number::Finite {
                negative,
                digits,
                exponent,
            } && (negative, digits@, exponent as int) == normal_form(neg, ds, e))) && cursor
                == input@.len())))),
            spec_bool(input@, spec_skip_ws(input@, 0)) is None && spec_char(
                input@,
                spec_skip_ws(input@, 0),
            ) is None && spec_number(input@, spec_skip_ws(input@, 0)) is None ==> (spec_string(
                input@,
                spec_skip_ws(input@, 0),
            ) matches Some((t, j)) ==> (spec_skip_ws(input@, j) == input@.len() ==> ((out@.len()
                == 0 && cursor == spec_skip_ws(input@, 0)) || (out@.len() == 1 && (out@[0]
                matches Value::Str(w) && w@ == t) && cursor == input@.len())))),
            spec_bool(input@, spec_skip_ws(input@, 0)) is None && spec_char(
                input@,
                spec_skip_ws(input@, 0),
            ) is None && spec_number(input@, spec_skip_ws(input@, 0)) is None && spec_string(
                input@,
                spec_skip_ws(input@, 0),
            ) is None ==> (spec_symbol(input@, spec_skip_ws(input@, 0)) matches Some((t, j)) ==> (
            spec_skip_ws(input@, j) == input@.len() ==> ((out@.len() == 0 && cursor
                == spec_skip_ws(input@, 0)) || (out@.len() == 1 && (out@[0]
                matches Value::Symbol(w) && w@ == t) && cursor == input@.len())))),
        decreases n - cursor,
    {
        match parse_expr(&chars, cursor) {
            Scan::Hit(v, j) => {
                out.push(v);
                cursor = skip_ws(&chars, j);
            },
            Scan::AtEnd => {
                return Err(end_of_input_error(n));
            },
            Scan::Bad(p) => {
                return Err(issue_at(&chars, p));
            },
            Scan::Miss => {
                return Err(issue_at(&chars, cursor));
            },
        }
    }
    Ok(out)
}

/// Reading a boolean's printed form gives the boolean back: the text
/// `render_value` produces for a boolean starts at its first character,
/// scans as a boolean token covering the whole text, and denotes the same
/// boolean.  With the contract of `parse_one`, reading the printed form of
/// `Value::Boolean(b)` yields `Ok(Value::Boolean(b))`.
pub proof fn lemma_boolean_roundtrip(b: bool)
    ensures
        spec_skip_ws(render_value(Value::Boolean(b)), 0) == 0,
        spec_bool(render_value(Value::Boolean(b)), 0) == Some(
            (b, render_value(Value::Boolean(b)).len() as int),
        ),
        spec_skip_ws(
            render_value(Value::Boolean(b)),
            render_value(Value::Boolean(b)).len() as int,
        ) == render_value(Value::Boolean(b)).len(),
{
    let s = render_value(Value::Boolean(b));
    assert(s.len() == 2);
    assert(s[0] == '#');
}

/// Reading a character's printed form gives the character back, for every
/// character: the text `#\c` scans as a character token covering the whole
/// text and denoting `c`.  With the contract of `parse_one`, reading the
/// printed form of `Value::Character(c)` yields `Ok(Value::Character(c))`.
pub proof fn lemma_character_roundtrip(c: char)
    ensures
        spec_skip_ws(render_value(Value::Character(c)), 0) == 0,
        spec_bool(render_value(Value::Character(c)), 0) is None,
        spec_char(render_value(Value::Character(c)), 0) == Some(
            (c, render_value(Value::Character(c)).len() as int),
        ),
        spec_skip_ws(
            render_value(Value::Character(c)),
            render_value(Value::Character(c)).len() as int,
        ) == render_value(Value::Character(c)).len(),
{
    let s = render_value(Value::Character(c));
    assert(s.len() == 3);
    assert(s[0] == '#' && s[1] == '\\' && s[2] == c);
}

/// A run of `k` zero digits.
pub open spec fn zero_digits(k: nat) -> Seq<u8> {
    Seq::new(k, |i: int| 0u8)
}

proof fn lemma_zeros_props(k: nat)
    ensures
        crate::number::zeros(k).len() == k,
        forall|i: int| 0 <= i < k ==> crate::number::zeros(k)[i] == '0',
    decreases k,
{
    if k > 0 {
        lemma_zeros_props((k - 1) as nat);
    }
}

proof fn lemma_digit_run(s: Seq<char>, i: int, j: int)
    requires
        0 <= i <= j <= s.len(),
        forall|k: int| i <= k < j ==> is_digit(s[k]),
        j == s.len() || !is_digit(s[j]),
    ensures
        spec_digit_end(s, i) == j,
    decreases j - i,
{
    if i < j {
        lemma_digit_run(s, i + 1, j);
    }
}

proof fn lemma_strip_zeros(ds: Seq<u8>, k: nat, e0: int)
    requires
        ds.len() >= 1,
        ds[ds.len() - 1] != 0,
    ensures
        strip_trailing(ds + zero_digits(k), e0) == (ds, e0 + k),
    decreases k,
{
    if k == 0 {
        assert(ds + zero_digits(0) =~= ds);
    } else {
        lemma_strip_zeros(ds, (k - 1) as nat, e0 + 1);
        let whole = ds + zero_digits(k);
        assert(whole.len() > 1);
        assert(whole[whole.len() - 1] == 0);
        assert(whole.drop_last() =~= ds + zero_digits((k - 1) as nat));
    }
}

proof fn lemma_drop_zeros(j: nat, ds: Seq<u8>)
    requires
        ds.len() >= 1,
        ds[0] != 0,
    ensures
        drop_leading(zero_digits(j) + ds) == ds,
    decreases j,
{
    if j == 0 {
        assert(zero_digits(0) + ds =~= ds);
        assert(drop_leading(ds) == ds);
    } else {
        lemma_drop_zeros((j - 1) as nat, ds);
        let whole = zero_digits(j) + ds;
        assert(whole.len() > 1);
        assert(whole[0] == 0);
        assert(whole.drop_first() =~= zero_digits((j - 1) as nat) + ds);
    }
}

/// Reading a number's printed form gives the number back, for every
/// normalized finite number: the text `render_number` produces scans as a
/// number token covering the whole text, and normalizing the raw sign,
/// digits and exponent it denotes yields exactly the original components.
/// With the contract of `parse_one`, reading the printed form of a
/// normalized finite number value yields that value back.
#[verifier::rlimit(100)]
#[verifier::spinoff_prover]
pub proof fn lemma_number_roundtrip(n: Number)
    requires
        is_normal(n),
        n matches Number::Finite { negative, digits, exponent },
    ensures
        ({
            let s = render_number(n);
            &&& spec_skip_ws(s, 0) == 0
            &&& spec_bool(s, 0) is None
            &&& spec_char(s, 0) is None
            &&& (spec_number(s, 0) matches Some((neg, ds, e, j)) && j == s.len() && (n
                matches Number::Finite { negative, digits, exponent } && (
            negative,
            digits@,
            exponent as int,
            ) == normal_form(neg, ds, e)))
            &&& spec_skip_ws(s, s.len() as int) == s.len()
        }),
{
    let s = render_number(n);
    match n {
        Number::Finite { negative, digits, exponent } => {
            let ds = digits@;
            let dl = ds.len() as int;
            let e = exponent as int;
            let off: int = if negative {
                1
            } else {
                0
            };
            let mag = crate::number::render_digits(ds, e);
            assert(s == if negative {
                seq!['-'] + mag
            } else {
                mag
            });
            assert(forall|k: int| off <= k < s.len() ==> s[k] == mag[k - off]);
            assert(dl >= 1);
            let zero = ds.len() == 1 && ds[0] == 0;
            assert(!zero ==> ds[0] != 0 && ds[dl - 1] != 0) by {
                if !zero {
                    if ds.len() == 1 {
                        assert(!all_zero(ds) || exponent == 0);
                        if ds[0] == 0 {
                            assert(zero);
                        }
                    }
                }
            }
            if e >= 0 {
                // the digits followed by `e` zeros
                lemma_zeros_props(e as nat);
                assert(mag.len() == dl + e);
                assert(forall|k: int|
                    off <= k < off + dl ==> s[k] == crate::number::digit_char(ds[k - off]));
                assert(forall|k: int| off + dl <= k < off + dl + e ==> s[k] == '0');
                assert(forall|k: int| off <= k < s.len() ==> is_digit(s[k])) by {
                    assert(forall|d: u8| d <= 9 ==> is_digit(#[trigger] crate::number::digit_char(d)));
                }
                lemma_digit_run(s, off, s.len() as int);
                let raw = spec_digits(s, off, s.len() as int);
                assert(raw =~= ds + zero_digits(e as nat)) by {
                    assert(forall|d: u8| d <= 9 ==> digit_of(#[trigger] crate::number::digit_char(d)) == d);
                }
                if zero {
                    assert(all_zero(ds));
                    assert(e == 0);
                    assert(raw =~= seq![0u8]);
                    assert(drop_leading(raw) == raw);
                    assert(strip_trailing(raw, 0) == (raw, 0int));
                } else {
                    assert(drop_leading(raw) == raw) by {
                        assert(raw[0] == ds[0]);
                        if raw.len() > 1 && raw[0] == 0 {
                            assert(false);
                        }
                    }
                    lemma_strip_zeros(ds, e as nat, 0);
                    assert(normal_form(negative, raw, 0) == (negative, ds, e));
                }
            } else if dl + e > 0 {
                // digits around a decimal point
                let m = dl + e;
                assert(mag == crate::number::digit_chars(ds.subrange(0, m)) + seq!['.']
                    + crate::number::digit_chars(ds.subrange(m, dl)));
                assert(mag.len() == dl + 1);
                assert(forall|k: int|
                    off <= k < off + m ==> s[k] == crate::number::digit_char(ds[k - off]));
                assert(s[off + m] == '.');
                assert(forall|k: int|
                    off + m + 1 <= k < s.len() ==> s[k] == crate::number::digit_char(
                        ds[k - off - 1],
                    ));
                assert(forall|k: int| off <= k < off + m ==> is_digit(s[k])) by {
                    assert(forall|d: u8| d <= 9 ==> is_digit(#[trigger] crate::number::digit_char(d)));
                }
                assert(!is_digit('.'));
                lemma_digit_run(s, off, off + m);
                assert(forall|k: int| off + m + 1 <= k < s.len() ==> is_digit(s[k])) by {
                    assert(forall|d: u8| d <= 9 ==> is_digit(#[trigger] crate::number::digit_char(d)));
                }
                lemma_digit_run(s, off + m + 1, s.len() as int);
                let raw = spec_digits(s, off, off + m) + spec_digits(s, off + m + 1, s.len() as int);
                assert(raw =~= ds) by {
                    assert(forall|d: u8| d <= 9 ==> digit_of(#[trigger] crate::number::digit_char(d)) == d);
                }
                assert(drop_leading(ds) == ds);
                assert(strip_trailing(ds, e) == (ds, e));
                assert(normal_form(negative, raw, e) == (negative, ds, e));
            } else {
                // a leading zero, the point, filler zeros, the digits
                let k2 = (0 - e - dl) as nat;
                lemma_zeros_props(k2);
                assert(mag == seq!['0', '.'] + crate::number::zeros(k2) + crate::number::digit_chars(
                    ds,
                ));
                assert(mag.len() == 2 + k2 + dl);
                assert(s[off] == '0');
                assert(s[off + 1] == '.');
                assert(forall|k: int| off + 2 <= k < off + 2 + k2 ==> s[k] == '0');
                assert(forall|k: int|
                    off + 2 + k2 <= k < s.len() ==> s[k] == crate::number::digit_char(
                        ds[k - off - 2 - k2],
                    ));
                assert(!is_digit('.'));
                lemma_digit_run(s, off, off + 1);
                assert(forall|k: int| off + 2 <= k < s.len() ==> is_digit(s[k])) by {
                    assert(forall|d: u8| d <= 9 ==> is_digit(#[trigger] crate::number::digit_char(d)));
                }
                lemma_digit_run(s, off + 2, s.len() as int);
                let raw = spec_digits(s, off, off + 1) + spec_digits(s, off + 2, s.len() as int);
                assert(raw =~= zero_digits((k2 + 1) as nat) + ds) by {
                    assert(forall|d: u8| d <= 9 ==> digit_of(#[trigger] crate::number::digit_char(d)) == d);
                }
                assert(!zero);
                lemma_drop_zeros((k2 + 1) as nat, ds);
                assert(strip_trailing(ds, e) == (ds, e));
                assert(normal_form(negative, raw, e) == (negative, ds, e));
            }
        },
        _ => {},
    }
}

proof fn lemma_escaped_body(s: Seq<char>, i: int, w: Seq<char>)
    requires
        0 <= i,
        i + escape_text(w).len() < s.len(),
        s.subrange(i, i + escape_text(w).len()) == escape_text(w),
        s[i + escape_text(w).len()] == '"',
    ensures
        spec_string_body(s, i) == Some((w, i + escape_text(w).len() + 1)),
    decreases w.len(),
{
    assert(forall|k: int|
        i <= k < i + escape_text(w).len() ==> s[k] == escape_text(w)[k - i]) by {
        assert(forall|k: int|
            i <= k < i + escape_text(w).len() ==> #[trigger] s[k] == s.subrange(
                i,
                i + escape_text(w).len() as int,
            )[k - i]);
    }
    if w.len() == 0 {
        assert(s[i] == '"');
    } else {
        let e0 = escape_char_out(w[0]);
        let rest = escape_text(w.drop_first());
        assert(escape_text(w) == e0 + rest);
        if w[0] == '"' || w[0] == '\\' {
            assert(s[i] == '\\');
            assert(s[i + 1] == w[0]);
            assert(s.subrange(i + 2, i + 2 + rest.len()) =~= rest);
            lemma_escaped_body(s, i + 2, w.drop_first());
            assert(escape_char(s[i + 1]) == Some(w[0]));
            assert(seq![w[0]] + w.drop_first() =~= w);
        } else {
            assert(s[i] == w[0]);
            assert(s[i] != '"' && s[i] != '\\');
            assert(s.subrange(i + 1, i + 1 + rest.len()) =~= rest);
            lemma_escaped_body(s, i + 1, w.drop_first());
            assert(seq![w[0]] + w.drop_first() =~= w);
        }
    }
}

/// Reading a string's printed form gives the string back, for every
/// string: printing escapes the two characters the reader treats
/// specially, and the reader decodes them back.
pub proof fn lemma_string_roundtrip(v: Value)
    requires
        v matches Value::Str(w),
    ensures
        ({
            let s = render_value(v);
            &&& spec_skip_ws(s, 0) == 0
            &&& spec_bool(s, 0) is None
            &&& spec_char(s, 0) is None
            &&& spec_number(s, 0) is None
            &&& (spec_string(s, 0) matches Some((t, j)) && j == s.len() && (v matches Value::Str(w)
                && t == w@))
            &&& spec_skip_ws(s, s.len() as int) == s.len()
        }),
{
    let s = render_value(v);
    match v {
        Value::Str(w) => {
            assert(s == seq!['"'] + escape_text(w@) + seq!['"']);
            assert(s[0] == '"');
            assert(s.subrange(1, 1 + escape_text(w@).len() as int) =~= escape_text(w@));
            assert(s[1 + escape_text(w@).len() as int] == '"');
            lemma_escaped_body(s, 1, w@);
        },
        _ => {},
    }
}

proof fn lemma_symbol_run(s: Seq<char>, i: int, j: int)
    requires
        0 <= i <= j <= s.len(),
        forall|k: int| i <= k < j ==> !is_symbol_break(s[k]),
        j == s.len() || is_symbol_break(s[j]),
    ensures
        spec_symbol_end(s, i) == j,
    decreases j - i,
{
    if i < j {
        lemma_symbol_run(s, i + 1, j);
    }
}

proof fn lemma_pipe_run(s: Seq<char>, i: int, j: int)
    requires
        0 <= i <= j <= s.len(),
        forall|k: int| i <= k < j ==> s[k] != '|' && s[k] != '\\',
        j == s.len() || s[j] == '|' || s[j] == '\\',
    ensures
        spec_pipe_end(s, i) == j,
    decreases j - i,
{
    if i < j {
        lemma_pipe_run(s, i + 1, j);
    }
}

/// Reading a whitespace-holding symbol's printed form gives the symbol
/// back, provided its name holds neither `|` nor `\`: printing wraps the
/// name in `|...|` and the reader takes the delimited run back unchanged.
pub proof fn lemma_symbol_piped_roundtrip(v: Value)
    requires
        v matches Value::Symbol(w) && has_space(w@) && w@.len() >= 1 && forall|k: int|
            0 <= k < w@.len() ==> w@[k] != '|' && w@[k] != '\\',
    ensures
        ({
            let s = render_value(v);
            &&& spec_skip_ws(s, 0) == 0
            &&& spec_bool(s, 0) is None
            &&& spec_char(s, 0) is None
            &&& spec_number(s, 0) is None
            &&& spec_string(s, 0) is None
            &&& (spec_symbol(s, 0) matches Some((t, j)) && j == s.len() && (v
                matches Value::Symbol(w) && t == w@))
            &&& spec_skip_ws(s, s.len() as int) == s.len()
        }),
{
    let s = render_value(v);
    match v {
        Value::Symbol(w) => {
            assert(s == seq!['|'] + w@ + seq!['|']);
            assert(s[0] == '|');
            assert(s[s.len() - 1] == '|');
            assert(forall|k: int| 1 <= k < s.len() - 1 ==> s[k] == w@[k - 1]);
            lemma_pipe_run(s, 1, s.len() - 1);
            assert(s.subrange(1, s.len() - 1) =~= w@);
        },
        _ => {},
    }
}

/// Reading a plain symbol's printed form gives the symbol back, for every
/// symbol whose name holds no whitespace, none of the characters that end
/// or open another token, and does not begin like a number.  Symbols
/// outside this class (for example a name that spells a number, or one
/// holding `|`) print as text that reads back as something else.
pub proof fn lemma_symbol_plain_roundtrip(v: Value)
    requires
        v matches Value::Symbol(w) && !has_space(w@) && w@.len() >= 1 && (forall|k: int|
            0 <= k < w@.len() ==> !is_symbol_break(w@[k])) && !is_digit(w@[0]) && w@[0] != '-'
            && w@[0] != '.',
    ensures
        ({
            let s = render_value(v);
            &&& spec_skip_ws(s, 0) == 0
            &&& spec_bool(s, 0) is None
            &&& spec_char(s, 0) is None
            &&& spec_number(s, 0) is None
            &&& spec_string(s, 0) is None
            &&& (spec_symbol(s, 0) matches Some((t, j)) && j == s.len() && (v
                matches Value::Symbol(w) && t == w@))
            &&& spec_skip_ws(s, s.len() as int) == s.len()
        }),
{
    let s = render_value(v);
    match v {
        Value::Symbol(w) => {
            assert(s == w@);
            lemma_symbol_run(s, 0, s.len() as int);
            assert(s.subrange(0, s.len() as int) =~= w@);
        },
        _ => {},
    }
}

} // verus!
