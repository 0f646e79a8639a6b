//! The closed set of error kinds.  Every operation that can fail returns one
//! of these explicitly; evaluation stops at the first failure and hands it to
//! the caller unchanged.

use vstd::prelude::*;

verus! {

use crate::value::{Value, render_value, push_str_chars, chars_to_string, render_value_into};
use crate::number::{digit_chars, nat_digits, push_digits};

/// One problem found by the reader: the span of input it covers, the token
/// categories that would have been acceptable there, and the character
/// actually found (`None` when the input ended instead).
#[derive(Debug, Clone, PartialEq)]
pub struct ParseIssue {
    pub start: usize,
    pub end: usize,
    pub expected: Vec<String>,
    pub found: Option<char>,
}

/// Everything that can go wrong while reading or evaluating.
#[derive(Debug, Clone, PartialEq)]
pub enum Error {
    /// A symbol was looked up and no scope binds it.
    UndefinedVariable(String),
    /// `()` was evaluated; there is nothing to apply.
    EmptyApplication,
    /// A lambda was built with no body expressions.
    EmptyProcedure,
    /// The head of an application evaluated to a non-procedure.
    ExpectedProcedure(Value),
    /// A sub-expression had to produce a value but produced `Void`.
    ExpectedValue(Value),
    /// A closure was applied to the wrong number of arguments
    /// (expected, received).
    IncorrectArity(usize, usize),
    /// A value of the named kind was required (kind, offending value).
    TypeMismatch(String, Value),
    /// List iteration ran into a non-pair, non-empty tail.
    ExpectedList(Value),
    /// A string index was past the end.
    IndexOutOfBounds(usize),
    /// The input ended before a construct was complete.
    UnexpectedEndOfInput,
    /// The reader rejected the input at the recorded places.
    ParseError(Vec<ParseIssue>),
    /// The evaluator's step budget ran out.  The budget is astronomically
    /// large; this kind exists so that the evaluator is a total function,
    /// and no practical program reaches it.
    StepLimitReached,
}

impl Error {
    /// Bundle the reader's problems into one error: the distinguished
    /// end-of-input error if any problem was a premature end, otherwise a
    /// parse error carrying every recorded problem.
    pub fn from_parse_errors(parse_errors: Vec<ParseIssue>) -> (r: Error)
        ensures
            (exists|i: int|
                0 <= i < parse_errors@.len() && parse_errors@[i].found is None) ==> r
                == Error::UnexpectedEndOfInput,
            (forall|i: int|
                0 <= i < parse_errors@.len() ==> parse_errors@[i].found is Some) ==> r
                == Error::ParseError(parse_errors),
    {
        let n = parse_errors.len();
        let mut i: usize = 0;
        while i < n
            invariant
                i <= n,
                n == parse_errors@.len(),
                forall|j: int| 0 <= j < i ==> parse_errors@[j].found is Some,
            decreases n - i,
        {
            if parse_errors[i].found.is_none() {
                return Error::UnexpectedEndOfInput;
            }
            i = i + 1;
        }
        Error::ParseError(parse_errors)
    }
}

/// The text of a span, written `start..end`.
pub open spec fn render_span(start: nat, end: nat) -> Seq<char> {
    digit_chars(nat_digits(start)) + ".."@ + digit_chars(nat_digits(end))
}

/// The debug-style list of expected token categories: quoted, comma
/// separated, bracketed.
pub open spec fn render_expected(items: Seq<String>) -> Seq<char>
    decreases items.len(),
{
    if items.len() == 0 {
        Seq::empty()
    } else if items.len() == 1 {
        seq!['"'] + items[0]@ + seq!['"']
    } else {
        seq!['"'] + items[0]@ + seq!['"'] + ", "@ + render_expected(items.drop_first())
    }
}

/// The report line of one reader problem.
pub open spec fn render_issue(i: ParseIssue) -> Seq<char> {
    match i.found {
        Some(c) => {
            if i.expected@.len() == 0 {
                "unexpected '"@ + seq![c] + "' at "@ + render_span(i.start as nat, i.end as nat)
                    + seq!['\n']
            } else {
                "expected one of ["@ + render_expected(i.expected@) + "] at "@ + render_span(
                    i.start as nat,
                    i.end as nat,
                ) + " but found '"@ + seq![c] + "'"@ + seq!['\n']
            }
        },
        None => "unexpected end of input"@ + seq!['\n'],
    }
}

/// The report lines of a run of reader problems, in order.
pub open spec fn render_issues(issues: Seq<ParseIssue>) -> Seq<char>
    decreases issues.len(),
{
    if issues.len() == 0 {
        Seq::empty()
    } else {
        render_issue(issues[0]) + render_issues(issues.drop_first())
    }
}

/// The message of an error, as the boundary prints it.
pub open spec fn render_error(e: Error) -> Seq<char> {
    match e {
        Error::UndefinedVariable(name) => "variable `"@ + name@ + "` is unbound"@,
        Error::EmptyApplication => "cannot evaluate empty application `()`"@,
        Error::EmptyProcedure => "procedure body cannot be empty"@,
        Error::ExpectedProcedure(v) => "expected a procedure in application but found `"@
            + render_value(v) + seq!['`'],
        Error::ExpectedValue(v) => "expected a value, but found `"@ + render_value(v) + seq!['`'],
        Error::IncorrectArity(expected, received) => "expected "@ + digit_chars(
            nat_digits(expected as nat),
        ) + " arguments, but found "@ + digit_chars(nat_digits(received as nat)),
        Error::TypeMismatch(kind, v) => "expected an value of type '"@ + kind@
            + "', but found `"@ + render_value(v) + seq!['`'],
        Error::ExpectedList(v) => "expected a list, but found `"@ + render_value(v) + seq!['`'],
        Error::IndexOutOfBounds(idx) => "index "@ + digit_chars(nat_digits(idx as nat))
            + " out of bounds"@,
        Error::UnexpectedEndOfInput => "unexpected end of input"@,
        Error::ParseError(issues) => render_issues(issues@),
        Error::StepLimitReached => "evaluation step budget exhausted"@,
    }
}

/// Append the decimal digits of an index.
fn push_usize_text(n: usize, out: &mut Vec<char>)
    ensures
        final(out)@ == old(out)@ + digit_chars(nat_digits(n as nat)),
{
    let mut ds: Vec<u8> = Vec::new();
    push_digits(n as u64, &mut ds);
    let k = ds.len();
    let mut i: usize = 0;
    proof {
        assert(ds@ =~= nat_digits(n as nat));
        assert(out@ =~= old(out)@ + digit_chars(ds@.subrange(0, 0)));
    }
    while i < k
        invariant
            i <= k,
            k == ds@.len(),
            ds@ == nat_digits(n as nat),
            out@ == old(out)@ + digit_chars(ds@.subrange(0, i as int)),
        decreases k - i,
    {
        let d = ds[i];
        let c = ((d as u32 + 48) as u8) as char;
        out.push(c);
        i = i + 1;
        proof {
            assert(out@ =~= old(out)@ + digit_chars(ds@.subrange(0, i as int)));
        }
    }
    proof {
        assert(ds@.subrange(0, k as int) =~= ds@);
    }
}

impl Error {
    /// The message of this error, per [`render_error`].
    pub fn render(&self) -> (r: String)
        ensures
            r@ == render_error(*self),
    {
        let mut out: Vec<char> = Vec::new();
        match self {
            Error::UndefinedVariable(name) => {
                push_str_chars("variable `", &mut out);
                push_str_chars(name.as_str(), &mut out);
                push_str_chars("` is unbound", &mut out);
                proof {
                    assert(out@ =~= render_error(*self));
                }
            },
            Error::EmptyApplication => {
                push_str_chars("cannot evaluate empty application `()`", &mut out);
            },
            Error::EmptyProcedure => {
                push_str_chars("procedure body cannot be empty", &mut out);
            },
            Error::ExpectedProcedure(v) => {
                push_str_chars("expected a procedure in application but found `", &mut out);
                render_value_into(v, &mut out);
                out.push('`');
                proof {
                    assert(out@ =~= render_error(*self));
                }
            },
            Error::ExpectedValue(v) => {
                push_str_chars("expected a value, but found `", &mut out);
                render_value_into(v, &mut out);
                out.push('`');
                proof {
                    assert(out@ =~= render_error(*self));
                }
            },
            Error::IncorrectArity(expected, received) => {
                push_str_chars("expected ", &mut out);
                push_usize_text(*expected, &mut out);
                push_str_chars(" arguments, but found ", &mut out);
                push_usize_text(*received, &mut out);
                proof {
                    assert(out@ =~= render_error(*self));
                }
            },
            Error::TypeMismatch(kind, v) => {
                push_str_chars("expected an value of type '", &mut out);
                push_str_chars(kind.as_str(), &mut out);
                push_str_chars("', but found `", &mut out);
                render_value_into(v, &mut out);
                out.push('`');
                proof {
                    assert(out@ =~= render_error(*self));
                }
            },
            Error::ExpectedList(v) => {
                push_str_chars("expected a list, but found `", &mut out);
                render_value_into(v, &mut out);
                out.push('`');
                proof {
                    assert(out@ =~= render_error(*self));
                }
            },
            Error::IndexOutOfBounds(idx) => {
                push_str_chars("index ", &mut out);
                push_usize_text(*idx, &mut out);
                push_str_chars(" out of bounds", &mut out);
                proof {
                    assert(out@ =~= render_error(*self));
                }
            },
            Error::UnexpectedEndOfInput => {
                push_str_chars("unexpected end of input", &mut out);
            },
            Error::ParseError(issues) => {
                let n = issues.len();
                let mut i: usize = 0;
                proof {
                    assert(out@ =~= render_issues(issues@.subrange(0, 0)));
                }
                while i < n
                    invariant
                        i <= n,
                        n == issues@.len(),
                        out@ == render_issues(issues@.subrange(0, i as int)),
                    decreases n - i,
                {
                    push_issue_chars(&issues[i], &mut out);
                    i = i + 1;
                    proof {
                        lemma_render_issues_snoc(issues@.subrange(0, i as int));
                        assert(issues@.subrange(0, i as int).drop_last() =~= issues@.subrange(
                            0,
                            i as int - 1,
                        ));
                    }
                }
                proof {
                    assert(issues@.subrange(0, n as int) =~= issues@);
                }
            },
            Error::StepLimitReached => {
                push_str_chars("evaluation step budget exhausted", &mut out);
            },
        }
        chars_to_string(&out)
    }
}

/// Adding one problem to the end of a run appends its line.
proof fn lemma_render_issues_snoc(issues: Seq<ParseIssue>)
    requires
        issues.len() > 0,
    ensures
        render_issues(issues) == render_issues(issues.drop_last()) + render_issue(issues.last()),
    decreases issues.len(),
{
    if issues.len() == 1 {
        assert(render_issues(issues.drop_first()) == Seq::<char>::empty());
        assert(render_issues(issues.drop_last()) == Seq::<char>::empty());
        assert(render_issue(issues[0]) + Seq::<char>::empty() =~= Seq::<char>::empty()
            + render_issue(issues[0]));
        assert(Seq::<char>::empty() + render_issue(issues[0]) =~= render_issue(issues[0]));
        assert(render_issues(issues) =~= render_issues(issues.drop_last()) + render_issue(
            issues.last(),
        ));
    } else {
        lemma_render_issues_snoc(issues.drop_first());
        assert(issues.drop_first().drop_last() =~= issues.drop_last().drop_first());
        assert(issues.drop_first().last() == issues.last());
        assert(issues.drop_last()[0] == issues[0]);
        assert(render_issue(issues[0]) + (render_issues(issues.drop_first().drop_last())
            + render_issue(issues.last())) =~= (render_issue(issues[0]) + render_issues(
            issues.drop_last().drop_first(),
        )) + render_issue(issues.last()));
    }
}

/// Append one problem's report line, per [`render_issue`].
fn push_issue_chars(issue: &ParseIssue, out: &mut Vec<char>)
    ensures
        final(out)@ == old(out)@ + render_issue(*issue),
{
    match &issue.found {
        Some(c) => {
            if issue.expected.len() == 0 {
                push_str_chars("unexpected '", out);
                out.push(*c);
                push_str_chars("' at ", out);
                push_usize_text(issue.start, out);
                push_str_chars("..", out);
                push_usize_text(issue.end, out);
                out.push('\n');
                proof {
                    assert(out@ =~= old(out)@ + render_issue(*issue));
                }
            } else {
                push_str_chars("expected one of [", out);
                push_expected_chars(&issue.expected, out);
                push_str_chars("] at ", out);
                push_usize_text(issue.start, out);
                push_str_chars("..", out);
                push_usize_text(issue.end, out);
                push_str_chars(" but found '", out);
                out.push(*c);
                out.push('\'');
                out.push('\n');
                proof {
                    reveal_strlit("'");
                    assert("'"@ =~= seq!['\'']);
                    assert(out@ =~= old(out)@ + render_issue(*issue));
                }
            }
        },
        None => {
            push_str_chars("unexpected end of input", out);
            out.push('\n');
            proof {
                assert(out@ =~= old(out)@ + render_issue(*issue));
            }
        },
    }
}

/// Append the quoted, comma-separated category names, per
/// [`render_expected`].
fn push_expected_chars(items: &Vec<String>, out: &mut Vec<char>)
    ensures
        final(out)@ == old(out)@ + render_expected(items@),
{
    let n = items.len();
    let mut i: usize = 0;
    proof {
        assert(items@.skip(0) =~= items@);
    }
    while i < n
        invariant
            i <= n,
            n == items@.len(),
            out@ + render_expected(items@.skip(i as int)) == old(out)@ + render_expected(items@),
        decreases n - i,
    {
        let ghost before = out@;
        out.push('"');
        push_str_chars(items[i].as_str(), out);
        out.push('"');
        if i + 1 < n {
            push_str_chars(", ", out);
        }
        i = i + 1;
        proof {
            assert(items@.skip(i as int - 1)[0] == items@[i as int - 1]);
            assert(items@.skip(i as int - 1).drop_first() =~= items@.skip(i as int));
            if i < n {
                assert(before + (seq!['"'] + items@[i as int - 1]@ + seq!['"'] + ", "@
                    + render_expected(items@.skip(i as int))) =~= out@ + render_expected(
                    items@.skip(i as int),
                ));
            } else {
                assert(before + (seq!['"'] + items@[i as int - 1]@ + seq!['"']) =~= out@
                    + render_expected(items@.skip(i as int)));
            }
        }
    }
    proof {
        assert(render_expected(items@.skip(n as int)) =~= Seq::<char>::empty());
        assert(out@ + Seq::<char>::empty() =~= out@);
        assert(old(out)@ + render_expected(items@) =~= out@);
    }
}

} // verus!
