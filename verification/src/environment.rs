//! The environment: a stack of name-to-value scopes implementing lexical
//! lookup, shadowing, and scope lifetime.
//!
//! Lookup walks the scopes from innermost (last) to outermost; binding
//! touches only the innermost scope, which is how a `define` inside a
//! procedure body stays local.  The evaluator drives the stack with
//! `new_scope`, `depth` and `restore`, its frame allocation and teardown.

use vstd::prelude::*;

verus! {

use crate::value::Value;
use crate::value::str_eq;
use crate::error::Error;
use crate::builtin::builtins;
use vstd::pervasive::VecAdditionalExecFns;

/// A stack of scopes, innermost last.  Each scope is a list of bindings in
/// which the latest binding of a name wins.
pub struct Environment {
    pub frames: Vec<Vec<(String, Value)>>,
}

/// The value bound to `name` in one scope: the latest binding wins.
pub open spec fn scope_lookup(frame: Seq<(String, Value)>, name: Seq<char>) -> Option<Value>
    decreases frame.len(),
{
    if frame.len() == 0 {
        None
    } else if frame.last().0@ == name {
        Some(frame.last().1)
    } else {
        scope_lookup(frame.drop_last(), name)
    }
}

/// The value `name` resolves to: the first match found walking the scopes
/// from innermost (last) to outermost.
pub open spec fn env_lookup(frames: Seq<Vec<(String, Value)>>, name: Seq<char>) -> Option<Value>
    decreases frames.len(),
{
    if frames.len() == 0 {
        None
    } else {
        match scope_lookup(frames.last()@, name) {
            Some(v) => Some(v),
            None => env_lookup(frames.drop_last(), name),
        }
    }
}

proof fn lemma_scope_lookup_update(frame: Seq<(String, Value)>, j: int, value: Value)
    requires
        0 <= j < frame.len(),
        forall|k: int| j < k < frame.len() ==> frame[k].0@ != frame[j].0@,
    ensures
        scope_lookup(frame.update(j, (frame[j].0, value)), frame[j].0@) == Some(value),
        forall|n: Seq<char>|
            n != frame[j].0@ ==> scope_lookup(frame.update(j, (frame[j].0, value)), n)
                == scope_lookup(frame, n),
    decreases frame.len(),
{
    let updated = frame.update(j, (frame[j].0, value));
    if j == frame.len() - 1 {
        assert(updated.last().0@ == frame[j].0@);
        assert(updated.drop_last() =~= frame.drop_last());
    } else {
        assert(updated.last() == frame.last());
        assert(updated.drop_last() =~= frame.drop_last().update(j, (frame[j].0, value)));
        assert(frame.drop_last()[j] == frame[j]);
        lemma_scope_lookup_update(frame.drop_last(), j, value);
    }
    assert forall|n: Seq<char>|
        n != frame[j].0@ implies scope_lookup(updated, n) == scope_lookup(frame, n) by {
        if j == frame.len() - 1 {
            assert(scope_lookup(updated, n) == scope_lookup(updated.drop_last(), n));
            assert(scope_lookup(frame, n) == scope_lookup(frame.drop_last(), n));
        } else {
            let du = frame.drop_last().update(j, (frame[j].0, value));
            assert(scope_lookup(du, n) == scope_lookup(frame.drop_last(), n));
            if updated.last().0@ == n {
                assert(scope_lookup(updated, n) == Some(updated.last().1));
                assert(scope_lookup(frame, n) == Some(frame.last().1));
            } else {
                assert(scope_lookup(updated, n) == scope_lookup(updated.drop_last(), n));
                assert(scope_lookup(frame, n) == scope_lookup(frame.drop_last(), n));
            }
        }
    }
}

impl Environment {
    /// Bind `name` to `value` in the innermost scope only, replacing any
    /// earlier binding of the same name there; outer scopes are untouched.
    pub fn bind(&mut self, name: &str, value: Value)
        requires
            old(self).frames@.len() > 0,
        ensures
            final(self).frames@.len() == old(self).frames@.len(),
            forall|i: int|
                0 <= i < old(self).frames@.len() - 1 ==> final(self).frames@[i] == old(
                    self,
                ).frames@[i],
            scope_lookup(final(self).frames@.last()@, name@) == Some(value),
            forall|n: Seq<char>|
                n != name@ ==> scope_lookup(final(self).frames@.last()@, n) == scope_lookup(
                    old(self).frames@.last()@,
                    n,
                ),
    {
        let mut frame = match self.frames.pop() {
            Some(f) => f,
            None => {
                proof {
                    assert(false);
                }
                Vec::new()
            },
        };
        let ghost popped = self.frames@;
        scope_bind(&mut frame, name, value);
        self.frames.push(frame);
        proof {
            assert(self.frames@.drop_last() =~= popped);
            assert(forall|i: int|
                0 <= i < old(self).frames@.len() - 1 ==> self.frames@[i] == old(self).frames@[i]);
        }
    }

    /// Resolve `name`, innermost scope first; fail with the
    /// undefined-variable error when no scope binds it.
    pub fn get(&self, name: &str) -> (r: Result<Value, Error>)
        ensures
            match env_lookup(self.frames@, name@) {
                Some(v) => r == Ok::<Value, Error>(v),
                None => r matches Err(e) && e matches Error::UndefinedVariable(s) && s@ == name@,
            },
    {
        let depth = self.frames.len();
        let mut fi: usize = depth;
        proof {
            assert(self.frames@.subrange(0, depth as int) =~= self.frames@);
        }
        while fi > 0
            invariant
                fi <= depth,
                depth == self.frames@.len(),
                env_lookup(self.frames@, name@) == env_lookup(
                    self.frames@.subrange(0, fi as int),
                    name@,
                ),
            decreases fi,
        {
            fi = fi - 1;
            let frame = &self.frames[fi];
            let len = frame.len();
            let mut j: usize = len;
            proof {
                assert(frame@.subrange(0, len as int) =~= frame@);
            }
            while j > 0
                invariant
                    j <= len,
                    len == frame@.len(),
                    fi < self.frames@.len(),
                    frame@ == self.frames@[fi as int]@,
                    env_lookup(self.frames@, name@) == env_lookup(
                        self.frames@.subrange(0, fi as int + 1),
                        name@,
                    ),
                    scope_lookup(frame@, name@) == scope_lookup(
                        frame@.subrange(0, j as int),
                        name@,
                    ),
                decreases j,
            {
                j = j - 1;
                if str_eq(frame[j].0.as_str(), name) {
                    proof {
                        let sub = frame@.subrange(0, j as int + 1);
                        assert(sub.last() == frame@[j as int]);
                    }
                    return Ok(frame[j].1.clone());
                }
                proof {
                    let sub = frame@.subrange(0, j as int + 1);
                    assert(sub.last() == frame@[j as int]);
                    assert(sub.drop_last() =~= frame@.subrange(0, j as int));
                }
            }
            proof {
                let outer = self.frames@.subrange(0, fi as int + 1);
                assert(outer.last() == self.frames@[fi as int]);
                assert(outer.drop_last() =~= self.frames@.subrange(0, fi as int));
                assert(scope_lookup(frame@.subrange(0, 0), name@) is None);
            }
        }
        Err(Error::UndefinedVariable(name.to_owned()))
    }

    /// Open a fresh, empty innermost scope.
    pub fn new_scope(&mut self)
        ensures
            final(self).frames@.len() == old(self).frames@.len() + 1,
            forall|i: int|
                0 <= i < old(self).frames@.len() ==> final(self).frames@[i] == old(
                    self,
                ).frames@[i],
            final(self).frames@.last()@ == Seq::<(String, Value)>::empty(),
    {
        self.frames.push(Vec::new());
    }

    /// The number of scopes on the stack.
    pub fn depth(&self) -> (r: usize)
        ensures
            r == self.frames@.len(),
    {
        self.frames.len()
    }

    /// Discard every scope above the given depth, undoing `new_scope`
    /// calls made since the depth was recorded.
    pub fn restore(&mut self, depth: usize)
        ensures
            depth <= old(self).frames@.len() ==> final(self).frames@ == old(
                self,
            ).frames@.subrange(0, depth as int),
            depth > old(self).frames@.len() ==> final(self).frames@ == old(self).frames@,
    {
        self.frames.truncate(depth);
    }
}

/// Bind `name` to `value` in one scope, replacing any earlier binding of
/// the same name there.
fn scope_bind(frame: &mut Vec<(String, Value)>, name: &str, value: Value)
    ensures
        scope_lookup(final(frame)@, name@) == Some(value),
        forall|n: Seq<char>|
            n != name@ ==> scope_lookup(final(frame)@, n) == scope_lookup(old(frame)@, n),
{
    let len = frame.len();
    let mut j: usize = len;
    while j > 0
        invariant
            j <= len,
            len == frame@.len(),
            frame@ == old(frame)@,
            forall|k: int| j <= k < len ==> frame@[k].0@ != name@,
        decreases j,
    {
        j = j - 1;
        if str_eq(frame[j].0.as_str(), name) {
            let ghost before = frame@;
            let key = frame[j].0.clone();
            frame.set(j, (key, value));
            proof {
                assert(frame@ =~= before.update(j as int, (before[j as int].0, value)));
                lemma_scope_lookup_update(before, j as int, value);
            }
            return ;
        }
    }
    let ghost before = frame@;
    frame.push((name.to_owned(), value));
    proof {
        assert(frame@.last().0@ == name@);
        assert(frame@.drop_last() =~= before);
        assert forall|n: Seq<char>|
            n != name@ implies scope_lookup(frame@, n) == scope_lookup(before, n) by {
            assert(scope_lookup(frame@, n) == scope_lookup(frame@.drop_last(), n));
        }
    }
}

proof fn lemma_scope_lookup_absent(frame: Seq<(String, Value)>, name: Seq<char>)
    requires
        forall|k: int| 0 <= k < frame.len() ==> frame[k].0@ != name,
    ensures
        scope_lookup(frame, name) is None,
    decreases frame.len(),
{
    if frame.len() > 0 {
        lemma_scope_lookup_absent(frame.drop_last(), name);
    }
}

impl Default for Environment {
    /// An environment with one bottom scope pre-populated from the
    /// primitive registry's base names.
    fn default() -> (r: Self)
        ensures
            r.frames@.len() == 1,
            r.frames@[0]@.len() == crate::builtin::builtin_names().len(),
            forall|i: int|
                0 <= i < crate::builtin::builtin_names().len() ==> r.frames@[0]@[i].0@
                    == crate::builtin::builtin_names()[i] && (r.frames@[0]@[i].1
                    matches Value::PrimitiveProcedure(n) && n@
                    == crate::builtin::builtin_names()[i]),
    {
        let bottom = builtins();
        let mut frames: Vec<Vec<(String, Value)>> = Vec::new();
        frames.push(bottom);
        proof {
            assert(frames@.len() == 1);
        }
        Environment { frames }
    }
}

} // verus!
