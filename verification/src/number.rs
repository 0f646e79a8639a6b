//! The numeric atom of the language.
//!
//! A number is kept as a sign, a sequence of decimal digits, and a decimal
//! exponent, together with the two non-finite shapes that arithmetic on the
//! host side can produce (infinities and the not-a-number value).  The digit
//! form is normalized by the constructors here: no leading digit zero, no
//! trailing digit zero (trailing zeros are folded into the exponent), and the
//! number zero is the single digit `0` with exponent zero.  Two normalized
//! finite numbers are numerically equal exactly when their components agree,
//! with the one exception of zero, whose sign is ignored by equality.
//!
//! The decimal form is exact where a binary host float rounds.  Values
//! produced by host arithmetic re-enter through the float's shortest
//! printed form, on which this equality coincides with the float's own;
//! a numeric literal written with more digits than a host float carries
//! is kept exactly, and so is distinguished from the literal it would
//! round to.

use vstd::prelude::*;

verus! {

/// A numeric value: `digits * 10^exponent` with an optional minus sign,
/// or an infinity, or the not-a-number value.
#[derive(Debug, PartialEq)]
pub enum Number {
    Finite { negative: bool, digits: Vec<u8>, exponent: i128 },
    Infinite { negative: bool },
    NotANumber,
}

/// Every entry of the digit sequence is a decimal digit.
pub open spec fn digits_wf(ds: Seq<u8>) -> bool {
    forall|i: int| 0 <= i < ds.len() ==> ds[i] <= 9
}

/// Every entry of the digit sequence is zero.
pub open spec fn all_zero(ds: Seq<u8>) -> bool {
    forall|i: int| 0 <= i < ds.len() ==> ds[i] == 0
}

/// A digit sequence in normal form: non-empty, and with neither a leading
/// nor a trailing zero unless it is the single digit `0`.
pub open spec fn is_normal_digits(ds: Seq<u8>) -> bool {
    ds.len() > 0 && (ds.len() == 1 || (ds[0] != 0 && ds[ds.len() - 1] != 0))
}

/// The number is in the normal form that the constructors of this module
/// establish.
pub open spec fn is_normal(n: Number) -> bool {
    match n {
        Number::Finite { negative, digits, exponent } => {
            &&& digits_wf(digits@)
            &&& is_normal_digits(digits@)
            &&& (all_zero(digits@) ==> exponent == 0)
        },
        _ => true,
    }
}

/// Drop leading zeros, always keeping at least one digit.
pub open spec fn drop_leading(ds: Seq<u8>) -> Seq<u8>
    decreases ds.len(),
{
    if ds.len() > 1 && ds[0] == 0 {
        drop_leading(ds.drop_first())
    } else {
        ds
    }
}

/// Fold trailing zeros into the exponent, always keeping at least one digit.
pub open spec fn strip_trailing(ds: Seq<u8>, e: int) -> (Seq<u8>, int)
    decreases ds.len(),
{
    if ds.len() > 1 && ds[ds.len() - 1] == 0 {
        strip_trailing(ds.drop_last(), e + 1)
    } else {
        (ds, e)
    }
}

/// The normal form of a finite number given by raw components.
pub open spec fn normal_form(negative: bool, ds: Seq<u8>, e: int) -> (bool, Seq<u8>, int) {
    let kept = strip_trailing(drop_leading(ds), e);
    if kept.0.len() == 1 && kept.0[0] == 0 {
        (negative, kept.0, 0)
    } else {
        (negative, kept.0, kept.1)
    }
}

/// Numeric equality of two numbers, as the `eq?` procedure sees them:
/// not-a-number equals nothing, infinities compare by sign, zero equals
/// zero whatever its sign, and other finite numbers compare componentwise
/// (exact on normalized representations).
pub open spec fn num_eq(a: Number, b: Number) -> bool {
    match (a, b) {
        (
            Number::Finite { negative: n1, digits: d1, exponent: e1 },
            Number::Finite { negative: n2, digits: d2, exponent: e2 },
        ) => (all_zero(d1@) && all_zero(d2@)) || (n1 == n2 && d1@ == d2@ && e1 == e2),
        (Number::Infinite { negative: n1 }, Number::Infinite { negative: n2 }) => n1 == n2,
        _ => false,
    }
}

/// True exactly when the two digit vectors hold the same sequence.
fn digits_same(a: &Vec<u8>, b: &Vec<u8>) -> (r: bool)
    ensures
        r == (a@ == b@),
{
    if a.len() != b.len() {
        proof {
            assert(a@ != b@);
        }
        return false;
    }
    let n = a.len();
    let mut i: usize = 0;
    while i < n
        invariant
            i <= n,
            n == a@.len() && n == b@.len(),
            forall|j: int| 0 <= j < i ==> a@[j] == b@[j],
        decreases n - i,
    {
        if a[i] != b[i] {
            return false;
        }
        i = i + 1;
    }
    proof {
        assert(a@ =~= b@);
    }
    true
}

/// True exactly when every digit of the vector is zero.
fn digits_zero(a: &Vec<u8>) -> (r: bool)
    ensures
        r == all_zero(a@),
{
    let n = a.len();
    let mut i: usize = 0;
    while i < n
        invariant
            i <= n,
            n == a@.len(),
            forall|j: int| 0 <= j < i ==> a@[j] == 0,
        decreases n - i,
    {
        if a[i] != 0 {
            return false;
        }
        i = i + 1;
    }
    true
}

/// `b` is `a` with its sign cleared: the relation `abs` computes.
pub open spec fn abs_rel(a: Number, b: Number) -> bool {
    match a {
        Number::Finite { negative, digits, exponent } => b matches Number::Finite {
            negative: n2,
            digits: d2,
            exponent: e2,
        } && n2 == false && d2@ == digits@ && e2 == exponent,
        Number::Infinite { negative } => b == (Number::Infinite { negative: false }),
        Number::NotANumber => b == Number::NotANumber,
    }
}

impl Number {
    /// Decide numeric equality, as defined by [`num_eq`].
    pub fn eq_number(&self, other: &Number) -> (r: bool)
        ensures
            r == num_eq(*self, *other),
    {
        match (self, other) {
            (
                Number::Finite { negative: n1, digits: d1, exponent: e1 },
                Number::Finite { negative: n2, digits: d2, exponent: e2 },
            ) => {
                if digits_zero(d1) && digits_zero(d2) {
                    true
                } else {
                    *n1 == *n2 && digits_same(d1, d2) && *e1 == *e2
                }
            },
            (Number::Infinite { negative: n1 }, Number::Infinite { negative: n2 }) => *n1 == *n2,
            _ => false,
        }
    }

    /// The number with the same magnitude and a cleared sign, as the `abs`
    /// procedure computes it.
    pub fn abs_number(&self) -> (r: Number)
        ensures
            match *self {
                Number::Finite { negative, digits, exponent } => (r matches Number::Finite {
                    negative: n2,
                    digits: d2,
                    exponent: e2,
                } && n2 == false && d2@ == digits@ && e2 == exponent),
                Number::Infinite { negative } => r == (Number::Infinite { negative: false }),
                Number::NotANumber => r == Number::NotANumber,
            },
            abs_rel(*self, r),
            is_normal(*self) ==> is_normal(r),
    {
        match self {
            Number::Finite { negative, digits, exponent } => {
                let ds = digits.clone();
                proof {
                    assert(ds@ =~= digits@);
                }
                Number::Finite { negative: false, digits: ds, exponent: *exponent }
            },
            Number::Infinite { negative } => Number::Infinite { negative: false },
            Number::NotANumber => Number::NotANumber,
        }
    }

    /// Normalize raw components into a finite number.
    pub fn from_parts(negative: bool, digits: Vec<u8>, exponent: i128) -> (r: Number)
        requires
            digits@.len() > 0,
            digits_wf(digits@),
            exponent + digits@.len() < i128::MAX,
        ensures
            r matches Number::Finite { negative: n2, digits: d2, exponent: e2 }
                && (n2, d2@, e2 as int) == normal_form(negative, digits@, exponent as int),
            is_normal(r),
    {
        let len = digits.len();
        let mut start: usize = 0;
        proof {
            assert(digits@.subrange(0, len as int) =~= digits@);
        }
        while start + 1 < len && digits[start] == 0
            invariant
                start < len,
                len == digits@.len(),
                drop_leading(digits@) == drop_leading(digits@.subrange(start as int, len as int)),
            decreases len - start,
        {
            proof {
                let sub = digits@.subrange(start as int, len as int);
                assert(sub.drop_first() =~= digits@.subrange(start as int + 1, len as int));
            }
            start = start + 1;
        }
        proof {
            assert(drop_leading(digits@) == digits@.subrange(start as int, len as int));
        }
        let ghost led = digits@.subrange(start as int, len as int);
        let mut end: usize = len;
        let mut e: i128 = exponent;
        while end - start > 1 && digits[end - 1] == 0
            invariant
                start < end <= len,
                len == digits@.len(),
                e == exponent + (len - end),
                exponent + digits@.len() < i128::MAX,
                led == digits@.subrange(start as int, len as int),
                drop_leading(digits@) == led,
                strip_trailing(led, exponent as int) == strip_trailing(
                    digits@.subrange(start as int, end as int),
                    e as int,
                ),
            decreases end - start,
        {
            proof {
                let cur = digits@.subrange(start as int, end as int);
                assert(cur.drop_last() =~= digits@.subrange(start as int, end as int - 1));
            }
            e = e + 1;
            end = end - 1;
        }
        proof {
            let cur = digits@.subrange(start as int, end as int);
            assert(strip_trailing(cur, e as int) == (cur, e as int));
        }
        let mut out: Vec<u8> = Vec::new();
        let mut i: usize = start;
        while i < end
            invariant
                start <= i <= end <= len,
                len == digits@.len(),
                out@ == digits@.subrange(start as int, i as int),
            decreases end - i,
        {
            let d = digits[i];
            out.push(d);
            i = i + 1;
            proof {
                assert(out@ =~= digits@.subrange(start as int, i as int));
            }
        }
        if end - start == 1 && out[0] == 0 {
            Number::Finite { negative, digits: out, exponent: 0 }
        } else {
            Number::Finite { negative, digits: out, exponent: e }
        }
    }
}

/// Ten to the given power.
pub open spec fn pow10(e: nat) -> nat
    decreases e,
{
    if e == 0 {
        1
    } else {
        10 * pow10((e - 1) as nat)
    }
}

/// The natural number written by a digit sequence, most significant first.
pub open spec fn digits_val(ds: Seq<u8>) -> nat
    decreases ds.len(),
{
    if ds.len() == 0 {
        0
    } else {
        digits_val(ds.drop_last()) * 10 + (ds[ds.len() - 1] as nat)
    }
}

/// The decimal digits of a natural number, most significant first.
pub open spec fn nat_digits(n: nat) -> Seq<u8>
    decreases n,
{
    if n < 10 {
        seq![n as u8]
    } else {
        nat_digits(n / 10).push((n % 10) as u8)
    }
}

proof fn lemma_pow10_20()
    ensures
        pow10(20) == 100000000000000000000,
{
    reveal_with_fuel(pow10, 21);
}

proof fn lemma_pow10_monotone(a: nat, b: nat)
    requires
        a <= b,
    ensures
        pow10(a) <= pow10(b),
        pow10(a) >= 1,
    decreases b,
{
    if b > 0 {
        if a == b {
            lemma_pow10_monotone((a - 1) as nat, (b - 1) as nat);
        } else {
            lemma_pow10_monotone(a, (b - 1) as nat);
        }
    }
}

proof fn lemma_digits_val_upper(ds: Seq<u8>)
    requires
        digits_wf(ds),
    ensures
        digits_val(ds) < pow10(ds.len()),
    decreases ds.len(),
{
    if ds.len() > 0 {
        assert(digits_wf(ds.drop_last()));
        lemma_digits_val_upper(ds.drop_last());
    }
}

proof fn lemma_digits_val_lower(ds: Seq<u8>)
    requires
        ds.len() > 0,
        ds[0] != 0,
    ensures
        digits_val(ds) >= pow10((ds.len() - 1) as nat),
    decreases ds.len(),
{
    if ds.len() > 1 {
        assert(ds.drop_last()[0] == ds[0]);
        lemma_digits_val_lower(ds.drop_last());
    }
}

proof fn lemma_all_zero_val(ds: Seq<u8>)
    requires
        all_zero(ds),
    ensures
        digits_val(ds) == 0,
    decreases ds.len(),
{
    if ds.len() > 0 {
        assert(all_zero(ds.drop_last()));
        lemma_all_zero_val(ds.drop_last());
    }
}

proof fn lemma_drop_leading_keeps_nonzero(ds: Seq<u8>)
    requires
        !all_zero(ds),
    ensures
        !all_zero(drop_leading(ds)),
    decreases ds.len(),
{
    if ds.len() > 1 && ds[0] == 0 {
        assert(!all_zero(ds.drop_first())) by {
            let k = choose|k: int| 0 <= k < ds.len() && ds[k] != 0;
            assert(ds.drop_first()[k - 1] == ds[k]);
        }
        lemma_drop_leading_keeps_nonzero(ds.drop_first());
    }
}

proof fn lemma_strip_trailing_keeps_nonzero(ds: Seq<u8>, e: int)
    requires
        !all_zero(ds),
    ensures
        !all_zero(strip_trailing(ds, e).0),
    decreases ds.len(),
{
    if ds.len() > 1 && ds[ds.len() - 1] == 0 {
        assert(!all_zero(ds.drop_last())) by {
            let k = choose|k: int| 0 <= k < ds.len() && ds[k] != 0;
            assert(ds.drop_last()[k] == ds[k]);
        }
        lemma_strip_trailing_keeps_nonzero(ds.drop_last(), e + 1);
    }
}

proof fn lemma_all_zero_drop_leading(ds: Seq<u8>)
    requires
        ds.len() >= 1,
        all_zero(ds),
    ensures
        drop_leading(ds) =~= seq![0u8],
    decreases ds.len(),
{
    if ds.len() > 1 && ds[0] == 0 {
        assert(all_zero(ds.drop_first()));
        lemma_all_zero_drop_leading(ds.drop_first());
    }
}

proof fn lemma_drop_leading_props(ds: Seq<u8>)
    requires
        ds.len() >= 1,
    ensures
        drop_leading(ds).len() >= 1,
        drop_leading(ds).len() <= ds.len(),
        digits_wf(ds) ==> digits_wf(drop_leading(ds)),
        !all_zero(ds) ==> drop_leading(ds)[0] != 0,
    decreases ds.len(),
{
    if ds.len() > 1 && ds[0] == 0 {
        assert(digits_wf(ds) ==> digits_wf(ds.drop_first()));
        if !all_zero(ds) {
            assert(!all_zero(ds.drop_first())) by {
                let k = choose|k: int| 0 <= k < ds.len() && ds[k] != 0;
                assert(ds.drop_first()[k - 1] == ds[k]);
            }
        }
        lemma_drop_leading_props(ds.drop_first());
    }
}

proof fn lemma_strip_trailing_props(ds: Seq<u8>, e: int)
    requires
        ds.len() >= 1,
    ensures
        strip_trailing(ds, e).0.len() >= 1,
        strip_trailing(ds, e).0.len() <= ds.len(),
        strip_trailing(ds, e).1 == e + ds.len() - strip_trailing(ds, e).0.len(),
        strip_trailing(ds, e).0 == ds.subrange(0, strip_trailing(ds, e).0.len() as int),
    decreases ds.len(),
{
    if ds.len() > 1 && ds[ds.len() - 1] == 0 {
        lemma_strip_trailing_props(ds.drop_last(), e + 1);
        let r = strip_trailing(ds.drop_last(), e + 1).0;
        assert(ds.drop_last().subrange(0, r.len() as int) =~= ds.subrange(0, r.len() as int));
    }
}

proof fn lemma_pow10_add(a: nat, b: nat)
    ensures
        pow10(a) * pow10(b) == pow10(a + b),
    decreases a,
{
    if a == 0 {
        assert(pow10(0) == 1);
    } else {
        lemma_pow10_add((a - 1) as nat, b);
        let pa1 = pow10((a - 1) as nat);
        let pb = pow10(b);
        assert(pow10(a) == 10 * pa1);
        assert(pow10(a + b) == 10 * pow10((a + b - 1) as nat));
        assert((10 * pa1) * pb == 10 * (pa1 * pb)) by (nonlinear_arith);
    }
}

/// The integer part of `ds * 10^e`, for a non-negative number.
pub open spec fn floor_mag(ds: Seq<u8>, e: int) -> nat {
    if e >= 0 {
        digits_val(ds) * pow10(e as nat)
    } else if ds.len() + e > 0 {
        digits_val(ds.subrange(0, ds.len() + e))
    } else {
        0
    }
}

/// The index a number stands for, mirroring a float-to-`usize` cast:
/// not-a-number and everything negative give zero, positive infinity
/// saturates, and a finite number is truncated toward zero and saturated
/// at `usize::MAX`.  A finite number is read through its normal form.
pub open spec fn spec_index(n: Number) -> nat {
    match n {
        Number::NotANumber => 0,
        Number::Infinite { negative } => if negative {
            0
        } else {
            usize::MAX as nat
        },
        Number::Finite { negative, digits, exponent } => {
            if negative || !digits_wf(digits@) {
                0
            } else {
                let kept = normal_form(false, digits@, exponent as int);
                let m = floor_mag(kept.1, kept.2);
                if m > usize::MAX {
                    usize::MAX as nat
                } else {
                    m
                }
            }
        },
    }
}

/// True exactly when every entry of the vector is a decimal digit.
fn digits_ok(a: &Vec<u8>) -> (r: bool)
    ensures
        r == digits_wf(a@),
{
    let n = a.len();
    let mut i: usize = 0;
    while i < n
        invariant
            i <= n,
            n == a@.len(),
            forall|j: int| 0 <= j < i ==> a@[j] <= 9,
        decreases n - i,
    {
        if a[i] > 9 {
            return false;
        }
        i = i + 1;
    }
    true
}

impl Number {
    /// The index this number stands for, per [`spec_index`]: truncation
    /// toward zero, saturating at the bounds of `usize`.
    pub fn to_index(&self) -> (r: usize)
        ensures
            r == spec_index(*self),
    {
        match self {
            Number::NotANumber => 0,
            Number::Infinite { negative } => if *negative {
                0
            } else {
                usize::MAX
            },
            Number::Finite { negative, digits, exponent } => {
                if *negative {
                    return 0;
                }
                if !digits_ok(digits) {
                    return 0;
                }
                if digits.len() == 0 {
                    proof {
                        assert(drop_leading(digits@) == digits@);
                        assert(strip_trailing(digits@, *exponent as int) == (
                            digits@,
                            *exponent as int,
                        ));
                        assert(digits_val(digits@) == 0);
                        assert(floor_mag(digits@, *exponent as int) == 0) by {
                            if *exponent as int >= 0 {
                                assert(digits_val(digits@) * pow10(*exponent as nat) == 0);
                            }
                        }
                    }
                    return 0;
                }
                if digits_zero(digits) {
                    proof {
                        lemma_all_zero_drop_leading(digits@);
                        let z = normal_form(false, digits@, *exponent as int);
                        lemma_all_zero_val(z.1);
                        assert(z.2 == 0);
                        assert(floor_mag(z.1, 0) == digits_val(z.1) * pow10(0));
                        assert(pow10(0) == 1);
                    }
                    return 0;
                }
                proof {
                    lemma_drop_leading_props(digits@);
                    lemma_drop_leading_keeps_nonzero(digits@);
                    lemma_strip_trailing_props(drop_leading(digits@), *exponent as int);
                    lemma_strip_trailing_keeps_nonzero(drop_leading(digits@), *exponent as int);
                    lemma_pow10_20();
                }
                let ghost kept = normal_form(false, digits@, *exponent as int);
                proof {
                    assert(kept.1 == strip_trailing(drop_leading(digits@), *exponent as int).0);
                    assert(kept.1[0] == drop_leading(digits@)[0]);
                    lemma_digits_val_lower(kept.1);
                    lemma_pow10_monotone(0, (kept.1.len() - 1) as nat);
                    assert(digits_val(kept.1) >= 1);
                }
                if *exponent >= 39 {
                    proof {
                        assert(kept.2 >= *exponent as int);
                        assert(kept.2 >= 39);
                        lemma_pow10_monotone(21, kept.2 as nat);
                        assert(digits_val(kept.1) * pow10(kept.2 as nat) >= 1 * pow10(
                            kept.2 as nat,
                        )) by (nonlinear_arith)
                            requires
                                digits_val(kept.1) >= 1,
                        ;
                    }
                    return usize::MAX;
                }
                let cloned_digits = digits.clone();
                proof {
                    assert(cloned_digits@ =~= digits@);
                }
                let nd = Number::from_parts(false, cloned_digits, *exponent);
                match nd {
                    Number::Finite { negative: _, digits: kd, exponent: ke } => {
                        proof {
                            assert(kd@ == kept.1 && ke as int == kept.2);
                            assert(digits_val(kd@) >= pow10((kd@.len() - 1) as nat));
                            assert(kd@.len() <= drop_leading(digits@).len());
                            assert(ke as int <= *exponent as int + digits@.len());
                        }
                        let klen = kd.len();
                        let k_i: i128 = klen as i128 + ke;
                        if ke >= 0 {
                            // the integer part is every digit followed by `ke` zeros
                            if k_i >= 21 {
                                proof {
                                    lemma_pow10_add((klen - 1) as nat, ke as nat);
                                    assert(digits_val(kd@) * pow10(ke as nat) >= pow10(
                                        (klen - 1) as nat,
                                    ) * pow10(ke as nat)) by (nonlinear_arith)
                                        requires
                                            digits_val(kd@) >= pow10((klen - 1) as nat),
                                    ;
                                    lemma_pow10_monotone(20, (klen - 1 + ke) as nat);
                                }
                                return usize::MAX;
                            }
                            proof {
                                assert(kd@.subrange(0, klen as int) =~= kd@);
                            }
                            let dv = digits_prefix_val(&kd, klen);
                            let mut m: u128 = dv;
                            let mut j: i128 = 0;
                            proof {
                                assert(pow10(0) == 1);
                                assert(digits_val(kd@) * 1 == digits_val(kd@));
                            }
                            while j < ke
                                invariant
                                    0 <= j <= ke,
                                    klen as i128 + ke <= 20,
                                    klen >= 1,
                                    m == digits_val(kd@) * pow10(j as nat),
                                    m < pow10((klen + j) as nat),
                                decreases ke - j,
                            {
                                proof {
                                    lemma_pow10_20();
                                    lemma_pow10_monotone((klen + j + 1) as nat, 20);
                                    let dvv = digits_val(kd@);
                                    let pj = pow10(j as nat);
                                    assert(pow10((j + 1) as nat) == 10 * pj);
                                    assert(dvv * pj * 10 == dvv * (10 * pj)) by (nonlinear_arith);
                                    assert(pow10((klen + j + 1) as nat) == 10 * pow10(
                                        (klen + j) as nat,
                                    ));
                                    assert(m * 10 < pow10((klen + j) as nat) * 10) by (nonlinear_arith)
                                        requires
                                            m < pow10((klen + j) as nat),
                                    ;
                                }
                                m = m * 10;
                                j = j + 1;
                            }
                            if m > (usize::MAX as u128) {
                                usize::MAX
                            } else {
                                m as usize
                            }
                        } else {
                            // the integer part is a prefix of the digits
                            if k_i <= 0 {
                                return 0;
                            }
                            if k_i >= 21 {
                                proof {
                                    let pre = kd@.subrange(0, k_i as int);
                                    assert(pre[0] == kd@[0]);
                                    lemma_digits_val_lower(pre);
                                    lemma_pow10_monotone(20, (k_i - 1) as nat);
                                }
                                return usize::MAX;
                            }
                            let m = digits_prefix_val(&kd, k_i as usize);
                            if m > (usize::MAX as u128) {
                                usize::MAX
                            } else {
                                m as usize
                            }
                        }
                    },
                    _ => {
                        proof {
                            assert(false);
                        }
                        0
                    },
                }
            },
        }
    }
}

/// Append the decimal digits of `n`, most significant first.
pub(crate) fn push_digits(n: u64, out: &mut Vec<u8>)
    ensures
        final(out)@ == old(out)@ + nat_digits(n as nat),
        final(out)@.len() > old(out)@.len(),
    decreases n,
{
    if n < 10 {
        out.push(n as u8);
        proof {
            assert(out@ =~= old(out)@ + nat_digits(n as nat));
        }
    } else {
        push_digits(n / 10, out);
        out.push((n % 10) as u8);
        proof {
            assert(out@ =~= old(out)@ + nat_digits(n as nat));
        }
    }
}

proof fn lemma_nat_digits_wf(n: nat)
    ensures
        digits_wf(nat_digits(n)),
        nat_digits(n).len() >= 1,
    decreases n,
{
    if n >= 10 {
        lemma_nat_digits_wf(n / 10);
    }
}

proof fn lemma_nat_digits_len(n: nat, k: nat)
    requires
        n < pow10(k),
        k >= 1,
    ensures
        nat_digits(n).len() <= k,
    decreases n,
{
    if n >= 10 {
        assert(pow10(k) == 10 * pow10((k - 1) as nat));
        lemma_nat_digits_len(n / 10, (k - 1) as nat);
    }
}

impl Number {
    /// The number a machine word stands for.
    pub fn from_u64(n: u64) -> (r: Number)
        ensures
            r matches Number::Finite { negative: n2, digits: d2, exponent: e2 }
                && (n2, d2@, e2 as int) == normal_form(false, nat_digits(n as nat), 0),
            is_normal(r),
    {
        let mut ds: Vec<u8> = Vec::new();
        push_digits(n, &mut ds);
        proof {
            lemma_nat_digits_wf(n as nat);
            lemma_pow10_20();
            lemma_nat_digits_len(n as nat, 20);
            assert(ds@ =~= nat_digits(n as nat));
        }
        Number::from_parts(false, ds, 0)
    }
}

/// The character that writes a decimal digit.
pub open spec fn digit_char(d: u8) -> char {
    (((d as u32 + 48) as u8) as char)
}

/// The characters that write a digit sequence.
pub open spec fn digit_chars(ds: Seq<u8>) -> Seq<char> {
    ds.map(|i: int, d: u8| digit_char(d))
}

/// A run of `k` zero characters.
pub open spec fn zeros(k: nat) -> Seq<char>
    decreases k,
{
    if k == 0 {
        Seq::empty()
    } else {
        zeros((k - 1) as nat).push('0')
    }
}

/// The magnitude part of a finite number's external form: the digits with
/// the decimal point placed by the exponent, exactly as a host float prints.
pub open spec fn render_digits(ds: Seq<u8>, e: int) -> Seq<char> {
    if e >= 0 {
        digit_chars(ds) + zeros(e as nat)
    } else if ds.len() + e > 0 {
        digit_chars(ds.subrange(0, ds.len() + e)) + seq!['.'] + digit_chars(
            ds.subrange(ds.len() + e, ds.len() as int),
        )
    } else {
        seq!['0', '.'] + zeros((-e - ds.len()) as nat) + digit_chars(ds)
    }
}

/// The external form of a number.
pub open spec fn render_number(n: Number) -> Seq<char> {
    match n {
        Number::NotANumber => seq!['N', 'a', 'N'],
        Number::Infinite { negative } => if negative {
            seq!['-', 'i', 'n', 'f']
        } else {
            seq!['i', 'n', 'f']
        },
        Number::Finite { negative, digits, exponent } => {
            if negative {
                seq!['-'] + render_digits(digits@, exponent as int)
            } else {
                render_digits(digits@, exponent as int)
            }
        },
    }
}

/// Append the characters of the digits `ds[from..to]` to `out`.
fn push_digit_chars(ds: &Vec<u8>, from: usize, to: usize, out: &mut Vec<char>)
    requires
        from <= to <= ds@.len(),
    ensures
        final(out)@ == old(out)@ + digit_chars(ds@.subrange(from as int, to as int)),
{
    proof {
        assert(out@ =~= old(out)@ + digit_chars(ds@.subrange(from as int, from as int)));
    }
    let mut i: usize = from;
    while i < to
        invariant
            from <= i <= to <= ds@.len(),
            out@ == old(out)@ + digit_chars(ds@.subrange(from as int, i as int)),
        decreases to - i,
    {
        let d = ds[i];
        let c = ((d as u32 + 48) as u8) as char;
        out.push(c);
        i = i + 1;
        proof {
            assert(out@ =~= old(out)@ + digit_chars(ds@.subrange(from as int, i as int)));
        }
    }
}

/// Append `count` zero characters to `out`, where `count` is given as the
/// difference `0 - start` of a non-positive counter.
fn push_zeros(start: i128, out: &mut Vec<char>)
    requires
        start <= 0,
    ensures
        final(out)@ == old(out)@ + zeros((-start) as nat),
{
    let mut j: i128 = start;
    proof {
        assert(out@ =~= old(out)@ + zeros(0));
    }
    while j < 0
        invariant
            start <= j <= 0,
            out@ == old(out)@ + zeros((j - start) as nat),
        decreases 0 - j,
    {
        out.push('0');
        j = j + 1;
        proof {
            assert(out@ =~= old(out)@ + zeros((j - start) as nat));
        }
    }
}

impl Number {
    /// The characters of this number's external form, per [`render_number`].
    pub fn render_chars(&self) -> (r: Vec<char>)
        ensures
            r@ == render_number(*self),
    {
        let mut out: Vec<char> = Vec::new();
        match self {
            Number::NotANumber => {
                out.push('N');
                out.push('a');
                out.push('N');
                proof {
                    assert(out@ =~= render_number(*self));
                }
            },
            Number::Infinite { negative } => {
                if *negative {
                    out.push('-');
                }
                out.push('i');
                out.push('n');
                out.push('f');
                proof {
                    assert(out@ =~= render_number(*self));
                }
            },
            Number::Finite { negative, digits, exponent } => {
                if *negative {
                    out.push('-');
                }
                let ghost sign = out@;
                let len = digits.len();
                if *exponent >= 0 {
                    push_digit_chars(digits, 0, len, &mut out);
                    proof {
                        assert(digits@.subrange(0, len as int) =~= digits@);
                    }
                    push_zeros(0 - *exponent, &mut out);
                    proof {
                        assert(out@ =~= render_number(*self));
                    }
                } else {
                    let point: i128 = len as i128 + *exponent;
                    if point > 0 {
                        let k = point as usize;
                        push_digit_chars(digits, 0, k, &mut out);
                        out.push('.');
                        proof {
                            assert(out@ =~= sign + digit_chars(
                                digits@.subrange(0, point as int),
                            ) + seq!['.']);
                        }
                        push_digit_chars(digits, k, len, &mut out);
                        proof {
                            assert(out@ =~= render_number(*self));
                        }
                    } else {
                        out.push('0');
                        out.push('.');
                        proof {
                            assert(out@ =~= sign + seq!['0', '.'] + zeros(0));
                        }
                        push_zeros(point, &mut out);
                        push_digit_chars(digits, 0, len, &mut out);
                        proof {
                            assert(digits@.subrange(0, len as int) =~= digits@);
                            assert(out@ =~= render_number(*self));
                        }
                    }
                }
            },
        }
        out
    }
}

/// The value of a prefix of normalized digits, computed exactly.
fn digits_prefix_val(ds: &Vec<u8>, k: usize) -> (r: u128)
    requires
        k <= ds@.len(),
        k <= 20,
        digits_wf(ds@),
    ensures
        r == digits_val(ds@.subrange(0, k as int)),
        r < pow10(k as nat),
{
    let mut acc: u128 = 0;
    let mut i: usize = 0;
    proof {
        lemma_pow10_20();
        lemma_pow10_monotone(k as nat, 20);
    }
    while i < k
        invariant
            i <= k <= ds@.len(),
            k <= 20,
            digits_wf(ds@),
            acc == digits_val(ds@.subrange(0, i as int)),
            acc < pow10(i as nat),
        decreases k - i,
    {
        proof {
            assert(ds@.subrange(0, i as int + 1).drop_last() =~= ds@.subrange(0, i as int));
            lemma_pow10_20();
            lemma_pow10_monotone(i as nat + 1, 20);
        }
        let d = ds[i];
        acc = acc * 10 + (d as u128);
        i = i + 1;
    }
    proof {
        lemma_pow10_monotone(i as nat, k as nat);
    }
    acc
}

} // verus!
