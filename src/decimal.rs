//! The mathematics of decimal digit sequences, least significant digit first.
use vstd::arithmetic::mul::*;
use vstd::prelude::*;

verus! {

/// `10` raised to the power `n`.
pub open spec fn pow10(n: nat) -> nat
    decreases n,
{
    if n == 0 {
        1
    } else {
        10 * pow10((n - 1) as nat)
    }
}

/// `b` raised to the power `e`, with `power(b, 0) == 1` for every `b`.
pub open spec fn power(b: nat, e: nat) -> nat
    decreases e,
{
    if e == 0 {
        1
    } else {
        power(b, (e - 1) as nat) * b
    }
}

/// The number that the digits `s` stand for, `s[0]` being the units digit.
pub open spec fn value_of(s: Seq<nat>) -> nat
    decreases s.len(),
{
    if s.len() == 0 {
        0
    } else {
        s[0] + 10 * value_of(s.drop_first())
    }
}

/// Every entry of `s` is a decimal digit.
pub open spec fn all_digits(s: Seq<nat>) -> bool {
    forall|i: int| 0 <= i < s.len() ==> #[trigger] s[i] < 10
}

/// `s` is the canonical form of a number: at least one digit, all of them
/// decimal, and no zero in the most significant place unless `s` is `[0]`.
pub open spec fn is_canonical(s: Seq<nat>) -> bool {
    &&& s.len() >= 1
    &&& all_digits(s)
    &&& (s.len() == 1 || s.last() != 0)
}

/// The canonical digits of `n`.
pub open spec fn digits_of(n: nat) -> Seq<nat>
    decreases n,
{
    if n < 10 {
        seq![n]
    } else {
        seq![n % 10] + digits_of(n / 10)
    }
}

/// The canonical form of the number that the digits `s` stand for.
pub open spec fn normalized(s: Seq<nat>) -> Seq<nat> {
    digits_of(value_of(s))
}

pub proof fn lemma_pow10_positive(n: nat)
    ensures
        pow10(n) >= 1,
    decreases n,
{
    if n > 0 {
        lemma_pow10_positive((n - 1) as nat);
    }
}

pub proof fn lemma_pow10_add(m: nat, n: nat)
    ensures
        pow10(m + n) == pow10(m) * pow10(n),
    decreases m,
{
    if m > 0 {
        let k = (m - 1) as nat;
        lemma_pow10_add(k, n);
        assert((m + n) as nat == (k + n) + 1);
        assert(pow10(m + n) == 10 * pow10(k + n));
        assert(pow10(m) == 10 * pow10(k));
        lemma_mul_is_associative(10, pow10(k) as int, pow10(n) as int);
    } else {
        assert(m + n == n);
        assert(pow10(m) == 1);
    }
}

/// Appending a most significant digit adds it at its place value.
pub proof fn lemma_value_push(s: Seq<nat>, d: nat)
    ensures
        value_of(s.push(d)) == value_of(s) + d * pow10(s.len()),
    decreases s.len(),
{
    if s.len() == 0 {
        assert(s.push(d).drop_first() =~= Seq::<nat>::empty());
        assert(value_of(s.push(d)) == d + 10 * value_of(Seq::<nat>::empty()));
        assert(pow10(0) == 1);
    } else {
        let t = s.drop_first();
        assert(s.push(d).drop_first() =~= t.push(d));
        lemma_value_push(t, d);
        let p = pow10(t.len());
        assert(pow10(s.len()) == 10 * p);
        assert(s.push(d)[0] == s[0]);
        assert(value_of(s.push(d)) == s[0] + 10 * value_of(t.push(d)));
        assert(value_of(s) == s[0] + 10 * value_of(t));
        assert(10 * (d * p) == d * (10 * p)) by (nonlinear_arith);
        assert(10 * (value_of(t) + d * p) == 10 * value_of(t) + 10 * (d * p)) by (nonlinear_arith);
    }
}

/// The value of the first `i + 1` digits extends that of the first `i`.
pub proof fn lemma_value_take(s: Seq<nat>, i: int)
    requires
        0 <= i < s.len(),
    ensures
        value_of(s.take(i + 1)) == value_of(s.take(i)) + s[i] * pow10(i as nat),
{
    assert(s.take(i + 1) =~= s.take(i).push(s[i]));
    lemma_value_push(s.take(i), s[i]);
}

/// A single digit stands for itself.
pub proof fn lemma_value_single(d: nat)
    ensures
        value_of(seq![d]) == d,
{
    let s = seq![d];
    assert(s.drop_first() =~= Seq::<nat>::empty());
    assert(value_of(s.drop_first()) == 0);
    assert(value_of(s) == s[0] + 10 * value_of(s.drop_first()));
}

/// A most significant zero does not change the value.
pub proof fn lemma_value_drop_zero(s: Seq<nat>)
    requires
        s.len() >= 1,
        s.last() == 0,
    ensures
        value_of(s.drop_last()) == value_of(s),
{
    assert(s =~= s.drop_last().push(0));
    lemma_value_push(s.drop_last(), 0);
}

/// Digits that are all zero stand for zero.
pub proof fn lemma_value_zeros(n: nat)
    ensures
        value_of(Seq::new(n, |i: int| 0nat)) == 0,
    decreases n,
{
    if n > 0 {
        let z = Seq::new(n, |i: int| 0nat);
        assert(z.drop_first() =~= Seq::new((n - 1) as nat, |i: int| 0nat));
        lemma_value_zeros((n - 1) as nat);
    }
}

/// A canonical sequence with a nonzero most significant digit stands for a
/// nonzero number.
proof fn lemma_value_positive(s: Seq<nat>)
    requires
        s.len() >= 1,
        s.last() != 0,
    ensures
        value_of(s) > 0,
{
    assert(s =~= s.drop_last().push(s.last()));
    lemma_value_push(s.drop_last(), s.last());
    lemma_pow10_positive(s.drop_last().len());
    lemma_mul_increases(pow10(s.drop_last().len()) as int, s.last() as int);
}

/// The canonical digits of `n` are canonical and stand for `n`.
pub proof fn lemma_digits_of(n: nat)
    ensures
        is_canonical(digits_of(n)),
        value_of(digits_of(n)) == n,
    decreases n,
{
    let s = digits_of(n);
    if n < 10 {
        assert(s.drop_first() =~= Seq::<nat>::empty());
        assert(value_of(s) == s[0] + 10 * value_of(s.drop_first()));
    } else {
        lemma_digits_of(n / 10);
        let t = digits_of(n / 10);
        assert(s.drop_first() =~= t);
        assert(s.last() == t.last());
        assert(n == n % 10 + 10 * (n / 10)) by {
            vstd::arithmetic::div_mod::lemma_fundamental_div_mod(n as int, 10);
        }
        assert(n / 10 >= 1);
        if t.len() == 1 {
            assert(t.drop_first() =~= Seq::<nat>::empty());
            assert(value_of(t) == t[0] + 10 * value_of(t.drop_first()));
        }
        assert(s.len() == t.len() + 1);
        assert(s.last() == s[s.len() - 1]);
        assert(s[s.len() - 1] == t[t.len() - 1]);
        assert forall|i: int| 0 <= i < s.len() implies #[trigger] s[i] < 10 by {
            if i > 0 {
                assert(s[i] == t[i - 1]);
            }
        }
    }
}

/// A canonical sequence is the canonical digits of its own value.
pub proof fn lemma_canonical_unique(s: Seq<nat>)
    requires
        is_canonical(s),
    ensures
        digits_of(value_of(s)) == s,
    decreases s.len(),
{
    if s.len() == 1 {
        assert(s.drop_first() =~= Seq::<nat>::empty());
        assert(value_of(s) == s[0] + 10 * value_of(s.drop_first()));
        assert(s[0] < 10);
        assert(digits_of(s[0]) == seq![s[0]]);
        assert(digits_of(value_of(s)) =~= s);
    } else {
        let t = s.drop_first();
        assert(t.last() == s.last());
        assert(all_digits(t)) by {
            assert forall|i: int| 0 <= i < t.len() implies #[trigger] t[i] < 10 by {
                assert(t[i] == s[i + 1]);
            }
        }
        lemma_canonical_unique(t);
        lemma_value_positive(t);
        let v = value_of(s);
        let d = s[0];
        assert(s[0] < 10);
        assert(v == d + 10 * value_of(t));
        assert(v % 10 == d && v / 10 == value_of(t)) by {
            lemma_div_mod_ten(v, d, value_of(t));
        }
        assert(digits_of(v) =~= s);
    }
}

/// `d + 10 * q` has units digit `d` and tens part `q`.
proof fn lemma_div_mod_ten(v: nat, d: nat, q: nat)
    requires
        d < 10,
        v == d + 10 * q,
    ensures
        v % 10 == d,
        v / 10 == q,
{
    vstd::arithmetic::div_mod::lemma_fundamental_div_mod_converse(v as int, 10, q as int, d as int);
}

} // verus!
