//! Algebraic laws of `Integer` arithmetic, stated over the canonical digit
//! sequences that the operations return.
use crate::decimal::{
    digits_of, is_canonical, lemma_canonical_unique, lemma_digits_of, lemma_value_single, normalized, power, value_of,
};
use crate::integer::{power_digits, product_digits, sum_digits, Integer};
use vstd::arithmetic::mul::{
    lemma_mul_basics, lemma_mul_is_associative, lemma_mul_is_commutative,
    lemma_mul_is_distributive_add,
};
use vstd::prelude::*;

verus! {

/// Normalizing a canonical sequence gives it back, and normalizing twice is
/// normalizing once.
pub proof fn lemma_normalize_idempotent(s: Seq<nat>)
    ensures
        is_canonical(s) ==> normalized(s) == s,
        normalized(normalized(s)) == normalized(s),
{
    if is_canonical(s) {
        lemma_canonical_unique(s);
    }
    lemma_digits_of(value_of(s));
    lemma_canonical_unique(normalized(s));
}

/// The canonical digits of a native unsigned number stand for that number:
/// summing `digit[i] * 10^i` gives it back.
pub proof fn lemma_native_round_trip(n: u128)
    ensures
        is_canonical(digits_of(n as nat)),
        value_of(digits_of(n as nat)) == n,
{
    lemma_digits_of(n as nat);
}

/// Adding zero gives the integer back.
pub proof fn lemma_add_zero(a: Integer)
    requires
        a.wf(),
    ensures
        sum_digits(a@, seq![0nat]) == a@,
{
    lemma_value_single(0);
    lemma_canonical_unique(a@);
}

/// Addition is commutative.
pub proof fn lemma_add_commutative(a: Integer, b: Integer)
    ensures
        sum_digits(a@, b@) == sum_digits(b@, a@),
{
}

/// Addition is associative.
pub proof fn lemma_add_associative(a: Integer, b: Integer, c: Integer)
    ensures
        sum_digits(sum_digits(a@, b@), c@) == sum_digits(a@, sum_digits(b@, c@)),
{
    lemma_digits_of(value_of(a@) + value_of(b@));
    lemma_digits_of(value_of(b@) + value_of(c@));
}

/// Multiplying by one gives the integer back.
pub proof fn lemma_mul_one(a: Integer)
    requires
        a.wf(),
    ensures
        product_digits(a@, seq![1nat]) == a@,
{
    lemma_value_single(1);
    lemma_canonical_unique(a@);
}

/// Multiplying by zero gives zero.
pub proof fn lemma_mul_zero(a: Integer)
    ensures
        product_digits(a@, seq![0nat]) == seq![0nat],
{
    lemma_value_single(0);
    lemma_mul_basics(value_of(a@) as int);
}

/// Multiplication is commutative.
pub proof fn lemma_mul_commutative(a: Integer, b: Integer)
    ensures
        product_digits(a@, b@) == product_digits(b@, a@),
{
    lemma_mul_is_commutative(value_of(a@) as int, value_of(b@) as int);
}

/// Multiplication is associative.
pub proof fn lemma_mul_associative(a: Integer, b: Integer, c: Integer)
    ensures
        product_digits(product_digits(a@, b@), c@) == product_digits(
            a@,
            product_digits(b@, c@),
        ),
{
    lemma_digits_of(value_of(a@) * value_of(b@));
    lemma_digits_of(value_of(b@) * value_of(c@));
    lemma_mul_is_associative(value_of(a@) as int, value_of(b@) as int, value_of(c@) as int);
}

/// Multiplication distributes over addition.
pub proof fn lemma_mul_distributive(a: Integer, b: Integer, c: Integer)
    ensures
        product_digits(a@, sum_digits(b@, c@)) == sum_digits(
            product_digits(a@, b@),
            product_digits(a@, c@),
        ),
{
    lemma_digits_of(value_of(b@) + value_of(c@));
    lemma_digits_of(value_of(a@) * value_of(b@));
    lemma_digits_of(value_of(a@) * value_of(c@));
    lemma_mul_is_distributive_add(value_of(a@) as int, value_of(b@) as int, value_of(c@) as int);
}

/// Any integer to the power zero is one, and to the power one is itself.
pub proof fn lemma_pow_base_cases(a: Integer)
    requires
        a.wf(),
    ensures
        power_digits(a@, 0) == seq![1nat],
        power_digits(a@, 1) == a@,
{
    assert(power(value_of(a@), 0) == 1);
    assert(power(value_of(a@), 1) == power(value_of(a@), 0) * value_of(a@));
    assert(power(value_of(a@), 1) == value_of(a@));
    lemma_canonical_unique(a@);
}

/// One more factor in a power is one more multiplication by the base.
pub proof fn lemma_pow_recurrence(a: Integer, n: nat)
    ensures
        power_digits(a@, n + 1) == product_digits(power_digits(a@, n), a@),
{
    lemma_digits_of(power(value_of(a@), n));
}

} // verus!
