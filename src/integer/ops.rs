//! Arithmetic operations for `Integer`s.
use super::{product_digits, sum_digits, Integer};
use crate::decimal::{
    all_digits, lemma_canonical_unique, lemma_digits_of, lemma_pow10_add, lemma_value_push,
    lemma_value_single, lemma_value_take, lemma_value_zeros, pow10, value_of,
};
use crate::digit::Digit;
use vstd::prelude::*;

verus! {

/// One column of an addition: the digit and carry that come of `a + b + c`.
proof fn lemma_add_column(v: nat, c: nat, p: nat, s2: nat, c_next: nat, a: nat, b: nat, total: nat)
    requires
        v + c * p == total,
        s2 + 10 * c_next == a + b + c,
    ensures
        v + s2 * p + c_next * (10 * p) == total + a * p + b * p,
{
    assert(s2 * p + c_next * (10 * p) == (a + b + c) * p) by (nonlinear_arith)
        requires
            s2 + 10 * c_next == a + b + c,
    ;
    assert((a + b + c) * p == a * p + b * p + c * p) by (nonlinear_arith);
}

/// One step of a partial product: the digit and carry that come of
/// `r * s + c`.
proof fn lemma_mul_column(
    v: nat,
    c: nat,
    q: nat,
    pi: nat,
    pj: nat,
    d2: nat,
    c_next: nat,
    r: nat,
    s: nat,
    vj: nat,
)
    requires
        v + c * q == r * vj * pi,
        q == pi * pj,
        d2 + 10 * c_next == r * s + c,
    ensures
        v + d2 * q + c_next * (10 * q) == r * (vj + s * pj) * pi,
{
    assert(d2 * q + c_next * (10 * q) == (r * s + c) * q) by (nonlinear_arith)
        requires
            d2 + 10 * c_next == r * s + c,
    ;
    assert((r * s + c) * q == r * s * q + c * q) by (nonlinear_arith);
    assert(r * s * q == r * (s * pj) * pi) by (nonlinear_arith)
        requires
            q == pi * pj,
    ;
    assert(r * vj * pi + r * (s * pj) * pi == r * (vj + s * pj) * pi) by (nonlinear_arith);
}

/// Adding one more partial product `r * a * 10^i` to `a * b[..i]`.
proof fn lemma_mul_row(acc: nat, a: nat, bi: nat, r: nat, p: nat)
    requires
        acc == a * bi,
    ensures
        acc + r * a * p == a * (bi + r * p),
{
    assert(a * bi + r * a * p == a * (bi + r * p)) by (nonlinear_arith);
}

impl Integer {
    /// The sum of two digit sequences, in canonical form.
    pub fn plus(self, rhs: Integer) -> (r: Integer)
        requires
            all_digits(self@),
            all_digits(rhs@),
        ensures
            r.wf(),
            r@ == sum_digits(self@, rhs@),
    {
        let mut lhs = self;
        let mut rhs = rhs;
        let ghost a_start = lhs@;
        let ghost b_start = rhs@;
        let length = if lhs.digits() >= rhs.digits() {
            lhs.digits()
        } else {
            rhs.digits()
        };
        lhs.pad_to(length);
        rhs.pad_to(length);
        let ghost a0 = lhs@;
        let ghost b0 = rhs@;
        assert(all_digits(a0)) by {
            assert forall|j: int| 0 <= j < length implies #[trigger] a0[j] < 10 by {
                if j < a_start.len() {
                    assert(a0[j] == a0.take(a_start.len() as int)[j]);
                }
            }
        }
        assert(all_digits(b0)) by {
            assert forall|j: int| 0 <= j < length implies #[trigger] b0[j] < 10 by {
                if j < b_start.len() {
                    assert(b0[j] == b0.take(b_start.len() as int)[j]);
                }
            }
        }

        let mut carry = Digit::from(0);
        let mut idx: usize = 0;
        proof {
            assert(a0.take(0) =~= Seq::<nat>::empty());
            assert(b0.take(0) =~= Seq::<nat>::empty());
            assert(lhs@.take(0) =~= Seq::<nat>::empty());
        }
        while idx < length
            invariant
                0 <= idx <= length,
                a0.len() == length,
                rhs@ == b0,
                b0.len() == length,
                all_digits(a0),
                all_digits(b0),
                lhs@.len() == length,
                all_digits(lhs@),
                forall|j: int| idx <= j < length ==> #[trigger] lhs@[j] == a0[j],
                carry.value() <= 1,
                value_of(lhs@.take(idx as int)) + carry.value() * pow10(idx as nat) == value_of(
                    a0.take(idx as int),
                ) + value_of(b0.take(idx as int)),
            decreases length - idx,
        {
            let ghost before = lhs@;
            let (sum, carry1) = lhs.digit_at(idx).plus(rhs.digit_at(idx));
            let (sum, carry2) = sum.plus(carry);
            lhs.set_digit(idx, sum);
            let next = if carry1.to_u8() >= carry2.to_u8() {
                carry1
            } else {
                carry2
            };
            proof {
                let i = idx as int;
                let p = pow10(idx as nat);
                lemma_value_take(lhs@, i);
                lemma_value_take(a0, i);
                lemma_value_take(b0, i);
                assert(lhs@.take(i) =~= before.take(i));
                assert(next.value() == carry1.value() + carry2.value());
                lemma_add_column(
                    value_of(before.take(i)),
                    carry.value(),
                    p,
                    sum.value(),
                    next.value(),
                    a0[i],
                    b0[i],
                    value_of(a0.take(i)) + value_of(b0.take(i)),
                );
                assert(pow10((idx + 1) as nat) == 10 * p);
            }
            carry = next;
            idx += 1;
        }
        proof {
            assert(lhs@.take(length as int) =~= lhs@);
            assert(a0.take(length as int) =~= a0);
            assert(b0.take(length as int) =~= b0);
        }
        if carry.to_u8() == 1 {
            let ghost before = lhs@;
            lhs.push(Digit::from(1));
            proof {
                lemma_value_push(before, 1);
            }
        }
        assert(all_digits(lhs@));
        proof {
            lemma_digits_of(value_of(a_start) + value_of(b_start));
        }
        lhs.trim_leading_zeros();
        lhs
    }

    /// The product of two digit sequences, in canonical form, by schoolbook
    /// long multiplication.
    pub fn times(&self, rhs: &Integer) -> (r: Integer)
        requires
            all_digits(self@),
            all_digits(rhs@),
        ensures
            r.wf(),
            r@ == product_digits(self@, rhs@),
    {
        let ghost a = value_of(self@);
        let mut acc = Integer::zero();
        let mut i: usize = 0;
        proof {
            assert(rhs@.take(0) =~= Seq::<nat>::empty());
            lemma_value_single(0);
            assert(a * 0 == 0);
        }
        while i < rhs.digits()
            invariant
                0 <= i <= rhs@.len(),
                all_digits(self@),
                all_digits(rhs@),
                a == value_of(self@),
                acc.wf(),
                value_of(acc@) == a * value_of(rhs@.take(i as int)),
            decreases rhs@.len() - i,
        {
            let r = rhs.digit_at(i);
            let ghost rv = r.value();
            let mut intermediate = Integer::empty();
            let mut k: usize = 0;
            while k < i
                invariant
                    0 <= k <= i,
                    intermediate@ == Seq::new(k as nat, |n: int| 0nat),
                decreases i - k,
            {
                intermediate.push(Digit::from(0));
                k += 1;
                assert(intermediate@ =~= Seq::new(k as nat, |n: int| 0nat));
            }
            proof {
                lemma_value_zeros(i as nat);
                assert(self@.take(0) =~= Seq::<nat>::empty());
                assert(value_of(self@.take(0)) == 0);
                assert(rv * 0 * pow10(i as nat) == 0) by (nonlinear_arith);
            }
            let mut carry = Digit::from(0);
            let mut j: usize = 0;
            while j < self.digits()
                invariant
                    0 <= j <= self@.len(),
                    all_digits(self@),
                    rv == r.value(),
                    rv < 10,
                    intermediate@.len() == i + j,
                    all_digits(intermediate@),
                    carry.value() < 10,
                    value_of(intermediate@) + carry.value() * pow10((i + j) as nat) == rv
                        * value_of(self@.take(j as int)) * pow10(i as nat),
                decreases self@.len() - j,
            {
                let ghost before = intermediate@;
                let s = self.digit_at(j);
                let (digit, carry1) = r.times(s);
                let (digit, carry2) = digit.plus(carry);
                intermediate.push(digit);
                let next = carry1.plus(carry2).0;
                proof {
                    let q = pow10((i + j) as nat);
                    lemma_pow10_add(i as nat, j as nat);
                    lemma_value_push(before, digit.value());
                    lemma_value_take(self@, j as int);
                    assert(next.value() == carry1.value() + carry2.value());
                    lemma_mul_column(
                        value_of(before),
                        carry.value(),
                        q,
                        pow10(i as nat),
                        pow10(j as nat),
                        digit.value(),
                        next.value(),
                        rv,
                        s.value(),
                        value_of(self@.take(j as int)),
                    );
                    assert(pow10((i + j + 1) as nat) == 10 * q);
                }
                carry = next;
                j += 1;
            }
            if carry.to_u8() != 0 {
                let ghost before = intermediate@;
                intermediate.push(carry);
                proof {
                    lemma_value_push(before, carry.value());
                }
            }
            proof {
                assert(self@.take(self@.len() as int) =~= self@);
                lemma_value_take(rhs@, i as int);
                lemma_mul_row(value_of(acc@), a, value_of(rhs@.take(i as int)), rv, pow10(i as nat));
                lemma_digits_of(value_of(acc@) + value_of(intermediate@));
            }
            acc = acc.plus(intermediate);
            i += 1;
        }
        proof {
            assert(rhs@.take(rhs@.len() as int) =~= rhs@);
            lemma_digits_of(value_of(acc@));
            lemma_canonical_unique(acc@);
        }
        acc
    }
}

impl core::ops::Add for Integer {
    type Output = Integer;

    fn add(self, rhs: Integer) -> (r: Integer)
        ensures
            r.wf(),
            r@ == sum_digits(self@, rhs@),
    {
        self.plus(rhs)
    }
}

impl vstd::std_specs::ops::AddSpecImpl for Integer {
    open spec fn obeys_add_spec() -> bool {
        false
    }

    open spec fn add_req(self, rhs: Integer) -> bool {
        self.wf() && rhs.wf()
    }

    open spec fn add_spec(self, rhs: Integer) -> Integer {
        choose|r: Integer| r@ == sum_digits(self@, rhs@)
    }
}

impl core::ops::Mul for Integer {
    type Output = Integer;

    fn mul(self, rhs: Integer) -> (r: Integer)
        ensures
            r.wf(),
            r@ == product_digits(self@, rhs@),
    {
        self.times(&rhs)
    }
}

impl vstd::std_specs::ops::MulSpecImpl for Integer {
    open spec fn obeys_mul_spec() -> bool {
        false
    }

    open spec fn mul_req(self, rhs: Integer) -> bool {
        self.wf() && rhs.wf()
    }

    open spec fn mul_spec(self, rhs: Integer) -> Integer {
        choose|r: Integer| r@ == product_digits(self@, rhs@)
    }
}

} // verus!
