//! Non-negative integers of any size, held as decimal digits.
use crate::decimal::{
    all_digits, digits_of, is_canonical, lemma_canonical_unique, lemma_digits_of,
    lemma_value_drop_zero, lemma_value_single, normalized, power, value_of,
};
use crate::digit::Digit;
use vstd::prelude::*;
use vstd::string::StringExecFns;

mod conversions;
mod ops;

verus! {

/// Integer with an arbitrary number of digits.
///
/// Digits are stored least significant first: the digits `[0, 0, 1]` stand
/// for `100`. Every value that the public operations hand out is canonical
/// (see `wf`).
#[derive(Clone, Debug, Hash, Eq)]
pub struct Integer(Vec<Digit>);

impl View for Integer {
    type V = Seq<nat>;

    /// The values of the digits, least significant first.
    closed spec fn view(&self) -> Seq<nat> {
        self.0@.map_values(|d: Digit| d.value())
    }
}

impl Integer {
    /// The digits are canonical: at least one, all decimal, and a nonzero
    /// most significant digit unless the number is zero, held as `[0]`.
    pub open spec fn wf(&self) -> bool {
        is_canonical(self@)
    }

    /// The number this integer stands for.
    pub open spec fn value(&self) -> nat {
        value_of(self@)
    }

    /// Builds the integer whose digits, least significant first, are
    /// `digits`, with the most significant zeros trimmed.
    pub fn from_iter(digits: Vec<u8>) -> (r: Integer)
        requires
            forall|i: int| 0 <= i < digits@.len() ==> #[trigger] digits@[i] < 10,
        ensures
            r.wf(),
            r@ == normalized(digits@.map_values(|b: u8| b as nat)),
    {
        let ghost given = digits@.map_values(|b: u8| b as nat);
        let mut num = Integer::empty();
        let mut i: usize = 0;
        while i < digits.len()
            invariant
                0 <= i <= digits@.len(),
                given == digits@.map_values(|b: u8| b as nat),
                forall|j: int| 0 <= j < digits@.len() ==> #[trigger] digits@[j] < 10,
                num@ == given.take(i as int),
            decreases digits@.len() - i,
        {
            num.push(Digit::from(digits[i]));
            i += 1;
            assert(num@ =~= given.take(i as int));
        }
        assert(num@ =~= given);
        assert(all_digits(num@));
        proof {
            lemma_digits_of(value_of(given));
        }
        num.trim_leading_zeros();
        num
    }

    /// The number of digits.
    pub fn digits(&self) -> (r: usize)
        ensures
            r == self@.len(),
    {
        self.0.len()
    }

    /// The integer zero, held as the single digit `0`.
    pub fn zero() -> (r: Integer)
        ensures
            r.wf(),
            r@ == seq![0nat],
            r.value() == 0,
    {
        let r = Integer(vec![Digit::from(0)]);
        assert(r@ =~= seq![0nat]);
        proof {
            lemma_value_single(0);
        }
        r
    }

    /// The integer one, held as the single digit `1`.
    pub fn one() -> (r: Integer)
        ensures
            r.wf(),
            r@ == seq![1nat],
            r.value() == 1,
    {
        let r = Integer(vec![Digit::from(1)]);
        assert(r@ =~= seq![1nat]);
        proof {
            lemma_value_single(1);
        }
        r
    }

    /// The digits sequence with no digits at all; not canonical.
    pub(crate) fn empty() -> (r: Integer)
        ensures
            r@ == Seq::<nat>::empty(),
    {
        let r = Integer(Vec::new());
        assert(r@ =~= Seq::<nat>::empty());
        r
    }

    /// Appends `digit` in the most significant place.
    pub(crate) fn push(&mut self, digit: Digit)
        ensures
            final(self)@ == old(self)@.push(digit.value()),
    {
        self.0.push(digit);
        assert(final(self)@ =~= old(self)@.push(digit.value()));
    }

    /// The digit at place `i`.
    pub(crate) fn digit_at(&self, i: usize) -> (r: Digit)
        requires
            i < self@.len(),
        ensures
            r.value() == self@[i as int],
    {
        self.0[i]
    }

    /// Replaces the digit at place `i` by `digit`.
    pub(crate) fn set_digit(&mut self, i: usize, digit: Digit)
        requires
            i < old(self)@.len(),
        ensures
            final(self)@ == old(self)@.update(i as int, digit.value()),
    {
        self.0.set(i, digit);
        assert(final(self)@ =~= old(self)@.update(i as int, digit.value()));
    }

    /// Appends zero digits in the most significant places until there are
    /// `length` digits.
    pub(crate) fn pad_to(&mut self, length: usize)
        requires
            old(self)@.len() <= length,
        ensures
            final(self)@.len() == length,
            final(self)@.take(old(self)@.len() as int) == old(self)@,
            forall|i: int| old(self)@.len() <= i < length ==> #[trigger] final(self)@[i] == 0,
            value_of(final(self)@) == value_of(old(self)@),
    {
        let ghost start = self@;
        let count = length - self.digits();
        let mut k: usize = 0;
        while k < count
            invariant
                count == length - start.len(),
                0 <= k <= count,
                self@.len() == start.len() + k,
                self@.take(start.len() as int) == start,
                forall|i: int| start.len() <= i < self@.len() ==> #[trigger] self@[i] == 0,
                value_of(self@) == value_of(start),
            decreases count - k,
        {
            let ghost before = self@;
            self.push(Digit::from(0));
            proof {
                lemma_value_drop_zero(self@);
                assert(self@.drop_last() =~= before);
                assert(self@.take(start.len() as int) =~= before.take(start.len() as int));
            }
            k += 1;
        }
    }

    /// Removes the zeros in the most significant places, down to the single
    /// digit `0` for zero.
    pub(crate) fn trim_leading_zeros(&mut self)
        requires
            all_digits(old(self)@),
        ensures
            final(self)@ == normalized(old(self)@),
    {
        let ghost start = self@;
        if self.0.len() == 0 {
            self.push(Digit::from(0));
            assert(value_of(self@) == 0) by {
                assert(self@ =~= seq![0nat]);
                lemma_value_single(0);
            }
        }
        while self.0.len() > 1 && self.0[self.0.len() - 1].to_u8() == 0
            invariant
                self@.len() >= 1,
                all_digits(self@),
                value_of(self@) == value_of(start),
            decreases self@.len(),
        {
            let ghost before = self@;
            proof {
                lemma_value_drop_zero(before);
            }
            self.0.pop();
            assert(self@ =~= before.drop_last());
        }
        proof {
            lemma_canonical_unique(self@);
        }
    }

    /// The integer raised to the power `exponent`; zero to the power zero is
    /// one.
    pub fn pow(self, exponent: usize) -> (r: Integer)
        requires
            self.wf(),
        ensures
            r.wf(),
            r@ == power_digits(self@, exponent as nat),
    {
        if exponent == 0 {
            return Integer::one();
        }
        let mut acc = self.clone_digits();
        proof {
            assert(power(self.value(), 0) == 1);
            assert(power(self.value(), 1) == power(self.value(), 0) * self.value());
            assert(power(self.value(), 1) == self.value());
            lemma_canonical_unique(self@);
        }
        let mut k: usize = 1;
        while k < exponent
            invariant
                self.wf(),
                1 <= k <= exponent,
                acc.wf(),
                acc@ == power_digits(self@, k as nat),
            decreases exponent - k,
        {
            acc = acc.times(&self);
            proof {
                crate::laws::lemma_pow_recurrence(self, k as nat);
            }
            k += 1;
        }
        acc
    }

    /// The decimal text of the integer, most significant digit first, with a
    /// comma after every third digit counted from the least significant end.
    pub fn to_string(&self) -> (r: String)
        requires
            all_digits(self@),
        ensures
            r@ == grouped_text(self@),
    {
        let mut out = String::new();
        let mut k: usize = self.0.len();
        assert(self@.take(k as int) =~= self@);
        while k > 0
            invariant
                k <= self@.len(),
                all_digits(self@),
                out@ + grouped_text(self@.take(k as int)) == grouped_text(self@),
            decreases k,
        {
            let i = k - 1;
            let ghost before = out@;
            let ghost t = self@.take(k as int);
            assert(t.drop_last() =~= self@.take(i as int));
            assert(t[i as int] == self@[i as int]);
            assert(place_text(t, i as int) == place_text(self@, i as int));
            out.append(digit_text(self.0[i].to_u8()));
            if i != 0 && i % 3 == 0 {
                proof {
                    reveal_strlit(",");
                }
                out.append(",");
            }
            assert(out@ =~= before + place_text(self@, i as int));
            k = i;
        }
        assert(out@ =~= grouped_text(self@));
        out
    }

    /// A copy of this integer with the same digits.
    pub(crate) fn clone_digits(&self) -> (r: Integer)
        ensures
            r@ == self@,
    {
        let mut r = Integer::empty();
        let mut i: usize = 0;
        while i < self.0.len()
            invariant
                0 <= i <= self@.len(),
                r@ == self@.take(i as int),
            decreases self@.len() - i,
        {
            r.push(self.0[i]);
            i += 1;
            assert(r@ =~= self@.take(i as int));
        }
        assert(r@ =~= self@);
        r
    }
}

/// The character of the decimal digit `d`.
pub open spec fn digit_char(d: nat) -> char {
    seq!['0', '1', '2', '3', '4', '5', '6', '7', '8', '9'][d as int]
}

/// The characters written for the digit at place `i` of `s`: the digit, then
/// a comma when `i` is a nonzero multiple of three.
pub open spec fn place_text(s: Seq<nat>, i: int) -> Seq<char> {
    if i != 0 && i % 3 == 0 {
        seq![digit_char(s[i]), ',']
    } else {
        seq![digit_char(s[i])]
    }
}

/// The text of the digits `s`, most significant first, with a comma written
/// after every place whose index is a nonzero multiple of three.
pub open spec fn grouped_text(s: Seq<nat>) -> Seq<char>
    decreases s.len(),
{
    if s.len() == 0 {
        Seq::empty()
    } else {
        place_text(s, s.len() - 1) + grouped_text(s.drop_last())
    }
}

/// The text of the decimal digit `d`.
fn digit_text(d: u8) -> (r: &'static str)
    requires
        d < 10,
    ensures
        r@ == seq![digit_char(d as nat)],
{
    if d == 0 {
        proof {
            reveal_strlit("0");
        }
        "0"
    } else if d == 1 {
        proof {
            reveal_strlit("1");
        }
        "1"
    } else if d == 2 {
        proof {
            reveal_strlit("2");
        }
        "2"
    } else if d == 3 {
        proof {
            reveal_strlit("3");
        }
        "3"
    } else if d == 4 {
        proof {
            reveal_strlit("4");
        }
        "4"
    } else if d == 5 {
        proof {
            reveal_strlit("5");
        }
        "5"
    } else if d == 6 {
        proof {
            reveal_strlit("6");
        }
        "6"
    } else if d == 7 {
        proof {
            reveal_strlit("7");
        }
        "7"
    } else if d == 8 {
        proof {
            reveal_strlit("8");
        }
        "8"
    } else {
        proof {
            reveal_strlit("9");
        }
        "9"
    }
}

impl PartialEq for Integer {
    /// Two integers are equal when their digits are.
    fn eq(&self, other: &Integer) -> (r: bool) {
        if self.0.len() != other.0.len() {
            assert(self@.len() != other@.len());
            return false;
        }
        let mut i: usize = 0;
        while i < self.0.len()
            invariant
                0 <= i <= self@.len(),
                self@.len() == other@.len(),
                forall|j: int| 0 <= j < i ==> #[trigger] self@[j] == other@[j],
            decreases self@.len() - i,
        {
            if self.0[i].to_u8() != other.0[i].to_u8() {
                assert(self@[i as int] != other@[i as int]);
                return false;
            }
            i += 1;
        }
        assert(self@ =~= other@);
        true
    }
}

impl vstd::std_specs::cmp::PartialEqSpecImpl for Integer {
    open spec fn obeys_eq_spec() -> bool {
        true
    }

    open spec fn eq_spec(&self, other: &Integer) -> bool {
        self@ == other@
    }
}

/// The canonical digits of the number that `a` stands for, raised to the
/// power `e`.
pub open spec fn power_digits(a: Seq<nat>, e: nat) -> Seq<nat> {
    digits_of(power(value_of(a), e))
}

/// The canonical digits of the product of the numbers that `a` and `b`
/// stand for.
pub open spec fn product_digits(a: Seq<nat>, b: Seq<nat>) -> Seq<nat> {
    digits_of(value_of(a) * value_of(b))
}

/// The canonical digits of the sum of the numbers that `a` and `b` stand
/// for.
pub open spec fn sum_digits(a: Seq<nat>, b: Seq<nat>) -> Seq<nat> {
    digits_of(value_of(a) + value_of(b))
}

} // verus!
