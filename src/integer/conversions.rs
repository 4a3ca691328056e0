//! Convert from fixed-precision numbers to arbitrary-precision `Integer`s.
use super::Integer;
use crate::decimal::{all_digits, digits_of, lemma_digits_of, lemma_value_push, pow10, value_of};
use crate::digit::Digit;
use vstd::prelude::*;

verus! {

impl Integer {
    /// The integer equal to `value`: its decimal digits, least significant
    /// first, with zero held as `[0]`.
    pub fn from_u128(value: u128) -> (r: Integer)
        ensures
            r.wf(),
            r@ == digits_of(value as nat),
    {
        let mut rest: u128 = value;
        let mut num = Integer::empty();
        proof {
            assert(value_of(num@) == 0);
            assert(pow10(0) == 1);
        }
        while rest > 0
            invariant
                all_digits(num@),
                value_of(num@) + rest * pow10(num@.len()) == value,
            decreases rest,
        {
            let ghost before = num@;
            let digit: u8 = (rest % 10) as u8;
            num.push(Digit::from(digit));
            proof {
                let p = pow10(before.len());
                lemma_value_push(before, digit as nat);
                assert(rest == (rest % 10) + 10 * (rest / 10));
                assert(rest * p == digit * p + (rest / 10) * (10 * p)) by (nonlinear_arith)
                    requires
                        rest == digit + 10 * (rest / 10),
                ;
            }
            rest = rest / 10;
        }
        proof {
            assert(rest * pow10(num@.len()) == 0);
            lemma_digits_of(value as nat);
        }
        num.trim_leading_zeros();
        num
    }
}

impl From<u8> for Integer {
    fn from(value: u8) -> (r: Integer)
        ensures
            r.wf(),
            r@ == digits_of(value as nat),
    {
        Integer::from_u128(value as u128)
    }
}

impl vstd::std_specs::convert::FromSpecImpl<u8> for Integer {
    open spec fn obeys_from_spec() -> bool {
        false
    }

    open spec fn from_spec(v: u8) -> Integer {
        choose|r: Integer| r@ == digits_of(v as nat)
    }
}

impl From<u16> for Integer {
    fn from(value: u16) -> (r: Integer)
        ensures
            r.wf(),
            r@ == digits_of(value as nat),
    {
        Integer::from_u128(value as u128)
    }
}

impl vstd::std_specs::convert::FromSpecImpl<u16> for Integer {
    open spec fn obeys_from_spec() -> bool {
        false
    }

    open spec fn from_spec(v: u16) -> Integer {
        choose|r: Integer| r@ == digits_of(v as nat)
    }
}

impl From<u32> for Integer {
    fn from(value: u32) -> (r: Integer)
        ensures
            r.wf(),
            r@ == digits_of(value as nat),
    {
        Integer::from_u128(value as u128)
    }
}

impl vstd::std_specs::convert::FromSpecImpl<u32> for Integer {
    open spec fn obeys_from_spec() -> bool {
        false
    }

    open spec fn from_spec(v: u32) -> Integer {
        choose|r: Integer| r@ == digits_of(v as nat)
    }
}

impl From<u64> for Integer {
    fn from(value: u64) -> (r: Integer)
        ensures
            r.wf(),
            r@ == digits_of(value as nat),
    {
        Integer::from_u128(value as u128)
    }
}

impl vstd::std_specs::convert::FromSpecImpl<u64> for Integer {
    open spec fn obeys_from_spec() -> bool {
        false
    }

    open spec fn from_spec(v: u64) -> Integer {
        choose|r: Integer| r@ == digits_of(v as nat)
    }
}

impl From<usize> for Integer {
    fn from(value: usize) -> (r: Integer)
        ensures
            r.wf(),
            r@ == digits_of(value as nat),
    {
        Integer::from_u128(value as u128)
    }
}

impl vstd::std_specs::convert::FromSpecImpl<usize> for Integer {
    open spec fn obeys_from_spec() -> bool {
        false
    }

    open spec fn from_spec(v: usize) -> Integer {
        choose|r: Integer| r@ == digits_of(v as nat)
    }
}

impl From<u128> for Integer {
    fn from(value: u128) -> (r: Integer)
        ensures
            r.wf(),
            r@ == digits_of(value as nat),
    {
        Integer::from_u128(value)
    }
}

impl vstd::std_specs::convert::FromSpecImpl<u128> for Integer {
    open spec fn obeys_from_spec() -> bool {
        false
    }

    open spec fn from_spec(v: u128) -> Integer {
        choose|r: Integer| r@ == digits_of(v as nat)
    }
}

} // verus!
