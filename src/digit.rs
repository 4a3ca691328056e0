//! A single decimal digit and the carry-producing operations on digits.
use vstd::prelude::*;

verus! {

/// A decimal digit: a value in `0..10`.
#[derive(Copy, Clone, Debug, Hash, PartialEq, Eq, Structural, PartialOrd, Ord)]
pub struct Digit(u8);

impl Digit {
    /// The number this digit stands for.
    pub closed spec fn value(self) -> nat {
        self.0 as nat
    }

    /// The digit `value`. A value of ten or more is no digit.
    pub fn from(value: u8) -> (r: Digit)
        requires
            value < 10,
        ensures
            r.value() == value,
    {
        Digit(value)
    }

    /// The number this digit stands for, as a byte.
    pub fn to_u8(self) -> (r: u8)
        ensures
            r == self.value(),
    {
        self.0
    }

    /// Add two digits and return the least significant digit of the sum and
    /// the carry.
    pub fn plus(self, other: Digit) -> (r: (Digit, Digit))
        requires
            self.value() < 10,
            other.value() < 10,
        ensures
            r.0.value() < 10,
            r.1.value() <= 1,
            r.0.value() + 10 * r.1.value() == self.value() + other.value(),
    {
        let mut sum: u8 = self.0 + other.0;
        let mut carry: u8 = 0;
        if sum >= 10 {
            sum -= 10;
            carry = 1;
        }
        (Digit(sum), Digit(carry))
    }

    /// Multiply two digits and return the least significant digit of the
    /// product and the carry.
    pub fn times(self, other: Digit) -> (r: (Digit, Digit))
        requires
            self.value() < 10,
            other.value() < 10,
        ensures
            r.0.value() < 10,
            r.1.value() <= 8,
            r.0.value() + 10 * r.1.value() == self.value() * other.value(),
    {
        assert(self.0 * other.0 <= 81) by (nonlinear_arith)
            requires
                self.0 < 10,
                other.0 < 10,
        ;
        let prod: u8 = self.0 * other.0;
        let digit: u8 = prod % 10;
        let carry: u8 = prod / 10;
        (Digit(digit), Digit(carry))
    }
}

} // verus!
