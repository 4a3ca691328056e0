//! Arbitrary-precision non-negative integers held as decimal digits.
pub mod decimal;
pub mod digit;
pub mod integer;
pub mod laws;

pub use digit::Digit;
pub use integer::Integer;
