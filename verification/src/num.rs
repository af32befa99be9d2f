//! Arithmetic on IEEE-754 binary64 bit patterns, and parsing of numeric
//! literals to such patterns.
//!
//! The language's numbers are binary64 values carried as `u64` bit patterns
//! (see [`crate::runtime_val`]). The four arithmetic operations and decimal
//! parsing are performed by `rustc_apfloat`, a software implementation of
//! IEEE-754 arithmetic that works directly on bit patterns, with
//! round-to-nearest-even. Each result is deterministic in the operands'
//! patterns alone, so each operation's result is given a name that contracts
//! elsewhere can speak of.

use rustc_apfloat::ieee::Double;
use rustc_apfloat::Float;
use vstd::prelude::*;

verus! {

/// Result pattern of IEEE-754 binary64 addition, round-to-nearest-even.
pub uninterp spec fn add_bits(a: u64, b: u64) -> u64;

/// Result pattern of IEEE-754 binary64 subtraction, round-to-nearest-even.
pub uninterp spec fn sub_bits(a: u64, b: u64) -> u64;

/// Result pattern of IEEE-754 binary64 multiplication, round-to-nearest-even.
pub uninterp spec fn mul_bits(a: u64, b: u64) -> u64;

/// Result pattern of IEEE-754 binary64 division, round-to-nearest-even.
pub uninterp spec fn div_bits(a: u64, b: u64) -> u64;

/// The binary64 pattern a decimal literal parses to, or `None` when the
/// text is not a number.
pub uninterp spec fn bits_of_decimal(s: Seq<char>) -> Option<u64>;

/// Relies on `rustc_apfloat`'s `Double` addition (`add_r` with
/// round-to-nearest-even): IEEE-754 binary64 addition on the operands' bit
/// patterns alone.
#[verifier::external_body]
pub(crate) fn num_add(a: u64, b: u64) -> (r: u64)
    ensures
        r == add_bits(a, b),
{
    (Double::from_bits(a as u128) + Double::from_bits(b as u128)).value.to_bits() as u64
}

/// Relies on `rustc_apfloat`'s `Double` subtraction (`sub_r` with
/// round-to-nearest-even).
#[verifier::external_body]
pub(crate) fn num_sub(a: u64, b: u64) -> (r: u64)
    ensures
        r == sub_bits(a, b),
{
    (Double::from_bits(a as u128) - Double::from_bits(b as u128)).value.to_bits() as u64
}

/// Relies on `rustc_apfloat`'s `Double` multiplication (`mul_r` with
/// round-to-nearest-even).
#[verifier::external_body]
pub(crate) fn num_mul(a: u64, b: u64) -> (r: u64)
    ensures
        r == mul_bits(a, b),
{
    (Double::from_bits(a as u128) * Double::from_bits(b as u128)).value.to_bits() as u64
}

/// Relies on `rustc_apfloat`'s `Double` division (`div_r` with
/// round-to-nearest-even).
#[verifier::external_body]
pub(crate) fn num_div(a: u64, b: u64) -> (r: u64)
    ensures
        r == div_bits(a, b),
{
    (Double::from_bits(a as u128) / Double::from_bits(b as u128)).value.to_bits() as u64
}

/// Relies on `rustc_apfloat`'s `Double::from_str` (`from_str_r` with
/// round-to-nearest-even): correctly rounded decimal-to-binary64 parsing,
/// a function of the text alone; parse failures become `None`.
#[verifier::external_body]
pub(crate) fn parse_number_bits(s: &str) -> (r: Option<u64>)
    ensures
        r == bits_of_decimal(s@),
{
    match s.parse::<Double>() {
        Ok(d) => Some(d.to_bits() as u64),
        Err(_) => None,
    }
}

} // verus!
