//! Arithmetic on numeric values.
//!
//! A number is carried as the 64-bit pattern of an IEEE-754 double (see
//! `value::Number`). The verifier does not reason about floating point, so
//! each operation is delegated to `rustc_apfloat`'s software implementation
//! of IEEE-754 and its result is given a name: an uninterpreted function of
//! the operand bit patterns alone. Every operation here is deterministic —
//! the same bit patterns give the same result on every machine — which is
//! what naming the result claims.

use vstd::prelude::*;
use rustc_apfloat::Float;
use rustc_apfloat::ieee::Double;

verus! {

/// The bit pattern of the IEEE-754 sum of two doubles, ties to even.
pub uninterp spec fn add_bits(a: u64, b: u64) -> u64;

/// The bit pattern of the IEEE-754 difference of two doubles, ties to even.
pub uninterp spec fn sub_bits(a: u64, b: u64) -> u64;

/// The bit pattern of the IEEE-754 product of two doubles, ties to even.
pub uninterp spec fn mul_bits(a: u64, b: u64) -> u64;

/// The bit pattern of the IEEE-754 quotient of two doubles, ties to even.
pub uninterp spec fn div_bits(a: u64, b: u64) -> u64;

/// The bit pattern of an IEEE-754 double with its sign flipped: negation
/// is exactly a flip of the top bit, so unlike the operations above it
/// needs no outside implementation.
pub open spec fn neg_bits(a: u64) -> u64 {
    a ^ 0x8000_0000_0000_0000
}

/// Whether IEEE-754 ordering puts the first double strictly below the second.
pub uninterp spec fn lt_bits(a: u64, b: u64) -> bool;

/// Whether IEEE-754 ordering puts the first double strictly above the second.
pub uninterp spec fn gt_bits(a: u64, b: u64) -> bool;

/// Whether two doubles are equal under IEEE-754 comparison (not bitwise:
/// positive and negative zero are equal, and a NaN equals nothing).
pub uninterp spec fn eq_bits(a: u64, b: u64) -> bool;

/// The double denoted by a decimal literal, correctly rounded, or nothing
/// when the text is not a numeric literal.
pub uninterp spec fn parse_bits(s: Seq<char>) -> Option<u64>;

/// The decimal rendering of a double.
pub uninterp spec fn text_of_bits(a: u64) -> Seq<char>;

/// Relies on `rustc_apfloat`: `ops::Add` for `ieee::Double` rounds to
/// nearest, ties to even.
#[verifier::external_body]
pub fn num_add(a: u64, b: u64) -> (r: u64)
    ensures
        r == add_bits(a, b),
{
    let x = Double::from_bits(a as u128);
    let y = Double::from_bits(b as u128);
    (x + y).value.to_bits() as u64
}

/// Relies on `rustc_apfloat`: `ops::Sub` for `ieee::Double` rounds to
/// nearest, ties to even.
#[verifier::external_body]
pub fn num_sub(a: u64, b: u64) -> (r: u64)
    ensures
        r == sub_bits(a, b),
{
    let x = Double::from_bits(a as u128);
    let y = Double::from_bits(b as u128);
    (x - y).value.to_bits() as u64
}

/// Relies on `rustc_apfloat`: `ops::Mul` for `ieee::Double` rounds to
/// nearest, ties to even.
#[verifier::external_body]
pub fn num_mul(a: u64, b: u64) -> (r: u64)
    ensures
        r == mul_bits(a, b),
{
    let x = Double::from_bits(a as u128);
    let y = Double::from_bits(b as u128);
    (x * y).value.to_bits() as u64
}

/// Relies on `rustc_apfloat`: `ops::Div` for `ieee::Double` rounds to
/// nearest, ties to even.
#[verifier::external_body]
pub fn num_div(a: u64, b: u64) -> (r: u64)
    ensures
        r == div_bits(a, b),
{
    let x = Double::from_bits(a as u128);
    let y = Double::from_bits(b as u128);
    (x / y).value.to_bits() as u64
}

/// Flips the sign bit: IEEE-754 negation.
pub fn num_neg(a: u64) -> (r: u64)
    ensures
        r == neg_bits(a),
{
    a ^ 0x8000_0000_0000_0000
}

/// Relies on `rustc_apfloat`: `PartialOrd::lt` for `ieee::Double` implements
/// the IEEE-754 ordering (false whenever an operand is a NaN).
#[verifier::external_body]
pub fn num_lt(a: u64, b: u64) -> (r: bool)
    ensures
        r == lt_bits(a, b),
{
    let x = Double::from_bits(a as u128);
    let y = Double::from_bits(b as u128);
    x < y
}

/// Relies on `rustc_apfloat`: `PartialOrd::gt` for `ieee::Double` implements
/// the IEEE-754 ordering (false whenever an operand is a NaN).
#[verifier::external_body]
pub fn num_gt(a: u64, b: u64) -> (r: bool)
    ensures
        r == gt_bits(a, b),
{
    let x = Double::from_bits(a as u128);
    let y = Double::from_bits(b as u128);
    x > y
}

/// Relies on `rustc_apfloat`: `PartialEq::eq` for `ieee::Double` is IEEE-754
/// equality (`partial_cmp` yielding `Equal`), not bitwise equality.
#[verifier::external_body]
pub fn num_eq(a: u64, b: u64) -> (r: bool)
    ensures
        r == eq_bits(a, b),
{
    let x = Double::from_bits(a as u128);
    let y = Double::from_bits(b as u128);
    x == y
}

/// Relies on `rustc_apfloat`: `FromStr` for `ieee::Double` parses a decimal
/// literal with rounding to nearest, ties to even.
#[verifier::external_body]
pub fn num_from_str(s: &str) -> (r: Option<u64>)
    ensures
        r == parse_bits(s@),
{
    match s.parse::<Double>() {
        Ok(d) => Some(d.to_bits() as u64),
        Err(_) => None,
    }
}

/// Relies on `rustc_apfloat`: `Display` for `ieee::Double` renders the value
/// in decimal, falling back to scientific notation for extreme magnitudes.
#[verifier::external_body]
pub fn num_to_text(a: u64) -> (r: String)
    ensures
        r@ == text_of_bits(a),
{
    let x = Double::from_bits(a as u128);
    format!("{}", x)
}

} // verus!
