//! Double-precision arithmetic on IEEE-754 bit patterns.
//!
//! Derived-field evaluation works on 64-bit sample values; where those
//! values are IEEE-754 doubles, the arithmetic itself is done by the
//! `rustc_apfloat` software float library, behind the trusted wrappers
//! below. Each operation is a pure function of its argument bit patterns,
//! named by an uninterpreted spec function.

use vstd::prelude::*;

use rustc_apfloat::Float;

verus! {

/// The bit pattern of the IEEE-754 double sum of two double bit patterns.
pub uninterp spec fn add_bits(a: u64, b: u64) -> u64;

/// The bit pattern of the IEEE-754 double difference of two double bit patterns.
pub uninterp spec fn sub_bits(a: u64, b: u64) -> u64;

/// The bit pattern of the IEEE-754 double product of two double bit patterns.
pub uninterp spec fn mul_bits(a: u64, b: u64) -> u64;

/// The bit pattern of the IEEE-754 double quotient of two double bit patterns.
pub uninterp spec fn div_bits(a: u64, b: u64) -> u64;

/// Whether the double with bit pattern `a` is less than the one with `b`.
pub uninterp spec fn lt_bits(a: u64, b: u64) -> bool;

/// The double bit pattern nearest to the unsigned integer `v`.
pub uninterp spec fn double_of_uint(v: u64) -> u64;

/// The unsigned integer the double bit pattern `bits` converts to.
pub uninterp spec fn uint_of_double(bits: u64) -> u64;

/// The double bit pattern a decimal token parses to, if it parses.
pub uninterp spec fn double_bits_of_token(s: Seq<u8>) -> Option<u64>;

/// Relies on rustc_apfloat: `ieee::Double` addition (round to nearest,
/// ties to even) depends on the argument bit patterns alone.
#[verifier::external_body]
pub(crate) fn f64_add(a: u64, b: u64) -> (r: u64)
    ensures
        r == add_bits(a, b),
{
    let x = rustc_apfloat::ieee::Double::from_bits(a as u128);
    let y = rustc_apfloat::ieee::Double::from_bits(b as u128);
    (x + y).value.to_bits() as u64
}

/// Relies on rustc_apfloat: `ieee::Double` subtraction depends on the
/// argument bit patterns alone.
#[verifier::external_body]
pub(crate) fn f64_sub(a: u64, b: u64) -> (r: u64)
    ensures
        r == sub_bits(a, b),
{
    let x = rustc_apfloat::ieee::Double::from_bits(a as u128);
    let y = rustc_apfloat::ieee::Double::from_bits(b as u128);
    (x - y).value.to_bits() as u64
}

/// Relies on rustc_apfloat: `ieee::Double` multiplication depends on the
/// argument bit patterns alone.
#[verifier::external_body]
pub(crate) fn f64_mul(a: u64, b: u64) -> (r: u64)
    ensures
        r == mul_bits(a, b),
{
    let x = rustc_apfloat::ieee::Double::from_bits(a as u128);
    let y = rustc_apfloat::ieee::Double::from_bits(b as u128);
    (x * y).value.to_bits() as u64
}

/// Relies on rustc_apfloat: `ieee::Double` division depends on the
/// argument bit patterns alone.
#[verifier::external_body]
pub(crate) fn f64_div(a: u64, b: u64) -> (r: u64)
    ensures
        r == div_bits(a, b),
{
    let x = rustc_apfloat::ieee::Double::from_bits(a as u128);
    let y = rustc_apfloat::ieee::Double::from_bits(b as u128);
    (x / y).value.to_bits() as u64
}

/// Relies on rustc_apfloat: the `PartialOrd` order of `ieee::Double`
/// depends on the argument bit patterns alone (`NaN` compares less-than
/// nothing).
#[verifier::external_body]
pub(crate) fn f64_lt(a: u64, b: u64) -> (r: bool)
    ensures
        r == lt_bits(a, b),
{
    let x = rustc_apfloat::ieee::Double::from_bits(a as u128);
    let y = rustc_apfloat::ieee::Double::from_bits(b as u128);
    x < y
}

/// Relies on rustc_apfloat: `ieee::Double::from_u128` (round to nearest,
/// ties to even) depends on the integer alone.
#[verifier::external_body]
pub(crate) fn f64_from_uint(v: u64) -> (r: u64)
    ensures
        r == double_of_uint(v),
{
    rustc_apfloat::ieee::Double::from_u128(v as u128).value.to_bits() as u64
}

/// Relies on rustc_apfloat: `ieee::Double::to_u128` with width 64 (round
/// toward zero) depends on the bit pattern alone.
#[verifier::external_body]
pub(crate) fn f64_to_uint(bits: u64) -> (r: u64)
    ensures
        r == uint_of_double(bits),
{
    let x = rustc_apfloat::ieee::Double::from_bits(bits as u128);
    x.to_u128(64).value as u64
}

/// Relies on rustc_apfloat: `ieee::Double::from_str` (round to nearest,
/// ties to even) depends on the token's bytes alone; a token that is not
/// UTF-8 or not a number parses to nothing, and a non-empty token of
/// ASCII digits parses to a value. The length bound keeps clear of the
/// parser's hexadecimal path, whose exponent adjustment converts a byte
/// position difference into an `i32` and panics when it does not fit.
#[verifier::external_body]
pub(crate) fn f64_parse(tok: &[u8]) -> (r: Option<u64>)
    requires
        tok@.len() < 0x8000_0000,
    ensures
        r == double_bits_of_token(tok@),
        tok@.len() >= 1 && (forall|i: int| 0 <= i < tok@.len() ==> 48 <= #[trigger] tok@[i] <= 57)
            ==> r is Some,
{
    match core::str::from_utf8(tok) {
        Ok(s) => match s.parse::<rustc_apfloat::ieee::Double>() {
            Ok(d) => Some(d.to_bits() as u64),
            Err(_) => None,
        },
        Err(_) => None,
    }
}

} // verus!
