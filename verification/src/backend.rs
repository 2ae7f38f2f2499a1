//! The calls into the `dashu` arbitrary-precision arithmetic crates.
//!
//! Numbers cross this boundary as plain values: the decimal numeral of an
//! integer significand, and the power of ten that scales it. Nothing in this
//! file is proved: each contract is taken from what the called function
//! does. Parsing and printing are stated in full. The arithmetic is not:
//! what it returns is given a name, and the contracts say no more than that
//! the same operands at the same precision give the same result.

use vstd::prelude::*;
use std::str::FromStr;
use dashu::integer::IBig;
use dashu_float::{Context, DBig, Repr};
use dashu_float::round::mode::HalfAway;
use crate::text::is_plain_decimal;
use crate::decimal::{display_text, parsed, Numeral, MAGNITUDE_LIMIT};

verus! {

/// The sum of two decimal numbers at a precision of `precision` significant
/// digits, as `dashu_float::Context::add` computes it with rounding half
/// away from zero.
pub uninterp spec fn decimal_sum(
    a_sig: Seq<char>,
    a_exp: int,
    b_sig: Seq<char>,
    b_exp: int,
    precision: nat,
) -> (Seq<char>, int);

/// The difference of two decimal numbers at a precision of `precision`
/// significant digits, as `dashu_float::Context::sub` computes it with
/// rounding half away from zero.
pub uninterp spec fn decimal_difference(
    a_sig: Seq<char>,
    a_exp: int,
    b_sig: Seq<char>,
    b_exp: int,
    precision: nat,
) -> (Seq<char>, int);

/// The product of two decimal numbers at a precision of `precision`
/// significant digits, as `dashu_float::Context::mul` computes it with
/// rounding half away from zero.
pub uninterp spec fn decimal_product(
    a_sig: Seq<char>,
    a_exp: int,
    b_sig: Seq<char>,
    b_exp: int,
    precision: nat,
) -> (Seq<char>, int);

/// The quotient of two decimal numbers at a precision of `precision`
/// significant digits, as `dashu_float::Context::div` computes it with
/// rounding half away from zero.
pub uninterp spec fn decimal_quotient(
    a_sig: Seq<char>,
    a_exp: int,
    b_sig: Seq<char>,
    b_exp: int,
    precision: nat,
) -> (Seq<char>, int);

/// Calls `DBig::from_str` and hands out the significand and the exponent of
/// what it parsed, each as the crate holds it.
///
/// The contract claims that a plain decimal numeral is always accepted; that
/// its digits are read as one integer, scaled down by ten for every digit
/// behind the point; that the factors of ten of that integer are moved into
/// the exponent; that the significand is printed without leading zeros; and
/// that zero has the significand `0`, the exponent zero and no sign. Of any
/// other text it claims nothing.
#[verifier::external_body]
pub(crate) fn parse_decimal(text: &str) -> (r: Option<Numeral>)
    ensures
        is_plain_decimal(text@) ==> r is Some && r.unwrap()@ == parsed(text@),
{
    match DBig::from_str(text) {
        Ok(v) => Some(
            Numeral {
                significand: v.repr().significand().to_string(),
                exponent: v.repr().exponent(),
            },
        ),
        Err(_) => None,
    }
}

/// Calls `Context::add` at the given precision, rounding half away from
/// zero, and hands out the significand and the exponent of the result.
///
/// The contract claims that the result depends on the operands and the
/// precision alone.
#[verifier::external_body]
pub(crate) fn add_decimals(a: &Numeral, b: &Numeral, precision: usize) -> (r: Numeral)
    requires
        a@.well_formed(),
        b@.well_formed(),
        0 < precision <= MAGNITUDE_LIMIT,
    ensures
        (r@.significand, r@.exponent) == decimal_sum(
            a@.significand,
            a@.exponent,
            b@.significand,
            b@.exponent,
            precision as nat,
        ),
{
    let x = Repr::<10>::new(IBig::from_str(&a.significand).unwrap(), a.exponent);
    let y = Repr::<10>::new(IBig::from_str(&b.significand).unwrap(), b.exponent);
    let z = Context::<HalfAway>::new(precision).add(&x, &y).value();
    Numeral { significand: z.repr().significand().to_string(), exponent: z.repr().exponent() }
}

/// Calls `Context::sub` at the given precision, rounding half away from
/// zero, and hands out the significand and the exponent of the result.
///
/// The contract claims that the result depends on the operands and the
/// precision alone.
#[verifier::external_body]
pub(crate) fn subtract_decimals(a: &Numeral, b: &Numeral, precision: usize) -> (r: Numeral)
    requires
        a@.well_formed(),
        b@.well_formed(),
        0 < precision <= MAGNITUDE_LIMIT,
    ensures
        (r@.significand, r@.exponent) == decimal_difference(
            a@.significand,
            a@.exponent,
            b@.significand,
            b@.exponent,
            precision as nat,
        ),
{
    let x = Repr::<10>::new(IBig::from_str(&a.significand).unwrap(), a.exponent);
    let y = Repr::<10>::new(IBig::from_str(&b.significand).unwrap(), b.exponent);
    let z = Context::<HalfAway>::new(precision).sub(&x, &y).value();
    Numeral { significand: z.repr().significand().to_string(), exponent: z.repr().exponent() }
}

/// Calls `Context::mul` at the given precision, rounding half away from
/// zero, and hands out the significand and the exponent of the result.
///
/// The contract claims that the result depends on the operands and the
/// precision alone.
#[verifier::external_body]
pub(crate) fn multiply_decimals(a: &Numeral, b: &Numeral, precision: usize) -> (r: Numeral)
    requires
        a@.well_formed(),
        b@.well_formed(),
        0 < precision <= MAGNITUDE_LIMIT,
    ensures
        (r@.significand, r@.exponent) == decimal_product(
            a@.significand,
            a@.exponent,
            b@.significand,
            b@.exponent,
            precision as nat,
        ),
{
    let x = Repr::<10>::new(IBig::from_str(&a.significand).unwrap(), a.exponent);
    let y = Repr::<10>::new(IBig::from_str(&b.significand).unwrap(), b.exponent);
    let z = Context::<HalfAway>::new(precision).mul(&x, &y).value();
    Numeral { significand: z.repr().significand().to_string(), exponent: z.repr().exponent() }
}

/// Calls `Context::div` at the given precision, rounding half away from
/// zero, and hands out the significand and the exponent of the result.
/// The divisor must not be zero.
///
/// The contract claims that the result depends on the operands and the
/// precision alone.
#[verifier::external_body]
pub(crate) fn divide_decimals(a: &Numeral, b: &Numeral, precision: usize) -> (r: Numeral)
    requires
        a@.well_formed(),
        b@.well_formed(),
        0 < precision <= MAGNITUDE_LIMIT,
        !b@.is_zero(),
    ensures
        (r@.significand, r@.exponent) == decimal_quotient(
            a@.significand,
            a@.exponent,
            b@.significand,
            b@.exponent,
            precision as nat,
        ),
{
    let x = Repr::<10>::new(IBig::from_str(&a.significand).unwrap(), a.exponent);
    let y = Repr::<10>::new(IBig::from_str(&b.significand).unwrap(), b.exponent);
    let z = Context::<HalfAway>::new(precision).div(&x, &y).value();
    Numeral { significand: z.repr().significand().to_string(), exponent: z.repr().exponent() }
}

/// Calls the `Display` implementation of `DBig` on the number with the
/// given significand and exponent.
///
/// The contract claims positional notation without an exponent: a minus
/// sign for a number below zero; the digits of the significand, followed by
/// as many zeros as the exponent counts; or, with a negative exponent, a
/// decimal point before the last `-exponent` digits, with zeros filled in
/// behind the point where the significand has fewer, and a single zero
/// before the point where nothing else stands there.
#[verifier::external_body]
pub(crate) fn format_decimal(n: &Numeral) -> (r: String)
    requires
        n@.well_formed(),
    ensures
        r@ == display_text(n@),
{
    DBig::from_parts(IBig::from_str(&n.significand).unwrap(), n.exponent).to_string()
}

} // verus!
