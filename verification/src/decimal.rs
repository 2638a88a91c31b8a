//! Decimal numbers: parsing, conversion and printing through `rust_decimal`.
use vstd::prelude::*;
use rust_decimal::Decimal;
use std::str::FromStr;
use crate::ast::Number;

verus! {

/// The largest mantissa magnitude a decimal can hold (96 bits).
pub open spec fn max_mantissa() -> int {
    79228162514264337593543950335
}

/// A number `rust_decimal` can represent: scale at most 28 and a 96-bit mantissa.
pub open spec fn valid_number(n: Number) -> bool {
    n.scale <= 28 && -max_mantissa() <= n.mantissa <= max_mantissa()
}

/// `10^e`.
pub open spec fn pow10(e: nat) -> int
    decreases e,
{
    if e == 0 { 1 } else { 10 * pow10((e - 1) as nat) }
}

/// The value of `n` truncated toward zero.
pub open spec fn trunc_value(n: Number) -> int {
    let m = n.mantissa as int;
    if m >= 0 {
        m / pow10(n.scale as nat)
    } else {
        -((-m) / pow10(n.scale as nat))
    }
}

/// What `Decimal::from_str` gives for a text: the mantissa and scale of the
/// parsed decimal, or `None` when the text is refused.
pub uninterp spec fn spec_decimal_parse(text: Seq<char>) -> Option<Number>;

/// `n` zeros.
pub open spec fn zeros(n: nat) -> Seq<char> {
    Seq::new(n, |i: int| '0')
}

/// The digits of `|m|` with at least `scale` of them, zeros added in front
/// (no digits at all for zero).
pub open spec fn padded_digits(m: int, scale: nat) -> Seq<char> {
    let a = if m < 0 { -m } else { m };
    let d = if a == 0 { Seq::<char>::empty() } else { crate::text::nat_digits(a as nat) };
    if d.len() < scale { zeros((scale - d.len()) as nat) + d } else { d }
}

/// What `Display` of a decimal prints: a `-` for a negative mantissa, the
/// whole part (`0` when empty), then, when the scale is positive, a point
/// and the last `scale` digits.
#[verifier::opaque]
pub open spec fn spec_decimal_text(n: Number) -> Seq<char> {
    let p = padded_digits(n.mantissa as int, n.scale as nat);
    let w = p.len() - n.scale;
    (if n.mantissa < 0 { seq!['-'] } else { Seq::empty() })
        + (if w == 0 { seq!['0'] } else { p.subrange(0, w) })
        + (if n.scale > 0 { seq!['.'] + p.subrange(w, p.len() as int) } else { Seq::empty() })
}

/// Parses decimal text.
///
/// Trusted wrapper of `Decimal::from_str`: the result is the named parse of
/// `text` (mantissa and scale of the decimal), and any parsed value is a
/// valid decimal.
#[verifier::external_body]
pub fn decimal_parse(text: &str) -> (r: Option<Number>)
    ensures
        r == spec_decimal_parse(text@),
        r matches Some(n) ==> valid_number(n),
{
    match Decimal::from_str(text) {
        Ok(d) => Some(Number { mantissa: d.mantissa(), scale: d.scale() }),
        Err(_) => None,
    }
}

/// The integer part of a decimal, truncated toward zero, when it fits in an
/// `i64` (what `ToPrimitive::to_i64` gives for a `Decimal`).
pub fn decimal_to_i64(n: Number) -> (r: Option<i64>)
    requires
        valid_number(n),
    ensures
        r == (if i64::MIN <= trunc_value(n) <= i64::MAX { Some(trunc_value(n) as i64) } else { None }),
{
    let neg = n.mantissa < 0;
    let mut a: u128 = if neg { (0 - n.mantissa) as u128 } else { n.mantissa as u128 };
    let ghost m = n.mantissa as int;
    let ghost am: int = if m < 0 { -m } else { m };
    let mut k: u32 = 0;
    while k < n.scale
        invariant
            k <= n.scale,
            n.scale <= 28,
            0 <= am,
            a as int == am / pow10(k as nat),
        decreases n.scale - k,
    {
        proof {
            lemma_pow10_pos(k as nat);
            vstd::arithmetic::div_mod::lemma_div_denominator(am, pow10(k as nat), 10);
            assert(pow10((k + 1) as nat) == 10 * pow10(k as nat));
            assert(pow10(k as nat) * 10 == 10 * pow10(k as nat)) by (nonlinear_arith);
        }
        a = a / 10;
        k = k + 1;
    }
    proof {
        assert(trunc_value(n) == if m >= 0 { am / pow10(n.scale as nat) } else { -(am / pow10(n.scale as nat)) });
    }
    if neg {
        if a <= 9223372036854775808u128 {
            if a == 9223372036854775808u128 {
                Some(i64::MIN)
            } else {
                Some(0i64 - (a as i64))
            }
        } else {
            None
        }
    } else if a <= 9223372036854775807u128 {
        Some(a as i64)
    } else {
        None
    }
}

/// Powers of ten are positive.
proof fn lemma_pow10_pos(e: nat)
    ensures
        pow10(e) > 0,
    decreases e,
{
    if e > 0 {
        lemma_pow10_pos((e - 1) as nat);
    }
}

/// The printed form of a decimal (its `Display`).
///
/// Trusted wrapper of `ToString::to_string` on `Decimal`: the text is the
/// sign, the whole digits and, for a positive scale, the point and `scale`
/// fractional digits (see [`spec_decimal_text`]).
#[verifier::external_body]
pub fn decimal_to_string(n: Number) -> (s: String)
    requires
        valid_number(n),
    ensures
        s@ == spec_decimal_text(n),
{
    Decimal::from_i128_with_scale(n.mantissa, n.scale).to_string()
}

} // verus!
