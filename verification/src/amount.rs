//! Money and rates as integers.
//!
//! A price counts millionths of a currency unit. A discount counts
//! ten-thousandths of a percent, so that a million of them is the whole
//! price. A deposit multiplier counts ten-thousandths. An amount is a price
//! times a quantity, times what the discount leaves, times a multiplier, and
//! counts units of `10^-16` currency units: no amount is ever rounded.
//! Amounts are kept in `i128` and stay at its bounds where the exact value
//! lies beyond them.

use vstd::prelude::*;
use crate::number::{read_decimal, reading_of, Reading};
use crate::text::chars_of;

verus! {

/// The decimal places of a price.
pub const PRICE_PLACES: u32 = 6;

/// The price of one currency unit.
pub const PRICE_SCALE: i64 = 1_000_000;

/// The decimal places of a discount in percent.
pub const DISCOUNT_PLACES: u32 = 4;

/// The discount of 100 percent.
pub const FULL_DISCOUNT: u32 = 1_000_000;

/// The deposit multiplier 1.
pub const MULTIPLIER_SCALE: u32 = 10_000;

/// The share of a one-shot amount that is due at once: one half.
pub const DEPOSIT_MULTIPLIER: u32 = 5_000;

/// The amount of one currency unit.
pub const AMOUNT_SCALE: i128 = 10_000_000_000_000_000;

/// The price that `text` writes: a decimal number of currency units, cut off
/// after six decimal places, whose count of millionths is no more than
/// `i64::MAX` in magnitude.
pub open spec fn price_of(text: Seq<char>) -> Option<int> {
    match reading_of(text, PRICE_PLACES as nat, i64::MAX as nat) {
        Reading::Exact { negative, magnitude } => Some(
            if negative {
                -(magnitude as int)
            } else {
                magnitude as int
            },
        ),
        _ => None,
    }
}

/// `v` where it is an `i128`, else the bound of `i128` on its side.
pub open spec fn clamped(v: int) -> i128 {
    if v > i128::MAX {
        i128::MAX
    } else if v < i128::MIN {
        i128::MIN
    } else {
        v as i128
    }
}

/// Clamping keeps the order of numbers.
pub proof fn lemma_clamped_keeps_order(a: int, b: int)
    requires
        a <= b,
    ensures
        clamped(a) <= clamped(b),
{
}

/// The price that the characters `text` write, if they write one.
pub fn price_from(text: &[char]) -> (out: Option<i64>)
    ensures
        out is Some <==> price_of(text@) is Some,
        out matches Some(price) ==> price_of(text@) == Some(price as int),
{
    match read_decimal(text, PRICE_PLACES, i64::MAX as u64) {
        Reading::Exact { negative, magnitude } => Some(
            if negative {
                -(magnitude as i64)
            } else {
                magnitude as i64
            },
        ),
        _ => None,
    }
}

/// The price that `text` writes, if it writes one.
pub fn parse_price(text: &str) -> (out: Option<i64>)
    ensures
        out is Some <==> price_of(text@) is Some,
        out matches Some(price) ==> price_of(text@) == Some(price as int),
{
    let chars = chars_of(text);
    price_from(chars.as_slice())
}

/// The sum of two amounts, clamped.
pub fn add_clamped(a: i128, b: i128) -> (out: i128)
    ensures
        out == clamped(a + b),
{
    match a.checked_add(b) {
        Some(sum) => sum,
        None => if a > 0 {
            i128::MAX
        } else {
            i128::MIN
        },
    }
}

/// An amount times a factor that is not negative, clamped.
pub fn scale_clamped(a: i128, factor: i128) -> (out: i128)
    requires
        factor >= 0,
    ensures
        out == clamped(a * factor),
{
    proof {
        assert(a >= 0 ==> a * factor >= 0) by (nonlinear_arith)
            requires
                factor >= 0,
        ;
        assert(a <= 0 ==> a * factor <= 0) by (nonlinear_arith)
            requires
                factor >= 0,
        ;
    }
    match a.checked_mul(factor) {
        Some(product) => product,
        None => if a > 0 {
            i128::MAX
        } else {
            i128::MIN
        },
    }
}

} // verus!
