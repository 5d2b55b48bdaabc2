//! Decimal numbers for prices: 96 bits of digits, a sign and a scale, as
//! the `rust_decimal` crate keeps them. The library holds a number as its
//! plain parts and hands them to the crate for every operation.

use vstd::prelude::*;
use rust_decimal::prelude::{FromPrimitive, ToPrimitive};
use rust_decimal::Decimal;
use core::str::FromStr;

verus! {

/// The largest scale of a decimal: the number of digits behind the point.
pub const MAX_SCALE: u32 = 28;

/// A decimal number: the digits `hi · 2^64 + mid · 2^32 + lo`, negated
/// where `negative`, divided by `10^scale`.
#[derive(Clone, Copy, Debug, PartialEq, Eq, Structural)]
pub struct Amount {
    pub lo: u32,
    pub mid: u32,
    pub hi: u32,
    pub negative: bool,
    pub scale: u32,
}

/// The digits of an amount, as one number.
pub open spec fn digits(a: Amount) -> int {
    a.hi * 0x1_0000_0000_0000_0000 + a.mid * 0x1_0000_0000 + a.lo
}

/// Ten to the power `n`.
pub open spec fn pow10(n: nat) -> int
    decreases n,
{
    if n == 0 {
        1
    } else {
        10 * pow10((n - 1) as nat)
    }
}

/// The decimal that a text spells, or `None` where it spells none.
pub uninterp spec fn decimal_of_text(text: Seq<char>) -> Option<Amount>;

/// The product of two decimals, or `None` where it has too many digits.
pub uninterp spec fn decimal_product(a: Amount, b: Amount) -> Option<Amount>;

/// The sum of two decimals, or `None` where it has too many digits.
pub uninterp spec fn decimal_sum(a: Amount, b: Amount) -> Option<Amount>;

/// The whole number that an amount is cut down to, where it is not below
/// zero.
pub open spec fn whole_part(a: Amount) -> Option<int> {
    if a.negative && digits(a) != 0 {
        None
    } else {
        Some(digits(a) / pow10(a.scale as nat))
    }
}

/// `Decimal::from_str`: the decimal that the text spells; its scale is at
/// most 28.
#[verifier::external_body]
pub(crate) fn parse_decimal(text: &str) -> (r: Option<Amount>)
    ensures
        r == decimal_of_text(text@),
        r is Some ==> r->0.scale <= MAX_SCALE,
{
    match Decimal::from_str(text) {
        Ok(d) => {
            let p = d.unpack();
            Some(Amount { lo: p.lo, mid: p.mid, hi: p.hi, negative: p.negative, scale: p.scale })
        },
        Err(_) => None,
    }
}

/// The decimal that a whole number is: its digits in three words of 32
/// bits, no sign and no digits behind the point; `None` where the number
/// has more than 96 bits.
pub open spec fn whole_amount(n: u128) -> Option<Amount> {
    if n < 0x1_0000_0000_0000_0000_0000_0000 {
        Some(
            Amount {
                lo: (n % 0x1_0000_0000) as u32,
                mid: ((n / 0x1_0000_0000) % 0x1_0000_0000) as u32,
                hi: (n / 0x1_0000_0000_0000_0000) as u32,
                negative: false,
                scale: 0,
            },
        )
    } else {
        None
    }
}

/// `Decimal::from_u128`: the decimal with these digits and scale 0, where
/// the number has at most 96 bits.
#[verifier::external_body]
pub(crate) fn decimal_from_u128(n: u128) -> (r: Option<Amount>)
    ensures
        r == whole_amount(n),
{
    match Decimal::from_u128(n) {
        Some(d) => {
            let p = d.unpack();
            Some(Amount { lo: p.lo, mid: p.mid, hi: p.hi, negative: p.negative, scale: p.scale })
        },
        None => None,
    }
}

/// `Decimal::checked_mul`: the product, where it can be held.
#[verifier::external_body]
pub(crate) fn decimal_mul(a: Amount, b: Amount) -> (r: Option<Amount>)
    requires
        a.scale <= MAX_SCALE,
        b.scale <= MAX_SCALE,
    ensures
        r == decimal_product(a, b),
        r is Some ==> r->0.scale <= MAX_SCALE,
{
    let x = Decimal::from_parts(a.lo, a.mid, a.hi, a.negative, a.scale);
    let y = Decimal::from_parts(b.lo, b.mid, b.hi, b.negative, b.scale);
    match x.checked_mul(y) {
        Some(d) => {
            let p = d.unpack();
            Some(Amount { lo: p.lo, mid: p.mid, hi: p.hi, negative: p.negative, scale: p.scale })
        },
        None => None,
    }
}

/// `Decimal::checked_add`: the sum, where it can be held.
#[verifier::external_body]
pub(crate) fn decimal_add(a: Amount, b: Amount) -> (r: Option<Amount>)
    requires
        a.scale <= MAX_SCALE,
        b.scale <= MAX_SCALE,
    ensures
        r == decimal_sum(a, b),
        r is Some ==> r->0.scale <= MAX_SCALE,
{
    let x = Decimal::from_parts(a.lo, a.mid, a.hi, a.negative, a.scale);
    let y = Decimal::from_parts(b.lo, b.mid, b.hi, b.negative, b.scale);
    match x.checked_add(y) {
        Some(d) => {
            let p = d.unpack();
            Some(Amount { lo: p.lo, mid: p.mid, hi: p.hi, negative: p.negative, scale: p.scale })
        },
        None => None,
    }
}

/// `Decimal::to_u128`: the digits before the point, for a number that is
/// not below zero.
#[verifier::external_body]
pub(crate) fn decimal_to_u128(a: Amount) -> (r: Option<u128>)
    requires
        a.scale <= MAX_SCALE,
    ensures
        r is Some == whole_part(a) is Some,
        r is Some ==> r->0 == whole_part(a)->0,
{
    Decimal::from_parts(a.lo, a.mid, a.hi, a.negative, a.scale).to_u128()
}

} // verus!
