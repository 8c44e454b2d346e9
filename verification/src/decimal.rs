//! Fixed-point decimals with eighteen fractional digits.
//!
//! A [`Decimal`] is a count of atomic units, `10^-18` each. Addition,
//! subtraction and comparison work on that count directly. Multiplication and
//! division need a 256-bit intermediate product and are done by
//! `cosmwasm_std`; each such call stands behind one small function whose
//! contract states the rounded quotient it returns.

use vstd::prelude::*;

verus! {

/// Atomic units in one whole unit.
pub const DECIMAL_FRACTIONAL: u128 = 1_000_000_000_000_000_000;

/// The quotient `num / den`, rounded toward zero, where it exists and fits in
/// 128 bits.
pub open spec fn floor_ratio(num: nat, den: nat) -> Option<u128> {
    if den > 0 && num / den <= u128::MAX {
        Some((num / den) as u128)
    } else {
        None
    }
}

/// `Decimal::checked_mul` of `cosmwasm_std` on raw atomic counts: the full
/// product divided by `10^18` and rounded down, or `None` where that quotient
/// does not fit in 128 bits.
#[verifier::external_body]
fn decimal_checked_mul(a: u128, b: u128) -> (r: Option<u128>)
    ensures
        r == floor_ratio(a as nat * b as nat, DECIMAL_FRACTIONAL as nat),
{
    match cosmwasm_std::Decimal::raw(a).checked_mul(cosmwasm_std::Decimal::raw(b)) {
        Ok(d) => Some(d.atomics().u128()),
        Err(_) => None,
    }
}

/// `Decimal::checked_div` of `cosmwasm_std` on raw atomic counts: the dividend
/// scaled by `10^18`, divided by the divisor and rounded down, or `None` where
/// the divisor is zero or the quotient does not fit in 128 bits.
#[verifier::external_body]
fn decimal_checked_div(a: u128, b: u128) -> (r: Option<u128>)
    ensures
        r == floor_ratio(a as nat * DECIMAL_FRACTIONAL as nat, b as nat),
{
    match cosmwasm_std::Decimal::raw(a).checked_div(cosmwasm_std::Decimal::raw(b)) {
        Ok(d) => Some(d.atomics().u128()),
        Err(_) => None,
    }
}

/// `Decimal::checked_from_ratio` of `cosmwasm_std`: the atomic count of
/// `numerator / denominator`, rounded down, or `None` where the denominator
/// is zero or the count does not fit in 128 bits.
#[verifier::external_body]
fn decimal_checked_from_ratio(numerator: u128, denominator: u128) -> (r: Option<u128>)
    ensures
        r == floor_ratio(numerator as nat * DECIMAL_FRACTIONAL as nat, denominator as nat),
{
    match cosmwasm_std::Decimal::checked_from_ratio(numerator, denominator) {
        Ok(d) => Some(d.atomics().u128()),
        Err(_) => None,
    }
}

/// `Uint128::checked_multiply_ratio` of `cosmwasm_std`:
/// `value * numerator / denominator` with a full-width product, rounded down,
/// or `None` where the denominator is zero or the quotient does not fit in
/// 128 bits.
#[verifier::external_body]
fn uint_checked_multiply_ratio(value: u128, numerator: u128, denominator: u128) -> (r: Option<u128>)
    ensures
        r == floor_ratio(value as nat * numerator as nat, denominator as nat),
{
    match cosmwasm_std::Uint128::new(value).checked_multiply_ratio(numerator, denominator) {
        Ok(u) => Some(u.u128()),
        Err(_) => None,
    }
}

/// Computes `value * numerator / denominator`, rounded toward zero, without
/// losing the high bits of the product. `None` where the denominator is zero
/// or the quotient does not fit in 128 bits.
pub fn mul_ratio(value: u128, numerator: u128, denominator: u128) -> (r: Option<u128>)
    ensures
        r == floor_ratio(value as nat * numerator as nat, denominator as nat),
{
    uint_checked_multiply_ratio(value, numerator, denominator)
}

/// A non-negative fixed-point number with eighteen fractional digits.
#[derive(Clone, Copy, Debug, PartialEq, Eq, Structural)]
pub struct Decimal {
    /// The value in units of `10^-18`.
    pub atomics: u128,
}

impl View for Decimal {
    type V = Decimal;

    open spec fn view(&self) -> Decimal {
        *self
    }
}

impl Decimal {
    /// The number whose atomic count is `atomics`.
    pub fn raw(atomics: u128) -> (r: Decimal)
        ensures
            r.atomics == atomics,
    {
        Decimal { atomics }
    }

    /// The number zero.
    pub fn zero() -> (r: Decimal)
        ensures
            r.atomics == 0,
    {
        Decimal { atomics: 0 }
    }

    /// The number one.
    pub fn one() -> (r: Decimal)
        ensures
            r.atomics == DECIMAL_FRACTIONAL,
    {
        Decimal { atomics: DECIMAL_FRACTIONAL }
    }

    /// `x` hundredths.
    pub fn percent(x: u64) -> (r: Decimal)
        ensures
            r.atomics == x * 10_000_000_000_000_000,
    {
        let wide: u128 = x as u128;
        Decimal { atomics: wide * 10_000_000_000_000_000 }
    }

    /// The atomic count of this number.
    pub fn atomics(&self) -> (r: u128)
        ensures
            r == self.atomics,
    {
        self.atomics
    }

    /// Whether this number is zero.
    pub fn is_zero(&self) -> (r: bool)
        ensures
            r == (self.atomics == 0),
    {
        self.atomics == 0
    }

    /// The ratio `numerator / denominator`, rounded down to eighteen digits.
    /// `None` where the denominator is zero or the result is too large.
    pub fn from_ratio(numerator: u128, denominator: u128) -> (r: Option<Decimal>)
        ensures
            r == Self::lift(
                floor_ratio(numerator as nat * DECIMAL_FRACTIONAL as nat, denominator as nat),
            ),
    {
        match decimal_checked_from_ratio(numerator, denominator) {
            Some(atomics) => Some(Decimal { atomics }),
            None => None,
        }
    }

    /// Wraps an optional atomic count as an optional decimal.
    pub open spec fn lift(atomics: Option<u128>) -> Option<Decimal> {
        match atomics {
            Some(a) => Some(Decimal { atomics: a }),
            None => None,
        }
    }

    /// The sum, or `None` where it does not fit.
    pub fn checked_add(self, other: Decimal) -> (r: Option<Decimal>)
        ensures
            self.atomics + other.atomics <= u128::MAX ==> r == Some(
                Decimal { atomics: (self.atomics + other.atomics) as u128 },
            ),
            self.atomics + other.atomics > u128::MAX ==> r.is_none(),
    {
        match self.atomics.checked_add(other.atomics) {
            Some(atomics) => Some(Decimal { atomics }),
            None => None,
        }
    }

    /// The difference, or `None` where `other` is the larger.
    pub fn checked_sub(self, other: Decimal) -> (r: Option<Decimal>)
        ensures
            self.atomics >= other.atomics ==> r == Some(
                Decimal { atomics: (self.atomics - other.atomics) as u128 },
            ),
            self.atomics < other.atomics ==> r.is_none(),
    {
        if self.atomics >= other.atomics {
            Some(Decimal { atomics: self.atomics - other.atomics })
        } else {
            None
        }
    }

    /// The product, rounded down to eighteen digits, or `None` where it does
    /// not fit.
    pub fn checked_mul(self, other: Decimal) -> (r: Option<Decimal>)
        ensures
            r == Self::lift(
                floor_ratio(self.atomics as nat * other.atomics as nat, DECIMAL_FRACTIONAL as nat),
            ),
    {
        match decimal_checked_mul(self.atomics, other.atomics) {
            Some(atomics) => Some(Decimal { atomics }),
            None => None,
        }
    }

    /// The quotient, rounded down to eighteen digits, or `None` where `other`
    /// is zero or the result does not fit.
    pub fn checked_div(self, other: Decimal) -> (r: Option<Decimal>)
        ensures
            r == Self::lift(
                floor_ratio(self.atomics as nat * DECIMAL_FRACTIONAL as nat, other.atomics as nat),
            ),
    {
        match decimal_checked_div(self.atomics, other.atomics) {
            Some(atomics) => Some(Decimal { atomics }),
            None => None,
        }
    }

    /// The whole units in this number, the fraction dropped.
    pub fn to_uint_floor(self) -> (r: u128)
        ensures
            r == self.atomics / DECIMAL_FRACTIONAL,
    {
        self.atomics / DECIMAL_FRACTIONAL
    }
}

/// The rounded quotient `q` of `a` by `b` is the one number with
/// `q * b <= a < (q + 1) * b`.
pub proof fn lemma_floor_bounds(a: int, b: int)
    requires
        0 <= a,
        0 < b,
    ensures
        0 <= a / b,
        (a / b) * b <= a,
        a < (a / b + 1) * b,
{
    vstd::arithmetic::div_mod::lemma_fundamental_div_mod(a, b);
    vstd::arithmetic::div_mod::lemma_mod_pos_bound(a, b);
    vstd::arithmetic::div_mod::lemma_div_pos_is_pos(a, b);
    assert((a / b) * b == b * (a / b)) by (nonlinear_arith);
    assert((a / b + 1) * b == b * (a / b) + b) by (nonlinear_arith);
}

} // verus!
