use vstd::prelude::*;

verus! {

/// Number of atomic units in one whole `Decimal` (18 decimal places).
pub const DECIMAL_FRACTIONAL: u128 = 1_000_000_000_000_000_000u128;

/// A fixed-point decimal with 18 places, held by its atomic units:
/// the value is `atomics / 10^18`.
#[derive(Clone, Copy, Debug, PartialEq, Eq, Structural)]
pub struct Decimal {
    pub atomics: u128,
}

/// `a * d`, rounded down, for an integer `a` and a decimal of `d` atomics.
pub open spec fn mul_floor(a: int, d: int) -> int {
    a * d / (DECIMAL_FRACTIONAL as int)
}

/// The decimal `n / d` in atomics, rounded down.
pub open spec fn ratio_atomics(n: int, d: int) -> int {
    n * (DECIMAL_FRACTIONAL as int) / d
}

impl Decimal {
    pub fn raw(atomics: u128) -> (r: Decimal)
        ensures
            r.atomics == atomics,
    {
        Decimal { atomics }
    }

    pub fn zero() -> (r: Decimal)
        ensures
            r.atomics == 0,
    {
        Decimal { atomics: 0 }
    }

    pub fn one() -> (r: Decimal)
        ensures
            r.atomics == DECIMAL_FRACTIONAL,
    {
        Decimal { atomics: DECIMAL_FRACTIONAL }
    }

    pub fn atomics(&self) -> (r: u128)
        ensures
            r == self.atomics,
    {
        self.atomics
    }

    pub fn is_zero(&self) -> (r: bool)
        ensures
            r == (self.atomics == 0),
    {
        self.atomics == 0
    }

    /// Sum of two decimals; cosmwasm_std's `Decimal + Decimal` adds the atomics.
    pub fn add(self, other: Decimal) -> (r: Decimal)
        requires
            self.atomics + other.atomics <= u128::MAX,
        ensures
            r.atomics == self.atomics + other.atomics,
    {
        Decimal { atomics: self.atomics + other.atomics }
    }

    /// Difference of two decimals; cosmwasm_std's `Decimal - Decimal` subtracts the atomics.
    pub fn sub(self, other: Decimal) -> (r: Decimal)
        requires
            other.atomics <= self.atomics,
        ensures
            r.atomics == self.atomics - other.atomics,
    {
        Decimal { atomics: self.atomics - other.atomics }
    }
}

/// `Uint128 * Decimal` of cosmwasm_std (`multiply_ratio` by the atomics over
/// 10^18): the product rounded down. The crate panics when it exceeds 128 bits.
#[verifier::external_body]
pub(crate) fn mul_uint_decimal(a: u128, d: Decimal) -> (r: u128)
    requires
        mul_floor(a as int, d.atomics as int) <= u128::MAX,
    ensures
        r == mul_floor(a as int, d.atomics as int),
{
    (cosmwasm_std::Uint128::new(a) * cosmwasm_std::Decimal::raw(d.atomics)).u128()
}

/// `Decimal * Decimal` of cosmwasm_std: the product of the atomics over 10^18,
/// rounded down. The crate panics when it exceeds 128 bits.
#[verifier::external_body]
pub(crate) fn mul_decimal(a: Decimal, b: Decimal) -> (r: Decimal)
    requires
        mul_floor(a.atomics as int, b.atomics as int) <= u128::MAX,
    ensures
        r.atomics == mul_floor(a.atomics as int, b.atomics as int),
{
    Decimal { atomics: (cosmwasm_std::Decimal::raw(a.atomics) * cosmwasm_std::Decimal::raw(b.atomics)).atomics().u128() }
}

/// `Decimal::from_ratio` of cosmwasm_std: `n * 10^18 / d` atomics, rounded
/// down. The crate panics on a zero denominator and when the result exceeds
/// 128 bits.
#[verifier::external_body]
pub(crate) fn decimal_from_ratio(n: u128, d: u128) -> (r: Decimal)
    requires
        d != 0,
        ratio_atomics(n as int, d as int) <= u128::MAX,
    ensures
        r.atomics == ratio_atomics(n as int, d as int),
{
    Decimal { atomics: cosmwasm_std::Decimal::from_ratio(n, d).atomics().u128() }
}

/// `Decimal::from_atomics(n, 0)` of cosmwasm_std: the whole number `n` as a
/// decimal, `n * 10^18` atomics; `None` where the crate reports that the value
/// exceeds the decimal's range.
#[verifier::external_body]
pub(crate) fn whole_decimal(n: u128) -> (r: Option<Decimal>)
    ensures
        n * DECIMAL_FRACTIONAL <= u128::MAX ==> r == Some(Decimal { atomics: (n * DECIMAL_FRACTIONAL) as u128 }),
        n * DECIMAL_FRACTIONAL > u128::MAX ==> r is None,
{
    match cosmwasm_std::Decimal::from_atomics(n, 0u32) {
        Ok(d) => Some(Decimal { atomics: d.atomics().u128() }),
        Err(_) => None,
    }
}

/// `Uint128::checked_multiply_ratio(a, d, 10^18)` of cosmwasm_std: the
/// product `a * d / 10^18` rounded down, or `None` when it exceeds 128 bits.
#[verifier::external_body]
pub(crate) fn checked_mul_uint_decimal(a: u128, d: Decimal) -> (r: Option<u128>)
    ensures
        mul_floor(a as int, d.atomics as int) <= u128::MAX ==> r == Some(mul_floor(a as int, d.atomics as int) as u128),
        mul_floor(a as int, d.atomics as int) > u128::MAX ==> r is None,
{
    match cosmwasm_std::Uint128::new(a).checked_multiply_ratio(d.atomics, DECIMAL_FRACTIONAL) {
        Ok(v) => Some(v.u128()),
        Err(_) => None,
    }
}

/// `Decimal::checked_from_ratio` of cosmwasm_std: `n * 10^18 / d` atomics,
/// rounded down, or `None` for a zero denominator or a result beyond 128 bits.
#[verifier::external_body]
pub(crate) fn checked_decimal_from_ratio(n: u128, d: u128) -> (r: Option<Decimal>)
    ensures
        d != 0 && ratio_atomics(n as int, d as int) <= u128::MAX ==> r == Some(
            Decimal { atomics: ratio_atomics(n as int, d as int) as u128 },
        ),
        d == 0 || ratio_atomics(n as int, d as int) > u128::MAX ==> r is None,
{
    match cosmwasm_std::Decimal::checked_from_ratio(n, d) {
        Ok(v) => Some(Decimal { atomics: v.atomics().u128() }),
        Err(_) => None,
    }
}

} // verus!
