//! Fixed-point decimals with eighteen fractional digits, and the arithmetic of
//! the ledger's decimal type that conversions rely on.

use vstd::prelude::*;

verus! {

/// Number of attos (the smallest subunit) in one whole unit.
pub const ATTOS_PER_UNIT: i128 = 1_000_000_000_000_000_000;

/// Largest number of fractional digits an amount can carry.
pub const MAX_DIVISIBILITY: u8 = 18;

/// A signed fixed-point number, held as a count of attos (10^-18 units).
#[derive(Clone, Copy, Debug, PartialEq, Eq, Structural)]
pub struct Decimal {
    pub attos: i128,
}

/// The absolute value of `x`.
pub open spec fn magnitude(x: int) -> int {
    if x < 0 {
        -x
    } else {
        x
    }
}

/// Integer division whose quotient is rounded toward zero.
pub open spec fn div_toward_zero(a: int, b: int) -> int {
    let q = magnitude(a) / magnitude(b);
    if (a < 0) == (b < 0) {
        q
    } else {
        -q
    }
}

pub open spec fn fits_i128(x: int) -> bool {
    i128::MIN <= x <= i128::MAX
}

/// Attos of the product of two decimals, rounded toward zero.
pub open spec fn product_attos(a: int, b: int) -> int {
    div_toward_zero(a * b, ATTOS_PER_UNIT as int)
}

/// Attos of the quotient of two decimals, rounded toward zero.
pub open spec fn quotient_attos(a: int, b: int) -> int {
    div_toward_zero(a * ATTOS_PER_UNIT as int, b)
}

pub open spec fn pow10(n: nat) -> int
    decreases n,
{
    if n == 0 {
        1
    } else {
        10 * pow10((n - 1) as nat)
    }
}

/// Attos of `a` rounded toward zero to `places` fractional digits.
pub open spec fn rounded_attos(a: int, places: nat) -> int {
    let step = pow10((MAX_DIVISIBILITY - places) as nat);
    div_toward_zero(a, step) * step
}

impl Decimal {
    pub fn zero() -> (r: Decimal)
        ensures
            r.attos == 0,
    {
        Decimal { attos: 0 }
    }

    pub fn one() -> (r: Decimal)
        ensures
            r.attos == ATTOS_PER_UNIT,
    {
        Decimal { attos: ATTOS_PER_UNIT }
    }

    pub fn from_attos(attos: i128) -> (r: Decimal)
        ensures
            r.attos == attos,
    {
        Decimal { attos }
    }

    /// The decimal holding `units` whole units.
    pub fn from_units(units: i64) -> (r: Decimal)
        ensures
            r.attos == units * ATTOS_PER_UNIT,
    {
        let u: i128 = units as i128;
        proof {
            assert(-9223372036854775808 <= u <= 9223372036854775807);
            assert(-170141183460469231731687303715884105728 <= u * ATTOS_PER_UNIT
                <= 170141183460469231731687303715884105727) by (nonlinear_arith)
                requires
                    -9223372036854775808 <= u <= 9223372036854775807,
                    ATTOS_PER_UNIT == 1_000_000_000_000_000_000,
            ;
        }
        Decimal { attos: u * ATTOS_PER_UNIT }
    }

    pub fn is_negative(&self) -> (r: bool)
        ensures
            r == (self.attos < 0),
    {
        self.attos < 0
    }
}

/// Relies on scrypto's `Decimal::checked_mul`: the product of the attos is
/// divided by 10^18 with the quotient rounded toward zero, and `None` comes
/// back when that leaves the 192-bit range; the result is then read back as
/// `i128` attos.
#[verifier::external_body]
pub(crate) fn checked_mul(a: Decimal, b: Decimal) -> (r: Option<Decimal>)
    ensures
        match r {
            Some(d) => fits_i128(product_attos(a.attos as int, b.attos as int)) && d.attos
                == product_attos(a.attos as int, b.attos as int),
            None => !fits_i128(product_attos(a.attos as int, b.attos as int)),
        },
{
    let x = scrypto::math::Decimal::from_attos(scrypto::math::I192::from(a.attos));
    let y = scrypto::math::Decimal::from_attos(scrypto::math::I192::from(b.attos));
    match scrypto::math::CheckedMul::checked_mul(x, y) {
        Some(c) => i128::try_from(c.attos()).ok().map(|attos| Decimal { attos }),
        None => None,
    }
}

/// Relies on scrypto's `Decimal::checked_div`: the attos of `a` times 10^18
/// are divided by those of `b` with the quotient rounded toward zero, and
/// `None` comes back on a zero divisor; the result is then read back as `i128`
/// attos.
#[verifier::external_body]
pub(crate) fn checked_div(a: Decimal, b: Decimal) -> (r: Option<Decimal>)
    ensures
        match r {
            Some(d) => b.attos != 0 && fits_i128(quotient_attos(a.attos as int, b.attos as int))
                && d.attos == quotient_attos(a.attos as int, b.attos as int),
            None => b.attos == 0 || !fits_i128(quotient_attos(a.attos as int, b.attos as int)),
        },
{
    let x = scrypto::math::Decimal::from_attos(scrypto::math::I192::from(a.attos));
    let y = scrypto::math::Decimal::from_attos(scrypto::math::I192::from(b.attos));
    match scrypto::math::CheckedDiv::checked_div(x, y) {
        Some(c) => i128::try_from(c.attos()).ok().map(|attos| Decimal { attos }),
        None => None,
    }
}

/// Relies on scrypto's `Decimal::checked_round` with `RoundingMode::ToZero`:
/// the attos lose their last `18 - places` digits, toward zero, which cannot
/// overflow; it panics when `places` exceeds 18.
#[verifier::external_body]
pub(crate) fn checked_round_to_zero(d: Decimal, places: u8) -> (r: Option<Decimal>)
    requires
        places <= MAX_DIVISIBILITY,
    ensures
        r is Some,
        r->Some_0.attos == rounded_attos(d.attos as int, places as nat),
{
    let x = scrypto::math::Decimal::from_attos(scrypto::math::I192::from(d.attos));
    match x.checked_round(places, scrypto::math::RoundingMode::ToZero) {
        Some(c) => i128::try_from(c.attos()).ok().map(|attos| Decimal { attos }),
        None => None,
    }
}

} // verus!
