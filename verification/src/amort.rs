//! Fixed-point amortization.
//!
//! A thirty-year schedule computed in floating point drifts by dollars over
//! its life, so compounding is done in `i128` fixed point at [`SCALE`] and the
//! payment is rounded exactly once, at the end.

use crate::money::{
    abs, checked_money, kept_in, lemma_arithmetic_keeps_currency, lemma_bps_ext, lemma_checked_money_currency, lemma_round_exact_multiple, lemma_round_half_away_bound, round_half_away, rounding_is_defined, div_round_half_away, div_round_spec, fits_i128, fits_i64, group_money,
    money_apply, money_div_int, money_mul_int, money_sub, rounding_takes_abs_of_min, trunc_div, Bps,
    Currency, Money, MoneyError,
};
use vstd::arithmetic::div_mod::*;
use vstd::arithmetic::mul::{lemma_mul_is_distributive_add, lemma_mul_is_distributive_sub, lemma_mul_nonnegative};
use vstd::arithmetic::power::{lemma_pow0, lemma_pow1, lemma_square_is_pow2, lemma_pow_adds, lemma_pow_distributes, lemma_pow_multiplies, lemma_pow_positive, pow};
use vstd::prelude::*;

verus! {

broadcast use group_money;

/// Fixed-point scale for compounding intermediates (1.0 == 10^12).
pub const SCALE: i128 = 1_000_000_000_000;

/// Months in a year.
pub const MONTHS_PER_YEAR: i64 = 12;

/// Largest magnitude a fixed-point product can have after rescaling.
pub open spec fn fp_bound() -> int {
    0x8000_0000_0000_0000_0000_0000_0000_0000int / (SCALE as int)
}

/// The fixed-point product `a * b / SCALE`, truncated toward zero, or `None`
/// when `a * b` does not fit in an `i128`.
pub open spec fn mul_fp_spec(a: int, b: int) -> Option<int> {
    if fits_i128(a * b) {
        Some(trunc_div(a * b, SCALE as int))
    } else {
        None
    }
}

/// Binary exponentiation in fixed point: the accumulator `acc` is multiplied
/// by `base` for every set bit of `exp`, from the lowest, and `base` is
/// squared between bits while bits remain. Each product is truncated, so the
/// result is this exact sequence of truncations; `None` when a product
/// overflows.
pub open spec fn pow_fp_from(acc: int, base: int, exp: nat) -> Option<int>
    decreases exp,
{
    if exp == 0 {
        Some(acc)
    } else {
        let stepped = if exp % 2 == 1 { mul_fp_spec(acc, base) } else { Some(acc) };
        match stepped {
            None => None,
            Some(next) => if exp / 2 > 0 {
                match mul_fp_spec(base, base) {
                    None => None,
                    Some(squared) => pow_fp_from(next, squared, exp / 2),
                }
            } else {
                Some(next)
            },
        }
    }
}

/// The periodic (monthly) rate as fixed point, from an annual nominal rate.
pub open spec fn monthly_rate_spec(annual: Bps) -> int {
    trunc_div(annual.raw() * SCALE, Bps::SCALE * MONTHS_PER_YEAR)
}

/// The largest magnitude a monthly fixed-point rate can have.
pub open spec fn monthly_rate_bound() -> int {
    0x8000_0000_0000_0000int * 1_000_000_000_000int / 120_000int
}

/// Constants that bound the fixed-point intermediates.
proof fn lemma_fp_constants()
    ensures
        monthly_rate_bound() == 76_861_433_640_456_465_066_666_666int,
        fp_bound() == 170_141_183_460_469_231_731_687_303int,
        (SCALE as int) * fp_bound() <= i128::MAX,
        (SCALE as int) * monthly_rate_bound() < 0x4000_0000_0000_0000_0000_0000_0000_0000,
        monthly_rate_bound() + SCALE <= fp_bound(),
{
    lemma_fundamental_div_mod_converse(
        0x8000_0000_0000_0000int * 1_000_000_000_000int,
        120_000int,
        76_861_433_640_456_465_066_666_666int,
        80_000int,
    );
}

/// `(1 + r)^n` in fixed point for a monthly fixed-point rate `r`.
pub open spec fn growth_spec(rate_fp: int, months: nat) -> Option<int> {
    pow_fp_from(SCALE as int, SCALE + rate_fp, months)
}

/// The level payment up to its single rounding: either the outcome is already
/// decided, or it is the rounded quotient of the returned numerator and
/// denominator, `L * r * (1+r)^n / (SCALE * ((1+r)^n - 1))`.
pub open spec fn payment_before_rounding(principal: Money, annual_rate: Bps, term_months: u32) -> Result<
    (int, int),
    Result<Money, MoneyError>,
> {
    let r = monthly_rate_spec(annual_rate);
    if term_months == 0 {
        Err(Err(MoneyError::NonPositive { field: "term_months", value: 0 }))
    } else if principal.minor() == 0 {
        Err(Ok(Money::from_minor(0, principal.currency())))
    } else if r == 0 {
        Err(money_div_int(principal, term_months as i64))
    } else {
        match growth_spec(r, term_months as nat) {
            None => Err(Err(MoneyError::Overflow { op: "amort::mul_fp" })),
            Some(g) => if g - SCALE <= 0 {
                Err(Err(MoneyError::Overflow { op: "amort::growth_underflow" }))
            } else if !fits_i128(principal.minor() * r) || !fits_i128(principal.minor() * r * g) {
                Err(Err(MoneyError::Overflow { op: "amort::numer" }))
            } else {
                Ok((principal.minor() * r * g, SCALE * (g - SCALE)))
            },
        }
    }
}

/// The outcome of [`monthly_payment`].
pub open spec fn payment_spec(principal: Money, annual_rate: Bps, term_months: u32) -> Result<
    Money,
    MoneyError,
> {
    match payment_before_rounding(principal, annual_rate, term_months) {
        Err(decided) => decided,
        Ok((n, d)) => match div_round_spec(n, d, "amort::div") {
            Err(e) => Err(e),
            Ok(m) => checked_money(m as int, principal.currency(), "amort::payment"),
        },
    }
}

/// The payment's single rounding is defined: it never takes the absolute
/// value of `i128::MIN`.
pub open spec fn payment_defined(principal: Money, annual_rate: Bps, term_months: u32) -> bool {
    match payment_before_rounding(principal, annual_rate, term_months) {
        Err(_) => true,
        Ok((n, d)) => !rounding_takes_abs_of_min(n, d),
    }
}

/// The rescaled product of two `i128` values is within [`fp_bound`].
proof fn lemma_mul_fp_bound(a: int, b: int)
    requires
        fits_i128(a * b),
    ensures
        abs(trunc_div(a * b, SCALE as int)) <= fp_bound(),
{
    lemma_div_is_ordered(abs(a * b), 0x8000_0000_0000_0000_0000_0000_0000_0000int, SCALE as int);
}

/// Every result of [`pow_fp_from`] from an accumulator within [`fp_bound`]
/// stays within it.
proof fn lemma_pow_fp_bound(acc: int, base: int, exp: nat)
    requires
        abs(acc) <= fp_bound(),
    ensures
        pow_fp_from(acc, base, exp) matches Some(v) ==> abs(v) <= fp_bound(),
    decreases exp,
{
    if exp > 0 {
        if exp % 2 == 1 && fits_i128(acc * base) {
            lemma_mul_fp_bound(acc, base);
        }
        let stepped = if exp % 2 == 1 { mul_fp_spec(acc, base) } else { Some(acc) };
        if let Some(next) = stepped {
            if exp / 2 > 0 && fits_i128(base * base) {
                lemma_mul_fp_bound(base, base);
                lemma_pow_fp_bound(next, trunc_div(base * base, SCALE as int), exp / 2);
            }
        }
    }
}

/// Multiply two fixed-point values.
fn mul_fp(a: i128, b: i128) -> (r: Result<i128, MoneyError>)
    ensures
        r == match mul_fp_spec(a as int, b as int) {
            Some(v) => Ok(v as i128),
            None => Err(MoneyError::Overflow { op: "amort::mul_fp" }),
        },
        r matches Ok(v) ==> abs(v as int) <= fp_bound(),
{
    let product = match a.checked_mul(b) {
        Some(p) => p,
        None => {
            return Err(MoneyError::Overflow { op: "amort::mul_fp" });
        },
    };
    proof {
        lemma_mul_fp_bound(a as int, b as int);
    }
    match product.checked_div(SCALE) {
        Some(q) => Ok(q),
        None => Err(MoneyError::Overflow { op: "amort::mul_fp" }),
    }
}

/// Raise a fixed-point base to an integer power by binary exponentiation.
fn pow_fp(base_in: i128, exp_in: u32) -> (r: Result<i128, MoneyError>)
    requires
        abs(base_in as int) <= fp_bound(),
    ensures
        r == match pow_fp_from(SCALE as int, base_in as int, exp_in as nat) {
            Some(v) => Ok(v as i128),
            None => Err(MoneyError::Overflow { op: "amort::mul_fp" }),
        },
        r matches Ok(v) ==> abs(v as int) <= fp_bound(),
        pow_fp_from(SCALE as int, base_in as int, exp_in as nat) matches Some(v) ==> abs(v) <= fp_bound(),
{
    let ghost target = pow_fp_from(SCALE as int, base_in as int, exp_in as nat);
    let mut result = SCALE;
    let mut base = base_in;
    let mut exp = exp_in;
    proof {
        lemma_pow_fp_bound(SCALE as int, base as int, exp as nat);
    }
    while exp > 0
        invariant
            target == pow_fp_from(SCALE as int, base_in as int, exp_in as nat),
            target == pow_fp_from(result as int, base as int, exp as nat),
            target matches Some(v) ==> abs(v) <= fp_bound(),
            abs(result as int) <= fp_bound(),
            abs(base as int) <= fp_bound(),
        decreases exp,
    {
        proof {
            assert((exp & 1 == 1) == (exp % 2 == 1)) by (bit_vector);
            assert(exp >> 1 == exp / 2) by (bit_vector);
        }
        let ghost e = exp as nat;
        let ghost stepped = if e % 2 == 1 {
            mul_fp_spec(result as int, base as int)
        } else {
            Some(result as int)
        };
        assert(target == match stepped {
            None => None,
            Some(next) => if e / 2 > 0 {
                match mul_fp_spec(base as int, base as int) {
                    None => None,
                    Some(squared) => pow_fp_from(next, squared, e / 2),
                }
            } else {
                Some(next)
            },
        });
        if exp & 1 == 1 {
            result = mul_fp(result, base)?;
        }
        exp >>= 1;
        if exp > 0 {
            base = mul_fp(base, base)?;
        }
    }
    Ok(result)
}

/// Integer division rounding half away from zero, labelled for this module.
fn div_round(numer: i128, denom: i128) -> (r: Result<i128, MoneyError>)
    requires
        !rounding_takes_abs_of_min(numer as int, denom as int),
    ensures
        r == div_round_spec(numer as int, denom as int, "amort::div"),
{
    div_round_half_away(numer, denom, "amort::div")
}

/// The periodic (monthly) rate as fixed point, from an annual nominal rate.
fn monthly_rate_fp(annual: Bps) -> (r: Result<i128, MoneyError>)
    ensures
        r == Ok::<i128, MoneyError>(monthly_rate_spec(annual) as i128),
        abs(monthly_rate_spec(annual)) <= monthly_rate_bound(),
{
    let raw = annual.raw();
    proof {
        assert(abs(raw * 1_000_000_000_000) <= 0x8000_0000_0000_0000 * 1_000_000_000_000) by (nonlinear_arith)
            requires -0x8000_0000_0000_0000 <= raw <= 0x7fff_ffff_ffff_ffff;
        lemma_div_is_ordered(abs(raw * 1_000_000_000_000), 0x8000_0000_0000_0000int * 1_000_000_000_000int, 120_000);
    }
    let numer = match (raw as i128).checked_mul(SCALE) {
        Some(n) => n,
        None => {
            return Err(MoneyError::Overflow { op: "amort::monthly_rate" });
        },
    };
    let denom = match (Bps::SCALE as i128).checked_mul(MONTHS_PER_YEAR as i128) {
        Some(d) => d,
        None => {
            return Err(MoneyError::Overflow { op: "amort::monthly_rate" });
        },
    };
    match numer.checked_div(denom) {
        Some(q) => Ok(q),
        None => Err(MoneyError::Overflow { op: "amort::monthly_rate" }),
    }
}

/// The payment computation up to its single rounding: either the decided
/// outcome, or the numerator and denominator to round.
fn payment_rounding_inputs(principal: Money, annual_rate: Bps, term_months: u32) -> (r: Result<
    (i128, i128),
    Result<Money, MoneyError>,
>)
    ensures
        match r {
            Ok((n, d)) => payment_before_rounding(principal, annual_rate, term_months) == Ok::<
                (int, int),
                Result<Money, MoneyError>,
            >((n as int, d as int)),
            Err(decided) => payment_before_rounding(principal, annual_rate, term_months) == Err::<
                (int, int),
                Result<Money, MoneyError>,
            >(decided),
        },
{
    if term_months == 0 {
        return Err(Err(MoneyError::NonPositive { field: "term_months", value: 0 }));
    }
    if principal.is_zero() {
        return Err(Ok(Money::zero(principal.currency())));
    }
    let rate_fp = match monthly_rate_fp(annual_rate) {
        Ok(v) => v,
        Err(e) => {
            return Err(Err(e));
        },
    };
    if rate_fp == 0 {
        return Err(principal.div_int(term_months as i64));
    }
    proof {
        lemma_fp_constants();
    }
    let one_plus = match SCALE.checked_add(rate_fp) {
        Some(v) => v,
        None => {
            return Err(Err(MoneyError::Overflow { op: "amort::one_plus" }));
        },
    };
    let growth = match pow_fp(one_plus, term_months) {
        Ok(v) => v,
        Err(e) => {
            return Err(Err(e));
        },
    };
    let growth_less_one = match growth.checked_sub(SCALE) {
        Some(v) => v,
        None => {
            return Err(Err(MoneyError::Overflow { op: "amort::growth" }));
        },
    };
    if growth_less_one <= 0 {
        return Err(Err(MoneyError::Overflow { op: "amort::growth_underflow" }));
    }
    let scaled_rate = match (principal.minor() as i128).checked_mul(rate_fp) {
        Some(v) => v,
        None => {
            return Err(Err(MoneyError::Overflow { op: "amort::numer" }));
        },
    };
    let numer = match scaled_rate.checked_mul(growth) {
        Some(v) => v,
        None => {
            return Err(Err(MoneyError::Overflow { op: "amort::numer" }));
        },
    };
    proof {
        assert((SCALE as int) * (growth_less_one as int) <= (SCALE as int) * fp_bound()) by (nonlinear_arith)
            requires growth_less_one as int <= fp_bound();
    }
    let denom = match SCALE.checked_mul(growth_less_one) {
        Some(v) => v,
        None => {
            return Err(Err(MoneyError::Overflow { op: "amort::denom" }));
        },
    };
    Ok((numer, denom))
}

/// The level monthly payment that fully amortizes `principal` over
/// `term_months` at annual nominal rate `annual_rate`, compounded monthly.
///
/// A zero rate degrades to straight-line principal repayment rather than
/// dividing by zero. The payment is `L * r * (1+r)^n / ((1+r)^n - 1)` held in
/// `i128` fixed point with a single rounding at the end.
pub fn monthly_payment(principal: Money, annual_rate: Bps, term_months: u32) -> (r: Result<
    Money,
    MoneyError,
>)
    requires
        payment_defined(principal, annual_rate, term_months),
    ensures
        r == payment_spec(principal, annual_rate, term_months),
{
    match payment_rounding_inputs(principal, annual_rate, term_months) {
        Err(decided) => decided,
        Ok((numer, denom)) => {
            let minor = div_round(numer, denom)?;
            if minor < i64::MIN as i128 || minor > i64::MAX as i128 {
                return Err(MoneyError::Overflow { op: "amort::payment" });
            }
            Ok(Money::from_minor(minor as i64, principal.currency()))
        },
    }
}

/// Whether [`monthly_payment`] is defined on these inputs: its single
/// rounding never takes the absolute value of `i128::MIN`.
pub fn payment_is_defined(principal: Money, annual_rate: Bps, term_months: u32) -> (r: bool)
    ensures
        r == payment_defined(principal, annual_rate, term_months),
{
    match payment_rounding_inputs(principal, annual_rate, term_months) {
        Err(_) => true,
        Ok((numer, denom)) => rounding_is_defined(numer, denom),
    }
}

/// The outcome of [`annual_debt_service`].
pub open spec fn annual_debt_service_spec(principal: Money, annual_rate: Bps, term_months: u32) -> Result<
    Money,
    MoneyError,
> {
    match payment_spec(principal, annual_rate, term_months) {
        Err(e) => Err(e),
        Ok(p) => money_mul_int(p, MONTHS_PER_YEAR),
    }
}

/// Total debt service over twelve months: twelve level payments.
pub fn annual_debt_service(principal: Money, annual_rate: Bps, term_months: u32) -> (r: Result<
    Money,
    MoneyError,
>)
    requires
        payment_defined(principal, annual_rate, term_months),
    ensures
        r == annual_debt_service_spec(principal, annual_rate, term_months),
{
    monthly_payment(principal, annual_rate, term_months)?.mul_int(MONTHS_PER_YEAR)
}

/// The outcome of [`principal_from_ltv`]: the price less the down payment.
pub open spec fn principal_from_ltv_spec(price: Money, down_payment_rate: Bps) -> Result<
    Money,
    MoneyError,
> {
    match money_apply(price, down_payment_rate) {
        Err(e) => Err(e),
        Ok(down) => money_sub(price, down),
    }
}

/// Loan principal implied by a purchase price and a down payment rate.
pub fn principal_from_ltv(price: Money, down_payment_rate: Bps) -> (r: Result<Money, MoneyError>)
    ensures
        r == principal_from_ltv_spec(price, down_payment_rate),
{
    let down = price.apply(down_payment_rate)?;
    price.sub(down)
}

/// Convenience: zero US dollars.
pub fn usd_zero() -> (r: Money)
    ensures
        r == Money::from_minor(0, Currency::Usd),
{
    Money::zero(Currency::Usd)
}

/// The remaining balance up to its single rounding: either the outcome is
/// already decided, or it is the rounded quotient of the returned numerator
/// and denominator, `(L*(1+r)^k*r - P*((1+r)^k - 1)*SCALE) / (SCALE*r)`.
pub open spec fn balance_before_rounding(
    principal: Money,
    annual_rate: Bps,
    term_months: u32,
    elapsed_months: u32,
) -> Result<(int, int), Result<Money, MoneyError>> {
    if elapsed_months >= term_months {
        Err(Ok(Money::from_minor(0, principal.currency())))
    } else {
        match payment_spec(principal, annual_rate, term_months) {
            Err(e) => Err(Err(e)),
            Ok(payment) => {
                let r = monthly_rate_spec(annual_rate);
                if r == 0 {
                    Err(
                        match money_mul_int(payment, elapsed_months as i64) {
                            Err(e) => Err(e),
                            Ok(paid) => money_sub(principal, paid),
                        },
                    )
                } else {
                    match growth_spec(r, elapsed_months as nat) {
                        None => Err(Err(MoneyError::Overflow { op: "amort::mul_fp" })),
                        Some(g) => {
                            let grown = principal.minor() * g * r;
                            let repaid = payment.minor() * (g - SCALE) * SCALE;
                            if !fits_i128(principal.minor() * g) || !fits_i128(grown) || !fits_i128(
                                payment.minor() * (g - SCALE),
                            ) || !fits_i128(repaid) || !fits_i128(grown - repaid) {
                                Err(Err(MoneyError::Overflow { op: "amort::balance" }))
                            } else {
                                Ok((grown - repaid, SCALE * r))
                            }
                        },
                    }
                }
            },
        }
    }
}

/// The outcome of [`remaining_balance`]; a negative rounded balance reads as zero.
pub open spec fn balance_spec(
    principal: Money,
    annual_rate: Bps,
    term_months: u32,
    elapsed_months: u32,
) -> Result<Money, MoneyError> {
    match balance_before_rounding(principal, annual_rate, term_months, elapsed_months) {
        Err(decided) => decided,
        Ok((n, d)) => match div_round_spec(n, d, "amort::div") {
            Err(e) => Err(e),
            Ok(m) => if fits_i64(m as int) {
                Ok(Money::from_minor(if m < 0 { 0 } else { m as i64 }, principal.currency()))
            } else {
                Err(MoneyError::Overflow { op: "amort::balance" })
            },
        },
    }
}

/// Remaining balance after `elapsed_months` payments.
///
/// Computed from the closed-form balance rather than by iterating the
/// schedule, with both terms over the common denominator `SCALE * r` and a
/// single rounding, so a thirty-year hold costs the same as a one-year hold.
pub fn remaining_balance(
    principal: Money,
    annual_rate: Bps,
    term_months: u32,
    elapsed_months: u32,
) -> (r: Result<Money, MoneyError>)
    requires
        elapsed_months < term_months ==> payment_defined(principal, annual_rate, term_months),
    ensures
        r == balance_spec(principal, annual_rate, term_months, elapsed_months),
{
    if elapsed_months >= term_months {
        return Ok(Money::zero(principal.currency()));
    }
    let payment = monthly_payment(principal, annual_rate, term_months)?;
    let rate_fp = monthly_rate_fp(annual_rate)?;
    if rate_fp == 0 {
        let paid = payment.mul_int(elapsed_months as i64)?;
        return principal.sub(paid);
    }
    proof {
        lemma_fp_constants();
    }
    let one_plus = match SCALE.checked_add(rate_fp) {
        Some(v) => v,
        None => {
            return Err(MoneyError::Overflow { op: "amort::one_plus" });
        },
    };
    let growth = pow_fp(one_plus, elapsed_months)?;
    let growth_less_one = match growth.checked_sub(SCALE) {
        Some(v) => v,
        None => {
            return Err(MoneyError::Overflow { op: "amort::balance" });
        },
    };
    let grown = match (principal.minor() as i128).checked_mul(growth) {
        Some(v) => match v.checked_mul(rate_fp) {
            Some(w) => w,
            None => {
                return Err(MoneyError::Overflow { op: "amort::balance" });
            },
        },
        None => {
            return Err(MoneyError::Overflow { op: "amort::balance" });
        },
    };
    let repaid = match (payment.minor() as i128).checked_mul(growth_less_one) {
        Some(v) => match v.checked_mul(SCALE) {
            Some(w) => w,
            None => {
                return Err(MoneyError::Overflow { op: "amort::balance" });
            },
        },
        None => {
            return Err(MoneyError::Overflow { op: "amort::balance" });
        },
    };
    let numer = match grown.checked_sub(repaid) {
        Some(v) => v,
        None => {
            return Err(MoneyError::Overflow { op: "amort::balance" });
        },
    };
    proof {
        assert(abs((SCALE as int) * (rate_fp as int)) <= (SCALE as int) * monthly_rate_bound()) by (nonlinear_arith)
            requires abs(rate_fp as int) <= monthly_rate_bound();
    }
    let denom = match SCALE.checked_mul(rate_fp) {
        Some(v) => v,
        None => {
            return Err(MoneyError::Overflow { op: "amort::balance" });
        },
    };
    proof {
        lemma_mod_bound(abs(numer as int), abs(denom as int));
    }
    let minor = div_round(numer, denom)?;
    if minor < i64::MIN as i128 || minor > i64::MAX as i128 {
        return Err(MoneyError::Overflow { op: "amort::balance" });
    }
    let minor = minor as i64;
    Ok(Money::from_minor(if minor < 0 { 0 } else { minor }, principal.currency()))
}

/// Once every scheduled payment has been made the balance is zero.
pub proof fn lemma_balance_at_maturity_is_zero(
    principal: Money,
    annual_rate: Bps,
    term_months: u32,
    elapsed_months: u32,
)
    requires
        elapsed_months >= term_months,
    ensures
        balance_spec(principal, annual_rate, term_months, elapsed_months) == Ok::<Money, MoneyError>(
            Money::from_minor(0, principal.currency()),
        ),
{
}

/// A zero principal pays nothing, in its own currency, for any rate and any
/// positive term.
pub proof fn lemma_zero_principal_pays_nothing(currency: Currency, annual_rate: Bps, term_months: u32)
    requires
        term_months > 0,
    ensures
        payment_spec(Money::from_minor(0, currency), annual_rate, term_months) == Ok::<
            Money,
            MoneyError,
        >(Money::from_minor(0, currency)),
{
}

/// At a zero periodic rate the payment is straight-line: the principal divided
/// evenly over the term, rounded half away from zero.
pub proof fn lemma_zero_rate_is_straight_line(principal: Money, annual_rate: Bps, term_months: u32)
    requires
        term_months > 0,
        monthly_rate_spec(annual_rate) == 0,
    ensures
        payment_spec(principal, annual_rate, term_months) == money_div_int(
            principal,
            term_months as i64,
        ),
{
    let t = term_months as int;
    lemma_basic_div(t, 2 * t);
}

/// Annual debt service is exactly twelve level payments.
pub proof fn lemma_annual_debt_service_is_twelve_payments(
    principal: Money,
    annual_rate: Bps,
    term_months: u32,
    payment: Money,
)
    requires
        payment_spec(principal, annual_rate, term_months) == Ok::<Money, MoneyError>(payment),
    ensures
        annual_debt_service_spec(principal, annual_rate, term_months) == money_mul_int(payment, 12),
{
}

/// Before any payment is made the balance is the full principal, for a
/// non-negative principal whose compounded numerator fits in `i128`.
pub proof fn lemma_balance_at_origination_is_principal(
    principal: Money,
    annual_rate: Bps,
    term_months: u32,
    payment: Money,
)
    requires
        term_months > 0,
        principal.minor() >= 0,
        payment_spec(principal, annual_rate, term_months) == Ok::<Money, MoneyError>(payment),
        fits_i128(principal.minor() * SCALE * monthly_rate_spec(annual_rate)),
    ensures
        balance_spec(principal, annual_rate, term_months, 0) == Ok::<Money, MoneyError>(principal),
{
    let r = monthly_rate_spec(annual_rate);
    let l = principal.minor() as int;
    if r != 0 {
        assert(growth_spec(r, 0) == Some(SCALE as int));
        assert(abs(l * SCALE) <= 0x8000_0000_0000_0000int * 1_000_000_000_000int) by (nonlinear_arith)
            requires -0x8000_0000_0000_0000 <= l <= 0x7fff_ffff_ffff_ffff;
        assert(payment.minor() * (SCALE - SCALE) * SCALE == 0) by (nonlinear_arith);
        assert(payment.minor() * (SCALE - SCALE) == 0) by (nonlinear_arith);
        let d = SCALE * r;
        assert(l * SCALE * r == l * d) by (nonlinear_arith)
            requires d == SCALE * r;
        assert(d != 0) by (nonlinear_arith)
            requires d == SCALE * r, r != 0;
        lemma_round_exact_multiple(l, d);
        assert(abs(l * d) >= abs(d) || l == 0) by (nonlinear_arith)
            requires l >= 0;
        lemma_fp_constants();
        lemma_monthly_rate_bounded(annual_rate);
        assert(abs(d) <= (SCALE as int) * monthly_rate_bound()) by (nonlinear_arith)
            requires d == SCALE * r, abs(r) <= monthly_rate_bound();
    } else {
        assert(payment.minor() * 0 == 0);
    }
}

/// The monthly fixed-point rate is within [`monthly_rate_bound`].
proof fn lemma_monthly_rate_bounded(annual: Bps)
    ensures
        abs(monthly_rate_spec(annual)) <= monthly_rate_bound(),
{
    let raw = annual.raw();
    assert(abs(raw * 1_000_000_000_000) <= 0x8000_0000_0000_0000 * 1_000_000_000_000) by (nonlinear_arith)
        requires -0x8000_0000_0000_0000 <= raw <= 0x7fff_ffff_ffff_ffff;
    lemma_div_is_ordered(abs(raw * 1_000_000_000_000), 0x8000_0000_0000_0000int * 1_000_000_000_000int, 120_000);
}

/// Powers of non-negative bases are ordered as their bases.
proof fn lemma_pow_base_monotone(x: int, y: int, e: nat)
    requires
        0 <= x <= y,
    ensures
        0 <= pow(x, e) <= pow(y, e),
    decreases e,
{
    reveal(pow);
    if e > 0 {
        lemma_pow_base_monotone(x, y, (e - 1) as nat);
        let (px, py) = (pow(x, (e - 1) as nat), pow(y, (e - 1) as nat));
        assert(0 <= x * px <= y * py) by (nonlinear_arith)
            requires 0 <= x <= y, 0 <= px <= py;
    }
}

/// Fixed-point exponentiation never exceeds the exact power: every
/// truncation rounds down, so `res / SCALE <= (acc / SCALE) * (base / SCALE)^e`.
proof fn lemma_pow_fp_at_most_exact(acc: int, base: int, e: nat, res: int)
    requires
        acc >= 0,
        base >= 0,
        pow_fp_from(acc, base, e) == Some(res),
    ensures
        res >= 0,
        res * pow(SCALE as int, e) <= acc * pow(base, e),
    decreases e,
{
    let s = SCALE as int;
    if e == 0 {
        reveal(pow);
    } else {
        let h = e / 2;
        let o: nat = e % 2;
        lemma_mul_nonnegative(acc, base);
        lemma_mul_nonnegative(base, base);
        let next = if o == 1 { (acc * base) / s } else { acc };
        if o == 1 {
            lemma_fundamental_div_mod(acc * base, s);
            lemma_mod_bound(acc * base, s);
            lemma_div_pos_is_pos(acc * base, s);
        }
        assert(next >= 0);
        assert(next * pow(s, o) <= acc * pow(base, o)) by {
            lemma_pow0(s);
            lemma_pow0(base);
            lemma_pow1(s);
            lemma_pow1(base);
            if o == 1 {
                assert(acc * base == s * next + (acc * base) % s);
            }
        }
        if h == 0 {
            assert(e == o);
            assert(res == next);
        } else {
            let sq = (base * base) / s;
            lemma_fundamental_div_mod(base * base, s);
            lemma_mod_bound(base * base, s);
            lemma_div_pos_is_pos(base * base, s);
            assert(pow_fp_from(next, sq, h) == Some(res));
            lemma_pow_fp_at_most_exact(next, sq, h, res);
            // res * s^h <= next * sq^h
            lemma_pow_base_monotone(sq * s, base * base, h);
            lemma_pow_distributes(sq, s, h);
            lemma_pow_multiplies(base, 2, h);
            lemma_square_is_pow2(base);
            lemma_pow_adds(s, h, h);
            lemma_pow_adds(s, 2 * h, o);
            lemma_pow_adds(base, 2 * h, o);
            assert(e == 2 * h + o);
            lemma_pow_positive(s, h);
            lemma_pow_positive(s, o);
            lemma_pow_base_monotone(0, sq, h);
            lemma_pow_base_monotone(0, base, o);
            let (sh, so, qh, b2h, bo) = (pow(s, h), pow(s, o), pow(sq, h), pow(base, 2 * h), pow(base, o));
            assert(res * (sh * sh * so) <= acc * (b2h * bo)) by (nonlinear_arith)
                requires
                    res * sh <= next * qh,
                    qh * sh <= b2h,
                    next * so <= acc * bo,
                    sh > 0, so > 0, qh >= 0, next >= 0, acc >= 0, bo >= 0, res >= 0;
            assert(sh * sh * so == pow(s, e));
            assert(b2h * bo == pow(base, e));
        }
    }
}

/// `(SCALE + r)^n * (SCALE - n * r) <= SCALE^(n + 1)` for a non-negative
/// rate: a discrete form of `(1 + r)^n <= 1 / (1 - n r)`.
proof fn lemma_growth_against_simple_interest(r: int, n: nat)
    requires
        r >= 0,
    ensures
        pow(SCALE + r, n) * (SCALE - n * r) <= pow(SCALE as int, n + 1),
    decreases n,
{
    let s = SCALE as int;
    reveal(pow);
    if n == 0 {
        lemma_pow0(s + r);
        lemma_pow1(s);
    } else {
        let m = (n - 1) as nat;
        lemma_growth_against_simple_interest(r, m);
        lemma_pow_positive(s + r, m);
        let pm = pow(s + r, m);
        let sm = pow(s, m + 1);
        assert(pm * (s + r) * (s - n * r) <= s * sm) by (nonlinear_arith)
            requires
                pm * (s - m * r) <= sm,
                pm > 0,
                n == m + 1,
                r >= 0,
                s > 0,
        {
            assert((s + r) * (s - n * r) <= s * (s - m * r));
            assert(pm * ((s + r) * (s - n * r)) <= pm * (s * (s - m * r)));
        }
        assert(pow(s + r, n) == (s + r) * pm);
        assert(pow(s, n + 1) == s * sm);
    }
}

/// Rounding half away from zero is ordered as the exact quotients, for
/// non-negative numerators over positive denominators.
proof fn lemma_round_ordered_by_quotient(a: int, b: int, c: int, d: int)
    requires
        a >= 0,
        b > 0,
        d > 0,
        a * d <= c * b,
    ensures
        round_half_away(a, b) <= round_half_away(c, d),
{
    assert(c >= 0) by (nonlinear_arith)
        requires a >= 0, b > 0, d > 0, a * d <= c * b;
    let q1 = (2 * a + b) / (2 * b);
    let q2 = (2 * c + d) / (2 * d);
    lemma_fundamental_div_mod(2 * a + b, 2 * b);
    lemma_mod_bound(2 * a + b, 2 * b);
    lemma_fundamental_div_mod(2 * c + d, 2 * d);
    lemma_mod_bound(2 * c + d, 2 * d);
    let (m1, m2) = ((2 * a + b) % (2 * b), (2 * c + d) % (2 * d));
    assert(q1 <= q2) by (nonlinear_arith)
        requires
            2 * a + b == 2 * b * q1 + m1,
            2 * c + d == 2 * d * q2 + m2,
            0 <= m1, 0 <= m2 < 2 * d,
            b > 0, d > 0,
            a * d <= c * b,
    {
        if q1 > q2 {
            assert(2 * b * q1 * d <= (2 * a + b) * d);
            assert((2 * c + d) * b < 2 * d * (q2 + 1) * b);
            assert(2 * d * (q2 + 1) * b <= 2 * d * q1 * b);
        }
    }
}

/// The fixed-point growth over `n` months at a non-negative monthly rate
/// `r` satisfies `SCALE * (g - SCALE) <= n * r * g`: compounding never adds
/// more than simple interest on the grown amount.
proof fn lemma_growth_gain_bound(r: int, n: nat, g: int)
    requires
        r >= 0,
        growth_spec(r, n) == Some(g),
    ensures
        g >= 0,
        SCALE * (g - SCALE) <= n * r * g,
{
    let s = SCALE as int;
    lemma_pow_fp_at_most_exact(s, s + r, n, g);
    lemma_growth_against_simple_interest(r, n);
    lemma_pow_positive(s, n);
    lemma_pow_adds(s, n, 1);
    lemma_pow1(s);
    lemma_pow_base_monotone(0, s + r, n);
    let (sn, bn) = (pow(s, n), pow(s + r, n));
    assert(pow(s, n + 1) == sn * s);
    assert(s * (g - s) <= n * r * g) by (nonlinear_arith)
        requires
            g * sn <= s * bn,
            bn * (s - n * r) <= sn * s,
            sn > 0,
            bn >= 0,
            g >= 0,
            s > 0,
            r >= 0,
    {
        if s - n * r > 0 {
            assert(g * sn * (s - n * r) <= s * bn * (s - n * r));
            assert(s * bn * (s - n * r) <= s * (sn * s));
            assert(g * (s - n * r) * sn <= (s * s) * sn);
            assert(g * (s - n * r) <= s * s);
        }
    }
}

/// Interest never lowers the payment: at a non-negative annual rate, the
/// level payment on a positive principal is at least the straight-line
/// payment of the same principal over the same term at a zero rate.
pub proof fn lemma_interest_never_lowers_the_payment(
    principal: Money,
    annual_rate: Bps,
    term_months: u32,
    straight: Money,
    level: Money,
)
    requires
        principal.minor() > 0,
        term_months > 0,
        annual_rate.raw() >= 0,
        payment_spec(principal, Bps::from_raw(0), term_months) == Ok::<Money, MoneyError>(straight),
        payment_spec(principal, annual_rate, term_months) == Ok::<Money, MoneyError>(level),
    ensures
        straight.minor() <= level.minor(),
{
    let s = SCALE as int;
    let l = principal.minor() as int;
    let n = term_months as int;
    let r = monthly_rate_spec(annual_rate);
    assert(monthly_rate_spec(Bps::from_raw(0)) == 0);
    assert(straight.minor() == round_half_away(l, n));
    lemma_div_pos_is_pos(annual_rate.raw() * SCALE, Bps::SCALE * MONTHS_PER_YEAR);
    assert(r >= 0);
    if r != 0 {
        let g = growth_spec(r, term_months as nat)->0;
        lemma_growth_gain_bound(r, term_months as nat, g);
        let numer = l * r * g;
        let denom = s * (g - s);
        assert(payment_before_rounding(principal, annual_rate, term_months) == Ok::<
            (int, int),
            Result<Money, MoneyError>,
        >((numer, denom)));
        lemma_round_half_away_bound(numer, denom);
        assert(level.minor() == round_half_away(numer, denom));
        assert(l * denom <= numer * n) by (nonlinear_arith)
            requires
                s * (g - s) <= n * r * g,
                l > 0,
                denom == s * (g - s),
                numer == l * r * g,
        {
            assert(l * (s * (g - s)) <= l * (n * r * g));
        }
        lemma_round_ordered_by_quotient(l, n, numer, denom);
    }
}

/// Multiplying both sides of an inequality by a non-negative factor.
proof fn lemma_scale_le(a: int, b: int, w: int)
    requires
        a <= b,
        w >= 0,
    ensures
        a * w <= b * w,
{
    assert(a * w <= b * w) by (nonlinear_arith)
        requires a <= b, w >= 0;
}

/// Products of ordered non-negative factors are ordered.
proof fn lemma_product_le(a: int, b: int, c: int, d: int)
    requires
        0 <= a <= b,
        0 <= c <= d,
    ensures
        a * c <= b * d,
{
    assert(a * c <= b * d) by (nonlinear_arith)
        requires 0 <= a <= b, 0 <= c <= d;
}

/// One month more of the annuity slack, as a polynomial identity.
proof fn lemma_slack_step_identity(s: int, r1: int, r2: int, pm: int, qm: int, sm: int, d: int)
    requires
        d == pm * qm * (r2 - r1) - sm * (r2 * qm - r1 * pm),
    ensures
        ((s + r1) * pm) * ((s + r2) * qm) * (r2 - r1) - (s * sm) * (r2 * ((s + r2) * qm) - r1 * ((s + r1)
            * pm)) == s * (s + r2) * d + r1 * pm * (r2 - r1) * ((s + r2) * qm - s * sm),
{
    let (p, q, dl) = (s + r1, s + r2, r2 - r1);
    let a = pm * qm * dl;
    let b = sm * r2 * qm;
    let c = sm * r1 * pm;
    assert(d == a - b + c) by (nonlinear_arith)
        requires d == pm * qm * (r2 - r1) - sm * (r2 * qm - r1 * pm), a == pm * qm * dl, dl == r2 - r1,
            b == sm * r2 * qm, c == sm * r1 * pm;
    assert((p * pm) * (q * qm) * dl == p * q * a) by (nonlinear_arith)
        requires a == pm * qm * dl;
    let x = s * sm;
    lemma_mul_is_distributive_sub(x, r2 * (q * qm), r1 * (p * pm));
    assert(x * (r2 * (q * qm)) == s * q * b) by (nonlinear_arith)
        requires x == s * sm, b == sm * r2 * qm;
    assert(x * (r1 * (p * pm)) == s * p * c) by (nonlinear_arith)
        requires x == s * sm, c == sm * r1 * pm;
    let y = r1 * pm * dl;
    lemma_mul_is_distributive_sub(y, q * qm, s * sm);
    assert(y * (q * qm) == r1 * q * a) by (nonlinear_arith)
        requires y == r1 * pm * dl, a == pm * qm * dl;
    assert(y * (s * sm) == s * dl * c) by (nonlinear_arith)
        requires y == r1 * pm * dl, c == sm * r1 * pm;
    assert(p * q * a == s * q * a + r1 * q * a) by (nonlinear_arith)
        requires p == s + r1;
    assert(s * p * c == s * s * c + s * r1 * c) by (nonlinear_arith)
        requires p == s + r1;
    assert(s * q * c == s * s * c + s * r2 * c) by (nonlinear_arith)
        requires q == s + r2;
    assert(s * dl * c == s * r2 * c - s * r1 * c) by (nonlinear_arith)
        requires dl == r2 - r1;
    assert(s * q * (a - b + c) == s * q * a - s * q * b + s * q * c) by (nonlinear_arith);
}

/// Fixed-point exponentiation from values of at least one loses at most a
/// factor `(SCALE - 1) / SCALE` per unit of exponent: every truncation of a
/// product of at least `SCALE * SCALE` keeps that fraction of it.
proof fn lemma_pow_fp_at_least_exact(acc: int, base: int, e: nat, res: int)
    requires
        acc >= SCALE,
        base >= SCALE,
        pow_fp_from(acc, base, e) == Some(res),
    ensures
        res >= SCALE,
        res * pow(SCALE as int, 2 * e) >= acc * pow(base, e) * pow(SCALE - 1, e),
    decreases e,
{
    let s = SCALE as int;
    let t = s - 1;
    lemma_pow0(s);
    lemma_pow0(base);
    lemma_pow0(t);
    if e > 0 {
        let h = e / 2;
        let o: nat = e % 2;
        assert(acc * base >= s * s) by (nonlinear_arith)
            requires acc >= s, base >= s, s > 0;
        assert(base * base >= s * s) by (nonlinear_arith)
            requires base >= s, s > 0;
        let next = if o == 1 { (acc * base) / s } else { acc };
        lemma_pow1(s);
        lemma_pow1(base);
        lemma_pow1(t);
        lemma_square_is_pow2(s);
        if o == 1 {
            lemma_fundamental_div_mod(acc * base, s);
            lemma_mod_bound(acc * base, s);
            let m = (acc * base) % s;
            assert(next >= s && next * (s * s) >= acc * base * t) by (nonlinear_arith)
                requires
                    acc * base == s * next + m,
                    0 <= m < s,
                    acc * base >= s * s,
                    s == 1_000_000_000_000,
                    t == s - 1,
            {
                assert(s * next > s * s - s);
            }
        }
        assert(next >= s);
        assert(next * pow(s, 2 * o) >= acc * pow(base, o) * pow(t, o));
        if h == 0 {
            assert(res == next);
            assert(e == o);
        } else {
            let sq = (base * base) / s;
            lemma_fundamental_div_mod(base * base, s);
            lemma_mod_bound(base * base, s);
            let m = (base * base) % s;
            assert(sq >= s && sq * (s * s) >= base * base * t) by (nonlinear_arith)
                requires
                    base * base == s * sq + m,
                    0 <= m < s,
                    base * base >= s * s,
                    s == 1_000_000_000_000,
                    t == s - 1,
            {
                assert(s * sq > s * s - s);
            }
            assert(pow_fp_from(next, sq, h) == Some(res));
            lemma_pow_fp_at_least_exact(next, sq, h, res);
            // (sq * s^2)^h >= (base^2 * t)^h
            lemma_pow_base_monotone(base * base * t, sq * (s * s), h);
            lemma_pow_distributes(sq, s * s, h);
            lemma_pow_distributes(base * base, t, h);
            lemma_pow_multiplies(base, 2, h);
            lemma_pow_multiplies(s, 2, h);
            lemma_square_is_pow2(base);
            lemma_pow_adds(s, 2 * h, 2 * h);
            lemma_pow_adds(s, 4 * h, 2 * o);
            lemma_pow_adds(base, 2 * h, o);
            lemma_pow_adds(t, h, h);
            lemma_pow_adds(t, 2 * h, o);
            lemma_pow_positive(s, 2 * h);
            lemma_pow_positive(s, 2 * o);
            lemma_pow_positive(t, h);
            lemma_pow_positive(t, o);
            lemma_pow_positive(base, 2 * h);
            lemma_pow_positive(base, o);
            lemma_pow_positive(sq, h);
            assert(e == 2 * h + o);
            assert(2 * e == 4 * h + 2 * o);
            let (s2h, s2o, th, to, b2h, bo, qh) = (pow(s, 2 * h), pow(s, 2 * o), pow(t, h), pow(t, o),
                pow(base, 2 * h), pow(base, o), pow(sq, h));
            assert(qh * s2h >= b2h * th);
            lemma_mul_nonnegative(acc, bo);
            lemma_mul_nonnegative(acc * bo, to);
            lemma_mul_nonnegative(b2h, th);
            lemma_mul_nonnegative(s2h, s2o);
            lemma_scale_le(next * qh * th, res * s2h, s2h * s2o);
            assert((next * qh * th) * (s2h * s2o) == (next * s2o) * (qh * s2h) * th) by (nonlinear_arith);
            lemma_product_le(acc * bo * to, next * s2o, b2h * th, qh * s2h);
            lemma_scale_le((acc * bo * to) * (b2h * th), (next * s2o) * (qh * s2h), th);
            assert((acc * bo * to) * (b2h * th) * th == acc * (b2h * bo) * (th * th * to)) by (nonlinear_arith);
            assert((res * s2h) * (s2h * s2o) == res * (s2h * s2h * s2o)) by (nonlinear_arith);
            assert(s2h * s2h * s2o == pow(s, 2 * e));
            assert(b2h * bo == pow(base, e));
            assert(th * th * to == pow(t, e));
        }
    }
}

/// Bounds on a difference of powers of `0 <= x <= y`:
/// `(m + 1) (y - x) x^m <= y^(m+1) - x^(m+1) <= (m + 1) (y - x) y^m`.
proof fn lemma_pow_difference(x: int, y: int, m: nat)
    requires
        0 <= x <= y,
    ensures
        pow(y, m + 1) - pow(x, m + 1) >= (m + 1) * (y - x) * pow(x, m),
        pow(y, m + 1) - pow(x, m + 1) <= (m + 1) * (y - x) * pow(y, m),
    decreases m,
{
    reveal(pow);
    lemma_pow0(x);
    lemma_pow0(y);
    if m > 0 {
        let k = (m - 1) as nat;
        lemma_pow_difference(x, y, k);
        lemma_pow_base_monotone(x, y, k);
        lemma_pow_base_monotone(x, y, m);
        let (xk, yk) = (pow(x, k), pow(y, k));
        assert(pow(x, m) == x * xk);
        assert(pow(y, m) == y * yk);
        assert(pow(x, m + 1) == x * (x * xk));
        assert(pow(y, m + 1) == y * (y * yk));
        assert(y * (y * yk) - x * (x * xk) >= (m + 1) * (y - x) * (x * xk)
            && y * (y * yk) - x * (x * xk) <= (m + 1) * (y - x) * (y * yk)) by (nonlinear_arith)
            requires
                y * yk - x * xk >= m * (y - x) * xk,
                y * yk - x * xk <= m * (y - x) * yk,
                0 <= x <= y,
                0 <= xk <= yk,
        {
            assert(y * (y * yk) - x * (x * xk) == y * (y * yk - x * xk) + (x * xk) * (y - x));
            assert(y * (y * yk - x * xk) >= x * (m * (y - x) * xk));
            assert(y * (y * yk - x * xk) <= y * (m * (y - x) * yk));
            assert((x * xk) * (y - x) <= (y * yk) * (y - x));
        }
    }
}

/// The slack in the annuity inequality at exact powers, for bases
/// `p = SCALE + r1 <= q = SCALE + r2`:
/// `p^n q^n (r2 - r1) - SCALE^n (r2 q^n - r1 p^n)`.
spec fn annuity_slack(r1: int, r2: int, n: nat) -> int {
    let (s, p, q) = (SCALE as int, SCALE + r1, SCALE + r2);
    pow(p, n) * pow(q, n) * (r2 - r1) - pow(s, n) * (r2 * pow(q, n) - r1 * pow(p, n))
}

/// The annuity slack is never negative, and after one more month it is at
/// least `r1 p^m (r2 - r1) (q^(m+1) - SCALE^(m+1))`.
proof fn lemma_annuity_slack(r1: int, r2: int, m: nat)
    requires
        0 <= r1 <= r2,
    ensures
        annuity_slack(r1, r2, m) >= 0,
        annuity_slack(r1, r2, m + 1) >= r1 * pow(SCALE + r1, m) * (r2 - r1) * (pow(SCALE + r2, m + 1)
            - pow(SCALE as int, m + 1)),
    decreases m,
{
    let (s, p, q) = (SCALE as int, SCALE + r1, SCALE + r2);
    reveal(pow);
    lemma_pow0(s);
    lemma_pow0(p);
    lemma_pow0(q);
    if m > 0 {
        let k = (m - 1) as nat;
        lemma_annuity_slack(r1, r2, k);
        lemma_pow_base_monotone(s, q, m);
        lemma_pow_base_monotone(0, p, k);
        let (pk, qmm, smm) = (pow(p, k), pow(q, m), pow(s, m));
        assert(r1 * pk * (r2 - r1) * (qmm - smm) >= 0) by (nonlinear_arith)
            requires r1 >= 0, pk >= 0, r2 - r1 >= 0, qmm - smm >= 0;
        assert(k + 1 == m);
    }
    let (pm, qm, sm) = (pow(p, m), pow(q, m), pow(s, m));
    lemma_pow_base_monotone(s, q, m + 1);
    lemma_pow_base_monotone(0, p, m);
    assert(pow(p, m + 1) == p * pm);
    assert(pow(q, m + 1) == q * qm);
    assert(pow(s, m + 1) == s * sm);
    let d = pm * qm * (r2 - r1) - sm * (r2 * qm - r1 * pm);
    assert(d == annuity_slack(r1, r2, m));
    assert(d >= 0);
    lemma_slack_step_identity(s, r1, r2, pm, qm, sm, d);
    assert(s * q * d >= 0) by (nonlinear_arith)
        requires s > 0, q > 0, d >= 0;
    assert(r1 * pm * (r2 - r1) * (q * qm - s * sm) >= 0) by (nonlinear_arith)
        requires r1 >= 0, pm >= 0, r2 - r1 >= 0, q * qm - s * sm >= 0;
}

/// The level-payment factor `r g / (g - SCALE)` never falls as the monthly
/// rate rises, for the fixed-point growth `g` of each rate: at least one
/// basis point of annual rate apart, from a rate of at least one basis
/// point, over at most a million months.
proof fn lemma_annuity_order(r1: int, r2: int, n: nat, g1: int, g2: int)
    requires
        r1 >= 8_333_333,
        r2 - r1 >= 8_333_333,
        1 <= n <= 1_000_000,
        growth_spec(r1, n) == Some(g1),
        growth_spec(r2, n) == Some(g2),
    ensures
        r1 * g1 * (g2 - SCALE) <= r2 * g2 * (g1 - SCALE),
{
    let s = SCALE as int;
    let t = s - 1;
    let (p, q, dl) = (s + r1, s + r2, r2 - r1);
    let k = (n - 1) as nat;
    lemma_pow_fp_at_most_exact(s, q, n, g2);
    lemma_pow_fp_at_least_exact(s, p, n, g1);
    lemma_pow_difference(t, s, k);
    lemma_pow_difference(s, q, k);
    lemma_annuity_slack(r1, r2, k);
    lemma_pow_adds(s, n, n);
    lemma_pow_adds(s, k, 1);
    lemma_pow_adds(p, k, 1);
    lemma_pow1(s);
    lemma_pow1(p);
    lemma_pow_positive(s, n);
    lemma_pow_positive(s, k);
    lemma_pow_positive(p, k);
    lemma_pow_positive(p, n);
    lemma_pow_positive(q, n);
    lemma_pow_positive(t, n);
    lemma_pow_base_monotone(s, q, n);
    let (sn, sk, pn, pk, qn, cn) = (pow(s, n), pow(s, k), pow(p, n), pow(p, k), pow(q, n), pow(t, n));
    assert(k + 1 == n);
    assert(sn == sk * s);
    assert(pn == pk * p);
    assert(pow(s, 2 * n) == sn * sn);
    // What the lemmas give, over the atoms.
    assert(g2 * sn <= s * qn);
    assert(g1 * (sn * sn) >= s * pn * cn);
    assert(sn - cn <= n * (s - t) * sk);
    assert(qn - sn >= n * (q - s) * sk);
    let d = pn * qn * dl - sn * (r2 * qn - r1 * pn);
    assert(d == annuity_slack(r1, r2, k + 1));
    assert(d >= r1 * pk * dl * (qn - sn));
    // (a) s dl (qn - sn) >= 2 n p sn
    assert(dl * r2 >= 2 * p) by (nonlinear_arith)
        requires dl >= 8_333_333, r2 >= dl + r1, r1 >= 8_333_333, p == 1_000_000_000_000 + r1;
    assert(s * dl * (qn - sn) >= 2 * n * p * sn) by (nonlinear_arith)
        requires
            qn - sn >= n * r2 * sk,
            sn == sk * s,
            dl * r2 >= 2 * p,
            s > 0, dl > 0, sk > 0, n >= 1,
    {
        assert(s * dl * (qn - sn) >= s * dl * (n * r2 * sk));
        assert(s * dl * (n * r2 * sk) == n * sn * (dl * r2));
        assert(n * sn * (dl * r2) >= n * sn * (2 * p));
    }
    // (b) s r1 (qn - sn) >= 2 n p qn
    let u = qn - sn;
    assert(u >= n * r2 * sk) by (nonlinear_arith)
        requires qn - sn >= n * (q - s) * sk, u == qn - sn, q - s == r2;
    if qn >= 2 * sn {
        assert(s * r1 >= 4 * n * p) by (nonlinear_arith)
            requires r1 >= 8_333_333, n <= 1_000_000, p == s + r1, s == 1_000_000_000_000;
        assert(2 * u >= qn);
        lemma_scale_le(qn, 2 * u, s * r1);
        lemma_scale_le(4 * n * p, s * r1, qn);
        assert(2 * u * (s * r1) == 2 * (s * r1 * u)) by (nonlinear_arith);
        assert(4 * n * p * qn == 2 * (2 * n * p * qn)) by (nonlinear_arith);
        assert(qn * (s * r1) == s * r1 * qn) by (nonlinear_arith);
    } else {
        assert(r1 * r2 >= 4 * p) by (nonlinear_arith)
            requires r1 >= 8_333_333, r2 >= r1 + 8_333_333, p == 1_000_000_000_000 + r1;
        lemma_scale_le(n * r2 * sk, u, s * r1);
        assert((n * r2 * sk) * (s * r1) == n * sn * (r1 * r2)) by (nonlinear_arith)
            requires sn == sk * s;
        lemma_scale_le(4 * p, r1 * r2, n * sn);
        assert(n * p * (2 * qn) <= n * p * (4 * sn)) by (nonlinear_arith)
            requires qn < 2 * sn, n >= 1, p > 0;
        assert(4 * p * (n * sn) == n * p * (4 * sn)) by (nonlinear_arith);
        assert(r1 * r2 * (n * sn) == n * sn * (r1 * r2)) by (nonlinear_arith);
        assert(u * (s * r1) == s * r1 * u) by (nonlinear_arith);
        assert(n * p * (2 * qn) == 2 * n * p * qn) by (nonlinear_arith);
    }
    assert(s * r1 * u >= 2 * n * p * qn);
    assert(s * dl * u >= 2 * n * p * sn);
    // (K) s d >= n pn (qn dl + r1 sn)
    let v = s * r1 * dl * u;
    lemma_scale_le(2 * n * p * sn, s * dl * u, r1);
    lemma_scale_le(2 * n * p * qn, s * r1 * u, dl);
    assert((s * dl * u) * r1 == v && (s * r1 * u) * dl == v) by (nonlinear_arith)
        requires v == s * r1 * dl * u;
    assert((2 * n * p * sn) * r1 == 2 * (n * p * (r1 * sn))) by (nonlinear_arith);
    assert((2 * n * p * qn) * dl == 2 * (n * p * (dl * qn))) by (nonlinear_arith);
    lemma_mul_is_distributive_add(n * p, r1 * sn, dl * qn);
    assert(v >= n * p * (r1 * sn + dl * qn));
    lemma_scale_le(n * p * (r1 * sn + dl * qn), v, pk);
    let x = pn * qn * dl + r1 * pn * sn;
    let aa = r1 * sn + dl * qn;
    let y = n * pn;
    assert(n * p * aa * pk == y * aa) by (nonlinear_arith)
        requires pn == pk * p, y == n * pn;
    lemma_mul_is_distributive_add(y, r1 * sn, dl * qn);
    assert(y * (r1 * sn) == n * (r1 * pn * sn)) by (nonlinear_arith)
        requires y == n * pn;
    assert(y * (dl * qn) == n * (pn * qn * dl)) by (nonlinear_arith)
        requires y == n * pn;
    lemma_mul_is_distributive_add(n as int, pn * qn * dl, r1 * pn * sn);
    assert(n * p * (r1 * sn + dl * qn) * pk == n * x);
    lemma_scale_le(r1 * pk * dl * u, d, s);
    assert((r1 * pk * dl * u) * s == v * pk) by (nonlinear_arith)
        requires v == s * r1 * dl * u;
    assert(d * s >= n * x);
    // (B') sn sn r2 qn - cn x <= 0
    assert(x >= 0) by (nonlinear_arith)
        requires x == pn * qn * dl + r1 * pn * sn, pn > 0, qn > 0, dl > 0, r1 > 0, sn > 0;
    assert(s - t == 1);
    assert(n * (s - t) * sk == n * sk) by (nonlinear_arith)
        requires s - t == 1;
    assert(cn >= sn - n * sk);
    lemma_scale_le(sn - n * sk, cn, x);
    let ss = sn * sn;
    let bq = ss * r2 * qn - cn * x;
    assert(ss * r2 * qn - x * sn == -(sn * d)) by (nonlinear_arith)
        requires
            ss == sn * sn,
            d == pn * qn * dl - sn * (r2 * qn - r1 * pn),
            x == pn * qn * dl + r1 * pn * sn;
    assert((sn - n * sk) * x == x * sn - n * sk * x) by (nonlinear_arith);
    assert(bq <= -(sn * d) + n * sk * x);
    lemma_scale_le(n * x, d * s, sn);
    assert((d * s) * sn == s * (sn * d) && (n * x) * sn == s * (n * sk * x)) by (nonlinear_arith)
        requires sn == sk * s;
    assert(s * bq <= 0) by (nonlinear_arith)
        requires bq <= -(sn * d) + n * sk * x, s * (sn * d) >= s * (n * sk * x), s > 0;
    assert(bq <= 0) by (nonlinear_arith)
        requires s * bq <= 0, s > 0;
    // The order itself: e = s r2 g2 - s r1 g1 - g1 g2 dl <= 0.
    lemma_pow_fp_at_least_exact(s, q, n, g2);
    let e = s * r2 * g2 - s * r1 * g1 - g1 * g2 * dl;
    let m = s * r1 + g2 * dl;
    let z = s * pn * cn;
    assert(m > 0) by (nonlinear_arith)
        requires m == s * r1 + g2 * dl, s > 0, r1 > 0, g2 > 0, dl > 0;
    assert(e == s * r2 * g2 - m * g1) by (nonlinear_arith)
        requires e == s * r2 * g2 - s * r1 * g1 - g1 * g2 * dl, m == s * r1 + g2 * dl;
    assert(g1 * ss >= z);
    lemma_scale_le(z, g1 * ss, m);
    assert(e * ss == s * r2 * g2 * ss - (g1 * ss) * m) by (nonlinear_arith)
        requires e == s * r2 * g2 - m * g1;
    let w = s * r2 * ss - z * dl;
    assert(g2 * w - s * r1 * z == s * r2 * g2 * ss - z * m) by (nonlinear_arith)
        requires w == s * r2 * ss - z * dl, m == s * r1 + g2 * dl;
    assert(e * ss <= g2 * w - s * r1 * z);
    assert(s * r1 * z >= 0) by (nonlinear_arith)
        requires s > 0, r1 > 0, z == s * pn * cn, pn > 0, cn > 0;
    assert(ss > 0) by (nonlinear_arith)
        requires ss == sn * sn, sn > 0;
    if w > 0 {
        lemma_scale_le(g2 * sn, s * qn, w);
        lemma_mul_is_distributive_sub(s * qn, s * r2 * ss, z * dl);
        lemma_mul_is_distributive_sub(s * s, ss * r2 * qn, cn * x);
        lemma_mul_is_distributive_add(cn, pn * qn * dl, r1 * pn * sn);
        lemma_mul_is_distributive_add(s * s, cn * (pn * qn * dl), cn * (r1 * pn * sn));
        assert((s * qn) * (s * r2 * ss) == (s * s) * (ss * r2 * qn)) by (nonlinear_arith);
        assert((s * qn) * (z * dl) == (s * s) * (cn * (pn * qn * dl))) by (nonlinear_arith)
            requires z == s * pn * cn;
        assert(s * r1 * z * sn == (s * s) * (cn * (r1 * pn * sn))) by (nonlinear_arith)
            requires z == s * pn * cn;
        assert(s * qn * w - s * r1 * z * sn == s * s * bq);
        assert(s * s * bq <= 0) by (nonlinear_arith)
            requires bq <= 0;
        lemma_scale_le(e * ss, g2 * w - s * r1 * z, sn);
        assert((g2 * w - s * r1 * z) * sn == (g2 * sn) * w - s * r1 * z * sn) by (nonlinear_arith);
        assert((e * ss) * sn <= 0);
        assert(e <= 0) by (nonlinear_arith)
            requires (e * ss) * sn <= 0, ss > 0, sn > 0;
    } else {
        assert(g2 * w <= 0) by (nonlinear_arith)
            requires g2 > 0, w <= 0;
        assert(e <= 0) by (nonlinear_arith)
            requires e * ss <= 0, ss > 0;
    }
    lemma_mul_is_distributive_sub(r2 * g2, g1, s);
    lemma_mul_is_distributive_sub(r1 * g1, g2, s);
    lemma_mul_is_distributive_sub(g1 * g2, r2, r1);
    assert((r2 * g2) * g1 == (g1 * g2) * r2 && (r1 * g1) * g2 == (g1 * g2) * r1) by (nonlinear_arith);
    assert((r2 * g2) * s == s * r2 * g2 && (r1 * g1) * s == s * r1 * g1) by (nonlinear_arith);
    assert(g1 * g2 * dl == (g1 * g2) * (r2 - r1)) by (nonlinear_arith)
        requires dl == r2 - r1;
    assert(r2 * g2 * (g1 - s) - r1 * g1 * (g2 - s) == -e);
}

/// The monthly fixed-point rates of two annual rates at least one basis
/// point apart, from at least one basis point, are at least 8 333 333 apart
/// and at least that large.
proof fn lemma_monthly_rates_apart(low: Bps, high: Bps)
    requires
        1 <= low.raw() < high.raw(),
    ensures
        monthly_rate_spec(low) >= 8_333_333,
        monthly_rate_spec(high) - monthly_rate_spec(low) >= 8_333_333,
{
    let (a1, a2) = (low.raw() as int, high.raw() as int);
    let (n1, n2) = (a1 * 1_000_000_000_000, a2 * 1_000_000_000_000);
    lemma_fundamental_div_mod(n1, 120_000);
    lemma_fundamental_div_mod(n2, 120_000);
    lemma_mod_bound(n1, 120_000);
    lemma_mod_bound(n2, 120_000);
    let (r1, r2) = (n1 / 120_000, n2 / 120_000);
    assert(monthly_rate_spec(low) == r1);
    assert(monthly_rate_spec(high) == r2);
    let (m1, m2) = (n1 % 120_000, n2 % 120_000);
    assert(r1 >= 8_333_333 && r2 - r1 >= 8_333_333) by (nonlinear_arith)
        requires
            n1 == 120_000 * r1 + m1,
            n2 == 120_000 * r2 + m2,
            0 <= m1 < 120_000,
            0 <= m2 < 120_000,
            n1 == a1 * 1_000_000_000_000,
            n2 == a2 * 1_000_000_000_000,
            1 <= a1 < a2,
    {
        assert(n2 - n1 >= 1_000_000_000_000);
        assert(n1 >= 1_000_000_000_000);
    }
}

/// A higher rate never costs less: for a positive principal and a term of
/// at most a million months, raising a non-negative annual rate never
/// lowers the level monthly payment.
pub proof fn lemma_higher_rate_never_costs_less(
    principal: Money,
    low_rate: Bps,
    high_rate: Bps,
    term_months: u32,
    low: Money,
    high: Money,
)
    requires
        principal.minor() > 0,
        0 < term_months <= 1_000_000,
        0 <= low_rate.raw() < high_rate.raw(),
        payment_spec(principal, low_rate, term_months) == Ok::<Money, MoneyError>(low),
        payment_spec(principal, high_rate, term_months) == Ok::<Money, MoneyError>(high),
    ensures
        low.minor() <= high.minor(),
{
    if low_rate.raw() == 0 {
        lemma_bps_ext(low_rate, Bps::from_raw(0));
        lemma_interest_never_lowers_the_payment(principal, high_rate, term_months, low, high);
    } else {
        let s = SCALE as int;
        let l = principal.minor() as int;
        let n = term_months as nat;
        lemma_monthly_rates_apart(low_rate, high_rate);
        let (r1, r2) = (monthly_rate_spec(low_rate), monthly_rate_spec(high_rate));
        let g1 = growth_spec(r1, n)->0;
        let g2 = growth_spec(r2, n)->0;
        lemma_annuity_order(r1, r2, n, g1, g2);
        let (n1, d1) = (l * r1 * g1, s * (g1 - s));
        let (n2, d2) = (l * r2 * g2, s * (g2 - s));
        assert(payment_before_rounding(principal, low_rate, term_months) == Ok::<
            (int, int),
            Result<Money, MoneyError>,
        >((n1, d1)));
        assert(payment_before_rounding(principal, high_rate, term_months) == Ok::<
            (int, int),
            Result<Money, MoneyError>,
        >((n2, d2)));
        lemma_round_half_away_bound(n1, d1);
        lemma_round_half_away_bound(n2, d2);
        assert(low.minor() == round_half_away(n1, d1));
        assert(high.minor() == round_half_away(n2, d2));
        lemma_pow_fp_at_least_exact(s, s + r1, n, g1);
        assert(n1 >= 0) by (nonlinear_arith)
            requires n1 == l * r1 * g1, l > 0, r1 > 0, g1 > 0;
        assert(d1 > 0 && d2 > 0);
        lemma_scale_le(r1 * g1 * (g2 - s), r2 * g2 * (g1 - s), l * s);
        let (h1, h2) = (g1 - s, g2 - s);
        assert(n1 * d2 == (r1 * g1 * h2) * (l * s)) by (nonlinear_arith)
            requires n1 == l * r1 * g1, d2 == s * h2;
        assert(n2 * d1 == (r2 * g2 * h1) * (l * s)) by (nonlinear_arith)
            requires n2 == l * r2 * g2, d1 == s * h1;
        lemma_round_ordered_by_quotient(n1, d1, n2, d2);
    }
}

/// A payment is in the loan's currency, and so is twelve months of debt
/// service; neither fails with a currency mismatch.
pub proof fn lemma_payment_in_loan_currency(principal: Money, annual_rate: Bps, term_months: u32)
    ensures
        kept_in(payment_spec(principal, annual_rate, term_months), principal.currency()),
        kept_in(annual_debt_service_spec(principal, annual_rate, term_months), principal.currency()),
{
    let c = principal.currency();
    assert(Money::from_minor(0, c).minor() == 0);
    lemma_arithmetic_keeps_currency(principal, principal, annual_rate, term_months as i64);
    if let Ok((n, d)) = payment_before_rounding(principal, annual_rate, term_months) {
        if let Ok(m) = div_round_spec(n, d, "amort::div") {
            lemma_checked_money_currency(m as int, c, "amort::payment");
        }
    }
    if let Ok(p) = payment_spec(principal, annual_rate, term_months) {
        lemma_arithmetic_keeps_currency(p, p, annual_rate, MONTHS_PER_YEAR);
    }
}

/// A loan drawn against a price is in the price's currency, and never fails
/// with a currency mismatch.
pub proof fn lemma_loan_in_price_currency(price: Money, down_payment_rate: Bps)
    ensures
        kept_in(principal_from_ltv_spec(price, down_payment_rate), price.currency()),
{
    lemma_arithmetic_keeps_currency(price, price, down_payment_rate, 0);
    if let Ok(down) = money_apply(price, down_payment_rate) {
        lemma_arithmetic_keeps_currency(price, down, down_payment_rate, 0);
    }
}

/// A remaining balance is in the loan's currency.
pub proof fn lemma_balance_in_loan_currency(
    principal: Money,
    annual_rate: Bps,
    term_months: u32,
    elapsed_months: u32,
)
    ensures
        balance_spec(principal, annual_rate, term_months, elapsed_months) matches Ok(b) ==> b.currency()
            == principal.currency(),
{
    lemma_payment_in_loan_currency(principal, annual_rate, term_months);
    let c = principal.currency();
    assert(Money::from_minor(0, c).minor() == 0);
    if elapsed_months < term_months {
        if let Ok(p) = payment_spec(principal, annual_rate, term_months) {
            if monthly_rate_spec(annual_rate) == 0 {
                if let Ok(paid) = money_mul_int(p, elapsed_months as i64) {
                    lemma_checked_money_currency(principal.minor() - paid.minor(), c, "sub");
                }
            }
        }
    }
    if let Ok((n, d)) = balance_before_rounding(principal, annual_rate, term_months, elapsed_months) {
        if let Ok(m) = div_round_spec(n, d, "amort::div") {
            let v: i64 = if m < 0 { 0 } else { m as i64 };
            assert(Money::from_minor(v, c).minor() == v);
        }
    }
}

/// Fixed-point exponentiation from at least one with a base of at least
/// `floor >= 1` never falls below its start, and after one or more steps
/// never below `floor`.
proof fn lemma_pow_fp_at_least_base(acc: int, base: int, floor: int, e: nat, res: int)
    requires
        acc >= SCALE,
        base >= floor,
        floor >= SCALE,
        pow_fp_from(acc, base, e) == Some(res),
    ensures
        res >= acc,
        e >= 1 ==> res >= floor,
    decreases e,
{
    let s = SCALE as int;
    if e > 0 {
        let h = e / 2;
        let next = if e % 2 == 1 { (acc * base) / s } else { acc };
        if e % 2 == 1 {
            assert(acc * base >= acc * s && acc * base >= s * floor) by (nonlinear_arith)
                requires acc >= s, base >= floor, floor >= s, s > 0;
            lemma_div_is_ordered(acc * s, acc * base, s);
            lemma_div_is_ordered(s * floor, acc * base, s);
            lemma_div_multiples_vanish(acc, s);
            lemma_div_multiples_vanish(floor, s);
            assert(acc * s == s * acc) by (nonlinear_arith);
        }
        assert(next >= acc);
        if h > 0 {
            let sq = (base * base) / s;
            assert(base * base >= base * s) by (nonlinear_arith)
                requires base >= s, s > 0;
            lemma_div_is_ordered(base * s, base * base, s);
            lemma_div_multiples_vanish(base, s);
            assert(base * s == s * base) by (nonlinear_arith);
            assert(pow_fp_from(next, sq, h) == Some(res));
            lemma_pow_fp_at_least_base(next, sq, floor, h, res);
        } else {
            assert(res == next);
        }
    }
}

/// Paying reduces the debt: once at least one payment has been made, and
/// before the last, the remaining balance of a positive principal at a
/// positive rate is below the principal, provided the payment exceeds the
/// first month's interest by more than half a minor unit.
pub proof fn lemma_payments_reduce_the_balance(
    principal: Money,
    annual_rate: Bps,
    term_months: u32,
    elapsed_months: u32,
    payment: Money,
    balance: Money,
)
    requires
        principal.minor() > 0,
        annual_rate.raw() > 0,
        1 <= elapsed_months < term_months,
        payment_spec(principal, annual_rate, term_months) == Ok::<Money, MoneyError>(payment),
        2 * (payment.minor() * SCALE - principal.minor() * monthly_rate_spec(annual_rate)) > SCALE,
        balance_spec(principal, annual_rate, term_months, elapsed_months) == Ok::<Money, MoneyError>(
            balance,
        ),
    ensures
        0 <= balance.minor() < principal.minor(),
{
    let s = SCALE as int;
    let l = principal.minor() as int;
    let p = payment.minor() as int;
    let r = monthly_rate_spec(annual_rate);
    let raw = annual_rate.raw() as int;
    assert(raw * s >= 120_000) by (nonlinear_arith)
        requires raw >= 1, s == 1_000_000_000_000;
    lemma_div_is_ordered(120_000, raw * s, 120_000);
    assert(r >= 1);
    let g = growth_spec(r, elapsed_months as nat)->0;
    assert(growth_spec(r, elapsed_months as nat) is Some);
    lemma_pow_fp_at_least_base(s, s + r, s + r, elapsed_months as nat, g);
    let numer = l * g * r - p * (g - s) * s;
    let d = s * r;
    assert(balance_before_rounding(principal, annual_rate, term_months, elapsed_months) == Ok::<
        (int, int),
        Result<Money, MoneyError>,
    >((numer, d)));
    let m = round_half_away(numer, d);
    assert(d > 0) by (nonlinear_arith)
        requires s > 0, r >= 1, d == s * r;
    assert(2 * numer + d < 2 * d * l) by (nonlinear_arith)
        requires
            numer == l * g * r - p * (g - s) * s,
            d == s * r,
            g - s >= r,
            r >= 1,
            2 * (p * s - l * r) > s,
            s > 0,
    {
        assert(numer == l * s * r - (g - s) * (p * s - l * r));
        assert(2 * (g - s) * (p * s - l * r) >= r * (2 * (p * s - l * r)));
        assert(r * (2 * (p * s - l * r)) > r * s);
    }
    if numer >= 0 {
        lemma_fundamental_div_mod(2 * numer + d, 2 * d);
        lemma_mod_bound(2 * numer + d, 2 * d);
        let q = (2 * numer + d) / (2 * d);
        assert(q < l) by (nonlinear_arith)
            requires
                2 * numer + d == 2 * d * q + (2 * numer + d) % (2 * d),
                (2 * numer + d) % (2 * d) >= 0,
                2 * numer + d < 2 * d * l,
                d > 0,
        {
            if q >= l {
                assert(2 * d * q >= 2 * d * l);
            }
        }
        assert(m == q);
    } else {
        lemma_div_pos_is_pos(2 * abs(numer) + d, 2 * d);
        assert(m <= 0);
    }
    lemma_round_half_away_bound(numer, d);
    let mm = m as i128;
    assert(mm as int == m);
    assert(div_round_spec(numer, d, "amort::div") == Ok::<i128, MoneyError>(mm));
    let v: i64 = if mm < 0 { 0 } else { mm as i64 };
    assert(v < l);
    assert(balance == Money::from_minor(v, principal.currency()));
    assert(Money::from_minor(v, principal.currency()).minor() == v);
}

/// The first month's growth is exact: one month at rate `r` grows one unit
/// to exactly `SCALE + r`.
proof fn lemma_one_month_growth(r: int)
    requires
        0 <= r <= monthly_rate_bound(),
    ensures
        growth_spec(r, 1) == Some(SCALE + r),
{
    let s = SCALE as int;
    lemma_fp_constants();
    assert(s * (s + r) <= s * fp_bound()) by (nonlinear_arith)
        requires s > 0, 0 <= r, s + r <= fp_bound();
    lemma_div_multiples_vanish(s + r, s);
    assert(s * (s + r) == (s + r) * s) by (nonlinear_arith);
    assert(mul_fp_spec(s, s + r) == Some(s + r));
    reveal_with_fuel(pow_fp_from, 2);
}

/// Scaling a numerator and a positive denominator by the same positive
/// factor does not change the rounded quotient.
proof fn lemma_round_scaled(a: int, d: int, k: int)
    requires
        d > 0,
        k > 0,
    ensures
        round_half_away(k * a, k * d) == round_half_away(a, d),
{
    let x = 2 * abs(a) + d;
    assert(abs(k * a) == k * abs(a)) by (nonlinear_arith)
        requires k > 0;
    assert(abs(k * d) == k * d) by (nonlinear_arith)
        requires k > 0, d > 0;
    assert(2 * abs(k * a) + abs(k * d) == k * x) by (nonlinear_arith)
        requires abs(k * a) == k * abs(a), abs(k * d) == k * d, x == 2 * abs(a) + d;
    assert(2 * abs(k * d) == k * (2 * d)) by (nonlinear_arith)
        requires abs(k * d) == k * d;
    lemma_div_multiples_vanish_quotient(k, x, 2 * d);
    assert((k * a < 0) == (a < 0)) by (nonlinear_arith)
        requires k > 0;
    assert(k * d > 0) by (nonlinear_arith)
        requires k > 0, d > 0;
}

/// One payment in: the balance after the first month is the principal plus
/// that month's interest, less the payment, rounded once to the minor unit
/// (and read as zero if negative), at any positive rate.
pub proof fn lemma_balance_after_one_payment(
    principal: Money,
    annual_rate: Bps,
    term_months: u32,
    payment: Money,
    balance: Money,
)
    requires
        annual_rate.raw() > 0,
        term_months >= 2,
        payment_spec(principal, annual_rate, term_months) == Ok::<Money, MoneyError>(payment),
        balance_spec(principal, annual_rate, term_months, 1) == Ok::<Money, MoneyError>(balance),
    ensures
        ({
            let v = round_half_away(
                principal.minor() * (SCALE + monthly_rate_spec(annual_rate)) - payment.minor() * SCALE,
                SCALE as int,
            );
            balance.minor() == if v < 0 { 0 } else { v }
        }),
{
    let s = SCALE as int;
    let l = principal.minor() as int;
    let p = payment.minor() as int;
    let r = monthly_rate_spec(annual_rate);
    let raw = annual_rate.raw() as int;
    assert(raw * s >= 120_000) by (nonlinear_arith)
        requires raw >= 1, s == 1_000_000_000_000;
    lemma_div_is_ordered(120_000, raw * s, 120_000);
    lemma_monthly_rate_bounded(annual_rate);
    lemma_one_month_growth(r);
    let g = s + r;
    let numer = l * g * r - p * (g - s) * s;
    let d = s * r;
    assert(balance_before_rounding(principal, annual_rate, term_months, 1) == Ok::<
        (int, int),
        Result<Money, MoneyError>,
    >((numer, d)));
    let a = l * (s + r) - p * s;
    assert(numer == r * a && d == r * s) by (nonlinear_arith)
        requires numer == l * g * r - p * (g - s) * s, d == s * r, g == s + r, a == l * (s + r) - p * s;
    lemma_round_scaled(a, s, r);
    let m = round_half_away(numer, d);
    assert(d > 0) by (nonlinear_arith)
        requires s > 0, r >= 1, d == s * r;
    lemma_round_half_away_bound(numer, d);
    let mm = m as i128;
    assert(mm as int == m);
    assert(div_round_spec(numer, d, "amort::div") == Ok::<i128, MoneyError>(mm));
    assert(fits_i64(m));
    let w: i64 = if mm < 0 { 0 } else { mm as i64 };
    assert(balance == Money::from_minor(w, principal.currency()));
    assert(Money::from_minor(w, principal.currency()).minor() == w);
}

} // verus!
