//! Integer-minor-unit money and basis-point rates.
//!
//! Money is held as `i64` minor units (cents for USD) tagged with a
//! [`Currency`]. Every fallible operation returns a `Result`; nothing here
//! saturates or silently wraps.

use crate::text::{append_decimal, append_decimal2, append_signed_decimal, decimal, decimal2, signed_decimal};
use vstd::arithmetic::div_mod::*;
use vstd::prelude::*;

verus! {

/// Errors produced by money and rate arithmetic.
#[derive(Debug, Clone, PartialEq, Eq)]
pub enum MoneyError {
    /// Arithmetic exceeded the range of the underlying integer.
    Overflow {
        /// The operation that overflowed.
        op: &'static str,
    },
    /// Two operands carried different currencies.
    CurrencyMismatch {
        /// Currency of the left operand.
        lhs: Currency,
        /// Currency of the right operand.
        rhs: Currency,
    },
    /// A divisor was zero.
    DivideByZero {
        /// The operation that divided by zero.
        op: &'static str,
    },
    /// A value that must be positive was zero or negative.
    NonPositive {
        /// Field name for the offending value.
        field: &'static str,
        /// The offending value.
        value: i64,
    },
}

/// ISO-4217 currencies supported for amounts.
#[derive(Debug, Clone, Copy, PartialEq, Eq, Structural, Hash)]
#[non_exhaustive]
pub enum Currency {
    /// United States dollar.
    Usd,
    /// Euro.
    Eur,
    /// Pound sterling.
    Gbp,
    /// Canadian dollar.
    Cad,
    /// Mexican peso.
    Mxn,
}

impl Currency {
    /// Number of decimal places in the currency's normal written form.
    ///
    /// Every currency currently supported has two; the method exists so that
    /// adding a zero- or three-exponent currency is a data change.
    pub fn exponent(self) -> (r: u32)
        ensures
            r == 2,
    {
        match self {
            Currency::Usd | Currency::Eur | Currency::Gbp | Currency::Cad | Currency::Mxn => 2,
        }
    }

    /// Number of minor units in one major unit (100 for a two-exponent currency).
    pub fn minor_units_per_major(self) -> (r: i64)
        ensures
            r == units_for_exponent(2),
            r == 100,
    {
        match self.exponent() {
            0 => 1,
            1 => 10,
            2 => 100,
            3 => 1_000,
            _ => 1_000,
        }
    }

    /// ISO-4217 alphabetic code.
    pub fn code(self) -> (r: &'static str)
        ensures
            r@ == currency_code(self),
    {
        match self {
            Currency::Usd => "USD",
            Currency::Eur => "EUR",
            Currency::Gbp => "GBP",
            Currency::Cad => "CAD",
            Currency::Mxn => "MXN",
        }
    }
}

/// Minor units per major unit for a currency exponent; exponents above three
/// are treated as three.
pub open spec fn units_for_exponent(e: u32) -> int {
    if e == 0 { 1 } else if e == 1 { 10 } else if e == 2 { 100 } else { 1000 }
}

/// The ISO-4217 code of a currency.
pub open spec fn currency_code(c: Currency) -> Seq<char> {
    match c {
        Currency::Usd => "USD"@,
        Currency::Eur => "EUR"@,
        Currency::Gbp => "GBP"@,
        Currency::Cad => "CAD"@,
        Currency::Mxn => "MXN"@,
    }
}

/// Absolute value of an integer.
pub open spec fn abs(x: int) -> int {
    if x < 0 { -x } else { x }
}

/// Whether `x` fits in an `i128`.
pub open spec fn fits_i128(x: int) -> bool {
    i128::MIN <= x <= i128::MAX
}

/// Whether `x` fits in an `i64`.
pub open spec fn fits_i64(x: int) -> bool {
    i64::MIN <= x <= i64::MAX
}

/// Integer quotient truncated toward zero, as Rust's `/` computes it.
pub open spec fn trunc_div(n: int, d: int) -> int {
    if (n < 0) == (d < 0) { abs(n) / abs(d) } else { -(abs(n) / abs(d)) }
}

/// Remainder of the truncated division; it takes the sign of `n`.
pub open spec fn trunc_rem(n: int, d: int) -> int {
    if n < 0 { -(abs(n) % abs(d)) } else { abs(n) % abs(d) }
}

/// `n / d` rounded to the nearest integer, halves rounded away from zero.
pub open spec fn round_half_away(n: int, d: int) -> int {
    let m = (2 * abs(n) + abs(d)) / (2 * abs(d));
    if (n < 0) == (d < 0) { m } else { -m }
}

/// Whether the checked rounding division completes: the divisor is not zero,
/// the quotient fits, and twice the remainder fits in an `i128`.
pub open spec fn rounding_completes(n: int, d: int) -> bool {
    &&& d != 0
    &&& !(n == i128::MIN && d == -1)
    &&& (trunc_rem(n, d) == 0 || fits_i128(2 * trunc_rem(n, d)))
}

/// Inputs on which the rounding step would take the absolute value of
/// `i128::MIN`, which Rust does not define.
pub open spec fn rounding_takes_abs_of_min(n: int, d: int) -> bool {
    &&& rounding_completes(n, d)
    &&& trunc_rem(n, d) != 0
    &&& (d == i128::MIN || 2 * trunc_rem(n, d) == i128::MIN)
}

/// The outcome of [`div_round_half_away`] for every input it accepts.
pub open spec fn div_round_spec(n: int, d: int, op: &'static str) -> Result<i128, MoneyError> {
    if d == 0 {
        Err(MoneyError::DivideByZero { op })
    } else if !rounding_completes(n, d) {
        Err(MoneyError::Overflow { op })
    } else {
        Ok(round_half_away(n, d) as i128)
    }
}

/// `(2a + b) / (2b)` is `a / b`, plus one when the remainder is at least half of `b`.
proof fn lemma_half_up(a: int, b: int)
    requires
        a >= 0,
        b > 0,
    ensures
        (2 * a + b) / (2 * b) == a / b + (if 2 * (a % b) >= b { 1int } else { 0int }),
        a / b <= a,
{
    lemma_fundamental_div_mod(a, b);
    lemma_mod_bound(a, b);
    let q = a / b;
    let s = a % b;
    assert(2 * a + b == 2 * b * q + (2 * s + b)) by (nonlinear_arith)
        requires a == b * q + s;
    if 2 * s >= b {
        assert(2 * a + b == 2 * b * (q + 1) + (2 * s - b)) by (nonlinear_arith)
            requires 2 * a + b == 2 * b * q + (2 * s + b);
        lemma_div_multiples_vanish_fancy(q + 1, 2 * s - b, 2 * b);
    } else {
        lemma_div_multiples_vanish_fancy(q, 2 * s + b, 2 * b);
    }
    lemma_div_is_ordered_by_denominator(a, 1, b);
}

/// Facts about the truncated quotient of magnitudes: it is the dividend when
/// dividing by one, at most half of it otherwise, and a divisor of one
/// leaves no remainder.
proof fn lemma_quotient_magnitude(a: int, b: int)
    requires
        a >= 0,
        b > 0,
    ensures
        b == 1 ==> a / b == a && a % b == 0,
        b >= 2 ==> a / b <= a / 2,
        a / 2 <= a,
        a / b >= 0,
{
    lemma_div_basics(a);
    lemma_fundamental_div_mod(a, 1);
    lemma_mod_bound(a, 1);
    if b >= 2 {
        lemma_div_is_ordered_by_denominator(a, 2, b);
    }
    lemma_div_is_ordered_by_denominator(a, 1, 2);
    lemma_div_pos_is_pos(a, b);
}

/// The rounded quotient never exceeds the dividend in magnitude.
pub proof fn lemma_round_half_away_bound(n: int, d: int)
    requires
        d != 0,
    ensures
        abs(round_half_away(n, d)) <= abs(n),
        abs(d) == 1 ==> round_half_away(n, d) == trunc_div(n, d),
{
    let a = abs(n);
    let b = abs(d);
    lemma_half_up(a, b);
    lemma_quotient_magnitude(a, b);
    if b >= 2 && a >= 1 {
        assert(2 * a + b <= (2 * b) * a) by (nonlinear_arith)
            requires a >= 1, b >= 2;
        lemma_div_is_ordered(2 * a + b, (2 * b) * a, 2 * b);
        lemma_div_by_multiple(a, 2 * b);
        assert((2 * b) * a == a * (2 * b)) by (nonlinear_arith);
    } else if b >= 2 {
        lemma_basic_div(b, 2 * b);
    }
}

/// Rounding is to the nearest integer, with ties going away from zero: the
/// rounded quotient is within half a divisor of the exact one, and on an exact
/// tie it is the one of larger magnitude.
pub proof fn lemma_round_half_away_is_nearest(n: int, d: int)
    requires
        d != 0,
    ensures
        abs(2 * n - 2 * d * round_half_away(n, d)) <= abs(d),
        abs(2 * n - 2 * d * round_half_away(n, d)) == abs(d) ==> abs(d * round_half_away(n, d))
            > abs(n),
{
    let a = abs(n);
    let b = abs(d);
    let m = (2 * a + b) / (2 * b);
    lemma_fundamental_div_mod(2 * a + b, 2 * b);
    lemma_mod_bound(2 * a + b, 2 * b);
    let rho = (2 * a + b) % (2 * b);
    assert(2 * a - 2 * b * m == rho - b) by (nonlinear_arith)
        requires 2 * a + b == 2 * b * m + rho;
    if n == 0 {
        lemma_basic_div(b, 2 * b);
    }
    let r = round_half_away(n, d);
    assert(2 * n - 2 * d * r == 2 * a - 2 * b * m || 2 * n - 2 * d * r == -(2 * a - 2 * b * m)) by (nonlinear_arith)
        requires
            a == abs(n),
            b == abs(d),
            r == (if (n < 0) == (d < 0) { m } else { -m }),
            n == 0 ==> m == 0,
    {
        if n == 0 {
        } else if n < 0 && d < 0 {
            assert(n == -a && d == -b);
        } else if n < 0 {
            assert(n == -a && d == b);
        } else if d < 0 {
            assert(n == a && d == -b);
        } else {
            assert(n == a && d == b);
        }
    }
    lemma_div_pos_is_pos(2 * a + b, 2 * b);
    assert(abs(d * r) == b * m) by (nonlinear_arith)
        requires b == abs(d), r == m || r == -m, m >= 0;
    if abs(2 * n - 2 * d * r) == abs(d) {
        assert(rho == 0);
        assert(b * m > a) by (nonlinear_arith)
            requires 2 * a + b == 2 * b * m, b > 0;
    }
}

/// Rounding is odd in the dividend and in the divisor: negating either
/// negates the result, so a negative amount rounds away from zero in the
/// negative direction.
pub proof fn lemma_round_half_away_is_odd(n: int, d: int)
    requires
        d != 0,
    ensures
        round_half_away(-n, d) == -round_half_away(n, d),
        round_half_away(n, -d) == -round_half_away(n, d),
{
    if n == 0 {
        lemma_basic_div(abs(d), 2 * abs(d));
    }
}

/// Whether [`div_round_half_away`] is defined on these inputs: its rounding
/// step never takes the absolute value of `i128::MIN`.
pub fn rounding_is_defined(numer: i128, denom: i128) -> (r: bool)
    ensures
        r == !rounding_takes_abs_of_min(numer as int, denom as int),
{
    let ghost n = numer as int;
    let ghost d = denom as int;
    if denom == 0 || (numer == i128::MIN && denom == -1) {
        return true;
    }
    proof {
        lemma_mod_bound(abs(n), abs(d));
        if n == 0 {
            assert(0int % abs(d) == 0);
        }
    }
    let rem = match numer.checked_rem(denom) {
        Some(v) => v,
        None => {
            return true;
        },
    };
    assert(rem == trunc_rem(n, d));
    if rem == 0 {
        return true;
    }
    match rem.checked_mul(2) {
        None => true,
        Some(twice) => !(denom == i128::MIN || twice == i128::MIN),
    }
}

/// Integer division rounding half away from zero.
///
/// The one rounding primitive of the library. `op` labels the operation in
/// any error, so a caller keeps its own error vocabulary.
pub fn div_round_half_away(numer: i128, denom: i128, op: &'static str) -> (r: Result<
    i128,
    MoneyError,
>)
    requires
        !rounding_takes_abs_of_min(numer as int, denom as int),
    ensures
        r == div_round_spec(numer as int, denom as int, op),
{
    if denom == 0 {
        return Err(MoneyError::DivideByZero { op });
    }
    let ghost n = numer as int;
    let ghost d = denom as int;
    proof {
        lemma_quotient_magnitude(abs(n), abs(d));
        lemma_half_up(abs(n), abs(d));
        lemma_mod_bound(abs(n), abs(d));
    }
    let quot = match numer.checked_div(denom) {
        Some(q) => q,
        None => {
            return Err(MoneyError::Overflow { op });
        },
    };
    let rem = match numer.checked_rem(denom) {
        Some(r) => r,
        None => {
            return Err(MoneyError::Overflow { op });
        },
    };
    proof {
        assert(quot == trunc_div(n, d));
        if n == 0 {
            assert(rem == 0);
            assert(0int % abs(d) == 0);
        } else if n > 0 && d > 0 {
            assert(rem == n % d);
        } else if n < 0 && d < 0 {
            assert(rem == ((n * -1) % (d * -1)) * -1);
        } else if n < 0 {
            assert(rem == ((n * -1) % d) * -1);
        } else {
            assert(rem == n % (d * -1));
        }
        assert(rem == trunc_rem(n, d));
    }
    if rem == 0 {
        return Ok(quot);
    }
    let twice = match rem.checked_mul(2) {
        Some(t) => t,
        None => {
            return Err(MoneyError::Overflow { op });
        },
    };
    let twice_abs = if twice < 0 { -twice } else { twice };
    let denom_abs = if denom < 0 { -denom } else { denom };
    if twice_abs >= denom_abs {
        let step: i128 = if (numer < 0) == (denom < 0) { 1 } else { -1 };
        assert(abs(d) >= 2);
        match quot.checked_add(step) {
            Some(v) => Ok(v),
            None => Err(MoneyError::Overflow { op }),
        }
    } else {
        Ok(quot)
    }
}

} // verus!

verus! {

/// A monetary amount, stored as signed integer minor units.
///
/// Deliberately not `Add`/`Sub`/`Mul`: every operation is fallible (currency
/// mismatch, overflow), so each returns a `Result`.
#[derive(Debug, Clone, Copy, PartialEq, Eq, Structural, Hash)]
pub struct Money {
    minor: i64,
    currency: Currency,
}

/// An amount is determined by its minor units and its currency.
pub broadcast proof fn lemma_money_of_fields(minor: i64, currency: Currency)
    ensures
        #[trigger] Money::from_minor(minor, currency).minor() == minor,
        Money::from_minor(minor, currency).currency() == currency,
{
}

/// Two amounts with the same minor units and currency are equal.
pub proof fn lemma_money_ext(a: Money, b: Money)
    requires
        a.minor() == b.minor(),
        a.currency() == b.currency(),
    ensures
        a == b,
{
}

/// Every amount is `money_of` its own fields.
pub broadcast proof fn lemma_money_of_self(a: Money)
    ensures
        Money::from_minor(#[trigger] a.minor(), a.currency()) == a,
{
}

/// The arithmetic facts about amounts that other modules rely on.
pub broadcast group group_money {
    lemma_money_of_fields,
    lemma_money_of_self,
    lemma_bps_from_raw,
}

/// `minor` as an amount of `currency` when it fits in `i64`, else an overflow
/// labelled `op`.
pub open spec fn checked_money(minor: int, currency: Currency, op: &'static str) -> Result<
    Money,
    MoneyError,
> {
    if fits_i64(minor) {
        Ok(Money::from_minor(minor as i64, currency))
    } else {
        Err(MoneyError::Overflow { op })
    }
}

/// A checked amount is in the currency it was made in.
pub proof fn lemma_checked_money_currency(minor: int, currency: Currency, op: &'static str)
    ensures
        checked_money(minor, currency, op) matches Ok(m) ==> m.currency() == currency,
{
}

/// `raw` as a rate when it fits in `i64`, else an overflow labelled `op`.
pub open spec fn checked_bps(raw: int, op: &'static str) -> Result<Bps, MoneyError> {
    if fits_i64(raw) {
        Ok(Bps::from_raw(raw as i64))
    } else {
        Err(MoneyError::Overflow { op })
    }
}

/// The error for two operands of different currencies, if they differ.
pub open spec fn currency_check(a: Money, b: Money) -> Option<MoneyError> {
    if a.currency() == b.currency() {
        None
    } else {
        Some(MoneyError::CurrencyMismatch { lhs: a.currency(), rhs: b.currency() })
    }
}

/// Outcome of adding two amounts.
pub open spec fn money_add(a: Money, b: Money) -> Result<Money, MoneyError> {
    match currency_check(a, b) {
        Some(e) => Err(e),
        None => checked_money(a.minor() + b.minor(), a.currency(), "add"),
    }
}

/// Outcome of subtracting `b` from `a`.
pub open spec fn money_sub(a: Money, b: Money) -> Result<Money, MoneyError> {
    match currency_check(a, b) {
        Some(e) => Err(e),
        None => checked_money(a.minor() - b.minor(), a.currency(), "sub"),
    }
}

/// Outcome of multiplying an amount by an integer.
pub open spec fn money_mul_int(a: Money, n: i64) -> Result<Money, MoneyError> {
    checked_money(a.minor() * n, a.currency(), "mul_int")
}

/// Outcome of applying a rate to an amount, rounded half away from zero.
pub open spec fn money_apply(a: Money, rate: Bps) -> Result<Money, MoneyError> {
    checked_money(
        round_half_away(a.minor() * rate.raw(), Bps::SCALE as int),
        a.currency(),
        "apply",
    )
}

/// Outcome of dividing an amount by an integer, rounded half away from zero.
pub open spec fn money_div_int(a: Money, n: i64) -> Result<Money, MoneyError> {
    if n == 0 {
        Err(MoneyError::DivideByZero { op: "div_int" })
    } else {
        checked_money(round_half_away(a.minor() as int, n as int), a.currency(), "div_int")
    }
}

/// Outcome of expressing `a` as a rate of `base`, in basis points.
pub open spec fn money_ratio_to(a: Money, base: Money) -> Result<Bps, MoneyError> {
    match currency_check(a, base) {
        Some(e) => Err(e),
        None => if base.minor() <= 0 {
            Err(MoneyError::NonPositive { field: "ratio_to base", value: base.minor() })
        } else {
            checked_bps(
                round_half_away(a.minor() * Bps::SCALE, base.minor() as int),
                "ratio_to",
            )
        },
    }
}

/// Outcome of summing `items` in order onto `acc`, stopping at the first error.
pub open spec fn money_sum_onto(items: Seq<Money>, acc: Money) -> Result<Money, MoneyError>
    decreases items.len(),
{
    if items.len() == 0 {
        Ok(acc)
    } else {
        match money_add(acc, items[0]) {
            Ok(next) => money_sum_onto(items.drop_first(), next),
            Err(e) => Err(e),
        }
    }
}

/// The sum of the minor units of a list of amounts.
pub open spec fn minor_total(items: Seq<Money>) -> int
    decreases items.len(),
{
    if items.len() == 0 {
        0
    } else {
        items[0].minor() + minor_total(items.drop_first())
    }
}

/// A sum that completes adds the minor units of every item onto the start.
pub proof fn lemma_sum_onto_total(items: Seq<Money>, acc: Money, r: Money)
    requires
        money_sum_onto(items, acc) == Ok::<Money, MoneyError>(r),
    ensures
        r.minor() == acc.minor() + minor_total(items),
    decreases items.len(),
{
    if items.len() > 0 {
        let next = Money::from_minor((acc.minor() + items[0].minor()) as i64, acc.currency());
        lemma_sum_onto_total(items.drop_first(), next, r);
    }
}

/// An outcome that stays in `currency`: an amount in it, or a failure other
/// than a currency mismatch.
pub open spec fn kept_in(r: Result<Money, MoneyError>, currency: Currency) -> bool {
    match r {
        Ok(m) => m.currency() == currency,
        Err(e) => !(e is CurrencyMismatch),
    }
}

/// Arithmetic on amounts of one currency stays in it: scaling an amount
/// keeps its currency, and adding, subtracting or comparing two amounts of
/// the same currency never fails with a mismatch.
pub proof fn lemma_arithmetic_keeps_currency(a: Money, b: Money, rate: Bps, n: i64)
    ensures
        kept_in(money_apply(a, rate), a.currency()),
        kept_in(money_mul_int(a, n), a.currency()),
        kept_in(money_div_int(a, n), a.currency()),
        a.currency() == b.currency() ==> kept_in(money_add(a, b), a.currency()),
        a.currency() == b.currency() ==> kept_in(money_sub(a, b), a.currency()),
        a.currency() == b.currency() ==> !(money_ratio_to(a, b) matches Err(
            MoneyError::CurrencyMismatch { .. },
        )),
{
    lemma_checked_money_currency(round_half_away(a.minor() * rate.raw(), Bps::SCALE as int), a.currency(), "apply");
    lemma_checked_money_currency(a.minor() * n, a.currency(), "mul_int");
    lemma_checked_money_currency(round_half_away(a.minor() as int, n as int), a.currency(), "div_int");
    lemma_checked_money_currency(a.minor() + b.minor(), a.currency(), "add");
    lemma_checked_money_currency(a.minor() - b.minor(), a.currency(), "sub");
}

/// Summing amounts of one currency onto a start in that currency stays in it.
pub proof fn lemma_sum_keeps_currency(items: Seq<Money>, acc: Money, currency: Currency)
    requires
        acc.currency() == currency,
        forall|k: int| 0 <= k < items.len() ==> (#[trigger] items[k]).currency() == currency,
    ensures
        kept_in(money_sum_onto(items, acc), currency),
    decreases items.len(),
{
    if items.len() > 0 {
        lemma_arithmetic_keeps_currency(acc, items[0], Bps::from_raw(0), 0);
        if let Ok(next) = money_add(acc, items[0]) {
            let rest = items.drop_first();
            assert forall|k: int| 0 <= k < rest.len() implies (#[trigger] rest[k]).currency() == currency by {
                assert(rest[k] == items[k + 1]);
            }
            lemma_sum_keeps_currency(rest, next, currency);
        }
    }
}

/// Rounding half away from zero is monotone: a larger numerator never
/// rounds to a smaller quotient, for a positive divisor.
pub proof fn lemma_round_half_away_monotone(a: int, b: int, d: int)
    requires
        a <= b,
        d > 0,
    ensures
        round_half_away(a, d) <= round_half_away(b, d),
{
    if 0 <= a {
        lemma_div_is_ordered(2 * a + d, 2 * b + d, 2 * d);
    } else if b <= 0 {
        lemma_div_is_ordered(2 * abs(b) + d, 2 * abs(a) + d, 2 * d);
    } else {
        lemma_div_pos_is_pos(2 * abs(a) + d, 2 * d);
        lemma_div_pos_is_pos(2 * b + d, 2 * d);
    }
}

/// The product of two `i64` values is small enough to round in `i128`.
pub proof fn lemma_i64_product_bound(a: i64, b: i64)
    ensures
        abs(a * b) <= 0x4000_0000_0000_0000_0000_0000_0000_0000,
{
    assert(abs(a * b) <= 0x4000_0000_0000_0000_0000_0000_0000_0000) by (nonlinear_arith)
        requires
            -0x8000_0000_0000_0000 <= a <= 0x7fff_ffff_ffff_ffff,
            -0x8000_0000_0000_0000 <= b <= 0x7fff_ffff_ffff_ffff,
    {
        if a >= 0 && b >= 0 {
            assert(a * b <= 0x8000_0000_0000_0000 * b);
        } else if a < 0 && b < 0 {
            assert((-a) * (-b) <= 0x8000_0000_0000_0000 * (-b));
        } else if a < 0 {
            assert((-a) * b <= 0x8000_0000_0000_0000 * b);
        } else {
            assert(a * (-b) <= 0x8000_0000_0000_0000 * (-b));
        }
    }
}

/// The magnitude of a truncated remainder is below that of the divisor, and a
/// small dividend over a non-trivial divisor always rounds without overflow.
pub proof fn lemma_small_rounding(n: int, d: int)
    requires
        d != 0,
        abs(n) <= 0x4000_0000_0000_0000_0000_0000_0000_0000,
        abs(d) <= 0x4000_0000_0000_0000_0000_0000_0000_0000,
    ensures
        abs(trunc_rem(n, d)) < abs(d),
        rounding_completes(n, d),
        !rounding_takes_abs_of_min(n, d),
{
    lemma_mod_bound(abs(n), abs(d));
}

impl Money {
    /// The amount in minor units.
    pub closed spec fn spec_minor(self) -> i64 {
        self.minor
    }

    /// The currency tag.
    pub closed spec fn spec_currency(self) -> Currency {
        self.currency
    }

    /// The amount with the given minor units and currency.
    pub closed spec fn spec_from_minor(minor: i64, currency: Currency) -> Money {
        Money { minor, currency }
    }
    /// Construct from minor units (cents).
    #[verifier::when_used_as_spec(spec_from_minor)]
    pub fn from_minor(minor: i64, currency: Currency) -> (r: Money)
        ensures
            r == Money::spec_from_minor(minor, currency),
    {
        Money { minor, currency }
    }

    /// Construct from whole major units (dollars).
    pub fn from_major(major: i64, currency: Currency) -> (r: Result<Money, MoneyError>)
        ensures
            r == checked_money(major * units_for_exponent(2), currency, "from_major"),
    {
        match major.checked_mul(currency.minor_units_per_major()) {
            Some(minor) => Ok(Money { minor, currency }),
            None => Err(MoneyError::Overflow { op: "from_major" }),
        }
    }

    /// Zero in the given currency.
    pub fn zero(currency: Currency) -> (r: Money)
        ensures
            r == Money::from_minor(0, currency),
    {
        Money { minor: 0, currency }
    }

    /// The raw minor-unit amount.
    #[verifier::when_used_as_spec(spec_minor)]
    pub fn minor(self) -> (r: i64)
        ensures
            r == self.spec_minor(),
    {
        self.minor
    }

    /// The currency tag.
    #[verifier::when_used_as_spec(spec_currency)]
    pub fn currency(self) -> (r: Currency)
        ensures
            r == self.spec_currency(),
    {
        self.currency
    }

    /// True if the amount is exactly zero.
    pub fn is_zero(self) -> (r: bool)
        ensures
            r == (self.minor() == 0),
    {
        self.minor == 0
    }

    /// True if the amount is strictly greater than zero.
    pub fn is_positive(self) -> (r: bool)
        ensures
            r == (self.minor() > 0),
    {
        self.minor > 0
    }

    /// True if the amount is strictly less than zero.
    pub fn is_negative(self) -> (r: bool)
        ensures
            r == (self.minor() < 0),
    {
        self.minor < 0
    }

    fn same_currency(self, rhs: Money) -> (r: Result<(), MoneyError>)
        ensures
            r == match currency_check(self, rhs) {
                Some(e) => Err(e),
                None => Ok(()),
            },
    {
        if self.currency == rhs.currency {
            Ok(())
        } else {
            Err(MoneyError::CurrencyMismatch { lhs: self.currency, rhs: rhs.currency })
        }
    }

    /// Checked addition. Currencies must match.
    pub fn add(self, rhs: Money) -> (r: Result<Money, MoneyError>)
        ensures
            r == money_add(self, rhs),
    {
        self.same_currency(rhs)?;
        match self.minor.checked_add(rhs.minor) {
            Some(minor) => Ok(Money { minor, currency: self.currency }),
            None => Err(MoneyError::Overflow { op: "add" }),
        }
    }

    /// Checked subtraction. Currencies must match.
    pub fn sub(self, rhs: Money) -> (r: Result<Money, MoneyError>)
        ensures
            r == money_sub(self, rhs),
    {
        self.same_currency(rhs)?;
        match self.minor.checked_sub(rhs.minor) {
            Some(minor) => Ok(Money { minor, currency: self.currency }),
            None => Err(MoneyError::Overflow { op: "sub" }),
        }
    }

    /// Checked negation; fails only at `i64::MIN`.
    pub fn neg(self) -> (r: Result<Money, MoneyError>)
        ensures
            r == checked_money(-self.minor(), self.currency(), "neg"),
    {
        if self.minor == i64::MIN {
            Err(MoneyError::Overflow { op: "neg" })
        } else {
            Ok(Money { minor: -self.minor, currency: self.currency })
        }
    }

    /// Multiply by an integer scalar (e.g. 12 months).
    pub fn mul_int(self, n: i64) -> (r: Result<Money, MoneyError>)
        ensures
            r == money_mul_int(self, n),
    {
        match self.minor.checked_mul(n) {
            Some(minor) => Ok(Money { minor, currency: self.currency }),
            None => Err(MoneyError::Overflow { op: "mul_int" }),
        }
    }

    /// Sum amounts in order, starting from zero in `currency`, so that an
    /// empty list sums to zero in the stated currency.
    pub fn sum(items: Vec<Money>, currency: Currency) -> (r: Result<Money, MoneyError>)
        ensures
            r == money_sum_onto(items@, Money::from_minor(0, currency)),
    {
        let mut acc = Money::zero(currency);
        let mut i: usize = 0;
        assert(items@.skip(0) =~= items@);
        while i < items.len()
            invariant
                i <= items.len(),
                money_sum_onto(items@, Money::from_minor(0, currency)) == money_sum_onto(
                    items@.skip(i as int),
                    acc,
                ),
            decreases items.len() - i,
        {
            assert(items@.skip(i as int).drop_first() =~= items@.skip(i as int + 1));
            acc = acc.add(items[i])?;
            i += 1;
        }
        assert(items@.skip(i as int) =~= Seq::<Money>::empty());
        Ok(acc)
    }

    /// Apply a rate, rounding half away from zero to the nearest minor unit.
    ///
    /// This is the single rounding policy for money.
    pub fn apply(self, rate: Bps) -> (r: Result<Money, MoneyError>)
        ensures
            r == money_apply(self, rate),
    {
        proof {
            lemma_i64_product_bound(self.minor, rate.0);
        }
        let numer = (self.minor as i128) * (rate.0 as i128);
        proof {
            lemma_small_rounding(numer as int, 10_000);
        }
        let minor = div_round_half_away(numer, Bps::SCALE as i128, "apply")?;
        if minor < i64::MIN as i128 || minor > i64::MAX as i128 {
            return Err(MoneyError::Overflow { op: "apply" });
        }
        Ok(Money { minor: minor as i64, currency: self.currency })
    }

    /// Divide by an integer scalar, rounding half away from zero.
    pub fn div_int(self, n: i64) -> (r: Result<Money, MoneyError>)
        ensures
            r == money_div_int(self, n),
    {
        if n == 0 {
            return Err(MoneyError::DivideByZero { op: "div_int" });
        }
        proof {
            lemma_small_rounding(self.minor as int, n as int);
        }
        let minor = div_round_half_away(self.minor as i128, n as i128, "div_int")?;
        if minor < i64::MIN as i128 || minor > i64::MAX as i128 {
            return Err(MoneyError::Overflow { op: "div_int" });
        }
        Ok(Money { minor: minor as i64, currency: self.currency })
    }

    /// Express `self` as a rate of `base` in basis points, with one rounding
    /// step. Every ratio metric (cap rate, cash-on-cash, DSCR) is made this way.
    pub fn ratio_to(self, base: Money) -> (r: Result<Bps, MoneyError>)
        ensures
            r == money_ratio_to(self, base),
    {
        self.same_currency(base)?;
        if !base.is_positive() {
            return Err(MoneyError::NonPositive { field: "ratio_to base", value: base.minor });
        }
        proof {
            lemma_i64_product_bound(self.minor, Bps::SCALE);
        }
        let numer = (self.minor as i128) * (Bps::SCALE as i128);
        proof {
            lemma_small_rounding(numer as int, base.minor as int);
        }
        let raw = div_round_half_away(numer, base.minor as i128, "ratio_to")?;
        if raw < i64::MIN as i128 || raw > i64::MAX as i128 {
            return Err(MoneyError::Overflow { op: "ratio_to" });
        }
        Ok(Bps::from_raw(raw as i64))
    }
}

/// A rate in basis points (1 bp = 1/100 of a percent; 10 000 bp = 100%).
///
/// Rates are integers for the same reason money is.
#[derive(Debug, Clone, Copy, PartialEq, Eq, Structural, PartialOrd, Ord, Hash)]
pub struct Bps(i64);

/// A rate is determined by its raw basis-point count.
pub broadcast proof fn lemma_bps_from_raw(raw: i64)
    ensures
        #[trigger] Bps::from_raw(raw).raw() == raw,
{
}

/// Two rates with the same raw count are equal.
pub proof fn lemma_bps_ext(a: Bps, b: Bps)
    requires
        a.raw() == b.raw(),
    ensures
        a == b,
{
}

impl Bps {
    /// The raw basis-point count.
    pub closed spec fn spec_raw(self) -> i64 {
        self.0
    }

    /// The rate with the given raw count.
    pub closed spec fn spec_from_raw(raw: i64) -> Bps {
        Bps(raw)
    }

    /// Basis points in 1.0 (100%). A rate of 5.25% is `Bps::from_raw(525)`.
    pub const SCALE: i64 = 10_000;

    /// Zero rate.
    pub fn zero() -> (r: Bps)
        ensures
            r == Bps::from_raw(0),
    {
        Bps(0)
    }

    /// 100%.
    pub fn one() -> (r: Bps)
        ensures
            r == Bps::from_raw(Bps::SCALE),
    {
        Bps(Bps::SCALE)
    }

    /// Construct from a raw basis-point count.
    #[verifier::when_used_as_spec(spec_from_raw)]
    pub fn from_raw(raw: i64) -> (r: Bps)
        ensures
            r == Bps::spec_from_raw(raw),
    {
        Bps(raw)
    }

    /// Construct from whole percentage points (7% -> 700 bp).
    pub fn from_percent(pct: i64) -> (r: Result<Bps, MoneyError>)
        ensures
            r == checked_bps(pct * 100, "Bps::from_percent"),
    {
        match pct.checked_mul(100) {
            Some(raw) => Ok(Bps(raw)),
            None => Err(MoneyError::Overflow { op: "Bps::from_percent" }),
        }
    }

    /// The raw basis-point count.
    #[verifier::when_used_as_spec(spec_raw)]
    pub fn raw(self) -> (r: i64)
        ensures
            r == self.spec_raw(),
    {
        self.0
    }

    /// True if strictly greater than zero.
    pub fn is_positive(self) -> (r: bool)
        ensures
            r == (self.raw() > 0),
    {
        self.0 > 0
    }

    /// Checked addition.
    pub fn add(self, rhs: Bps) -> (r: Result<Bps, MoneyError>)
        ensures
            r == checked_bps(self.raw() + rhs.raw(), "Bps::add"),
    {
        match self.0.checked_add(rhs.0) {
            Some(raw) => Ok(Bps(raw)),
            None => Err(MoneyError::Overflow { op: "Bps::add" }),
        }
    }

    /// Checked subtraction.
    pub fn sub(self, rhs: Bps) -> (r: Result<Bps, MoneyError>)
        ensures
            r == checked_bps(self.raw() - rhs.raw(), "Bps::sub"),
    {
        match self.0.checked_sub(rhs.0) {
            Some(raw) => Ok(Bps(raw)),
            None => Err(MoneyError::Overflow { op: "Bps::sub" }),
        }
    }

    /// The complement of this rate (`1 - self`), e.g. 1 - vacancy.
    pub fn complement(self) -> (r: Result<Bps, MoneyError>)
        ensures
            r == checked_bps(Bps::SCALE - self.raw(), "Bps::sub"),
    {
        Bps::one().sub(self)
    }

    /// Divide this rate by an integer (e.g. an annual rate to monthly),
    /// rounding half away from zero.
    pub fn div_int(self, n: i64) -> (r: Result<Bps, MoneyError>)
        ensures
            r == (if n == 0 {
                Err(MoneyError::DivideByZero { op: "Bps::div_int" })
            } else {
                checked_bps(round_half_away(self.raw() as int, n as int), "Bps::div_int")
            }),
    {
        if n == 0 {
            return Err(MoneyError::DivideByZero { op: "Bps::div_int" });
        }
        proof {
            lemma_small_rounding(self.0 as int, n as int);
        }
        let raw = div_round_half_away(self.0 as i128, n as i128, "Bps::div_int")?;
        if raw < i64::MIN as i128 || raw > i64::MAX as i128 {
            return Err(MoneyError::Overflow { op: "Bps::div_int" });
        }
        Ok(Bps(raw as i64))
    }
}

} // verus!

verus! {

/// Adding an amount and then subtracting it again gives back the first amount.
pub proof fn lemma_add_then_sub_is_identity(a: Money, b: Money, total: Money)
    requires
        money_add(a, b) == Ok::<Money, MoneyError>(total),
    ensures
        money_sub(total, b) == Ok::<Money, MoneyError>(a),
{
}

/// Addition of amounts in one currency does not depend on operand order.
pub proof fn lemma_add_commutes(a: Money, b: Money)
    requires
        a.currency() == b.currency(),
    ensures
        money_add(a, b) == money_add(b, a),
{
}

/// Amounts in different currencies never combine: adding, subtracting or
/// taking a ratio reports the mismatch with both currencies.
pub proof fn lemma_mixed_currencies_are_rejected(a: Money, b: Money)
    requires
        a.currency() != b.currency(),
    ensures
        money_add(a, b) == Err::<Money, MoneyError>(
            MoneyError::CurrencyMismatch { lhs: a.currency(), rhs: b.currency() },
        ),
        money_sub(a, b) == Err::<Money, MoneyError>(
            MoneyError::CurrencyMismatch { lhs: a.currency(), rhs: b.currency() },
        ),
        money_ratio_to(a, b) == Err::<Bps, MoneyError>(
            MoneyError::CurrencyMismatch { lhs: a.currency(), rhs: b.currency() },
        ),
{
}

/// `round_half_away(k * d, d) == k`: an exact multiple is not rounded.
pub proof fn lemma_round_exact_multiple(k: int, d: int)
    requires
        d != 0,
    ensures
        round_half_away(k * d, d) == k,
        trunc_rem(k * d, d) == 0,
{
    let a = abs(k);
    let b = abs(d);
    assert(abs(k * d) == a * b) by (nonlinear_arith)
        requires a == abs(k), b == abs(d);
    assert(2 * (a * b) + b == (2 * b) * a + b) by (nonlinear_arith);
    lemma_div_multiples_vanish_fancy(a, b, 2 * b);
    assert((2 * b) * a == 2 * b * a) by (nonlinear_arith);
    lemma_mod_multiples_basic(a, b);
    assert(a * b == b * a) by (nonlinear_arith);
    assert((k * d < 0) == ((k < 0) != (d < 0)) || k == 0) by (nonlinear_arith)
        requires d != 0;
}

/// Applying a rate of 100% gives back the amount unchanged.
pub proof fn lemma_apply_full_rate_is_identity(a: Money)
    ensures
        money_apply(a, Bps::from_raw(Bps::SCALE)) == Ok::<Money, MoneyError>(a),
{
    lemma_round_exact_multiple(a.minor() as int, Bps::SCALE as int);
    assert(a.minor() * Bps::SCALE == (a.minor() as int) * (Bps::SCALE as int));
}

/// Scaled amounts are rounded to the nearest unit, ties away from zero:
/// applying a rate, dividing by an integer and taking a ratio in basis
/// points each land within half a unit of the exact value, and on an exact
/// half on the side of larger magnitude.
pub proof fn lemma_scaled_amounts_round_to_nearest(a: Money, rate: Bps, n: i64, base: Money)
    ensures
        money_apply(a, rate) matches Ok(r) ==> {
            let (exact, got) = (a.minor() * rate.raw(), Bps::SCALE * r.minor());
            &&& abs(2 * exact - 2 * got) <= Bps::SCALE
            &&& abs(2 * exact - 2 * got) == Bps::SCALE ==> abs(got) > abs(exact)
        },
        money_div_int(a, n) matches Ok(q) ==> {
            let (exact, got) = (a.minor() as int, n * q.minor());
            &&& abs(2 * exact - 2 * got) <= abs(n as int)
            &&& abs(2 * exact - 2 * got) == abs(n as int) ==> abs(got) > abs(exact)
        },
        money_ratio_to(a, base) matches Ok(x) ==> {
            let (exact, got) = (a.minor() * Bps::SCALE, base.minor() * x.raw());
            &&& abs(2 * exact - 2 * got) <= base.minor()
            &&& abs(2 * exact - 2 * got) == base.minor() ==> abs(got) > abs(exact)
        },
{
    let s = Bps::SCALE as int;
    lemma_round_half_away_is_nearest(a.minor() * rate.raw(), s);
    if n != 0 {
        let d = n as int;
        let m = round_half_away(a.minor() as int, d);
        lemma_round_half_away_is_nearest(a.minor() as int, d);
        assert(2 * d * m == 2 * (d * m)) by (nonlinear_arith);
        if let Ok(q) = money_div_int(a, n) {
            assert(q.minor() == m);
        }
    }
    if base.minor() > 0 {
        let d = base.minor() as int;
        let m = round_half_away(a.minor() * Bps::SCALE, d);
        lemma_round_half_away_is_nearest(a.minor() * Bps::SCALE, d);
        assert(2 * d * m == 2 * (d * m)) by (nonlinear_arith);
        if let Ok(x) = money_ratio_to(a, base) {
            assert(x == Bps::from_raw(m as i64));
            assert(x.raw() == m);
        }
    }
}

/// For a non-negative amount, a larger base never gives a larger ratio.
pub proof fn lemma_ratio_non_increasing_in_base(a: Money, b1: Money, b2: Money, r1: Bps, r2: Bps)
    requires
        a.minor() >= 0,
        0 < b1.minor() <= b2.minor(),
        money_ratio_to(a, b1) == Ok::<Bps, MoneyError>(r1),
        money_ratio_to(a, b2) == Ok::<Bps, MoneyError>(r2),
    ensures
        r2.raw() <= r1.raw(),
{
    let n = a.minor() * Bps::SCALE;
    let d1 = b1.minor() as int;
    let d2 = b2.minor() as int;
    assert(n >= 0) by (nonlinear_arith)
        requires a.minor() >= 0, n == a.minor() * 10_000;
    let q = (2 * n + d2) / (2 * d2);
    lemma_fundamental_div_mod(2 * n + d2, 2 * d2);
    lemma_mod_bound(2 * n + d2, 2 * d2);
    lemma_div_pos_is_pos(2 * n + d2, 2 * d2);
    lemma_div_pos_is_pos(2 * n + d1, 2 * d1);
    if q >= 1 {
        assert(q * (2 * d1) <= 2 * n + d1) by (nonlinear_arith)
            requires
                2 * d2 * q <= 2 * n + d2,
                q >= 1,
                0 < d1 <= d2,
        {
            assert(d1 * (2 * q - 1) <= d2 * (2 * q - 1));
        }
        lemma_div_is_ordered(q * (2 * d1), 2 * n + d1, 2 * d1);
        lemma_div_by_multiple(q, 2 * d1);
    }
}

/// An amount as text: optional `-`, whole major units, `.`, the minor units
/// to the currency's two decimal places, a space and the currency code, with
/// no locale grouping (`1500.00 USD`, `-0.05 USD`).
pub open spec fn money_text(m: Money) -> Seq<char> {
    let a = abs(m.minor() as int);
    (if m.minor() < 0 { seq!['-'] } else { Seq::empty() }) + decimal((a / 100) as nat) + seq!['.']
        + decimal2((a % 100) as nat) + seq![' '] + currency_code(m.currency())
}

/// A rate as a percentage with two decimals and a `%` sign (`7.25%`).
pub open spec fn bps_text(b: Bps) -> Seq<char> {
    let a = abs(b.raw() as int);
    (if b.raw() < 0 { seq!['-'] } else { Seq::empty() }) + decimal((a / 100) as nat) + seq!['.']
        + decimal2((a % 100) as nat) + seq!['%']
}

/// The message of a money error.
pub open spec fn money_error_text(e: MoneyError) -> Seq<char> {
    match e {
        MoneyError::Overflow { op } => "money arithmetic overflowed: "@ + op@,
        MoneyError::CurrencyMismatch { lhs, rhs } => "currency mismatch: "@ + currency_code(lhs)
            + " vs "@ + currency_code(rhs),
        MoneyError::DivideByZero { op } => "division by zero: "@ + op@,
        MoneyError::NonPositive { field, value } => "expected a positive value for "@ + field@
            + ", got "@ + signed_decimal(value as int),
    }
}

/// The magnitude of an `i64` as a `u64` (defined for `i64::MIN` too).
fn magnitude(v: i64) -> (r: u64)
    ensures
        r == abs(v as int),
{
    if v < 0 {
        (0i128 - v as i128) as u64
    } else {
        v as u64
    }
}

impl Currency {
    /// The currency as text: its ISO-4217 code.
    pub fn to_string(self) -> (r: String)
        ensures
            r@ == currency_code(self),
    {
        let mut buf = String::new();
        buf.append(self.code());
        buf
    }
}

impl MoneyError {
    /// The error as a human-readable message.
    pub fn to_string(&self) -> (r: String)
        ensures
            r@ == money_error_text(*self),
    {
        let mut buf = String::new();
        match self {
            MoneyError::Overflow { op } => {
                buf.append("money arithmetic overflowed: ");
                buf.append(op);
            },
            MoneyError::CurrencyMismatch { lhs, rhs } => {
                buf.append("currency mismatch: ");
                buf.append(lhs.code());
                buf.append(" vs ");
                buf.append(rhs.code());
            },
            MoneyError::DivideByZero { op } => {
                buf.append("division by zero: ");
                buf.append(op);
            },
            MoneyError::NonPositive { field, value } => {
                buf.append("expected a positive value for ");
                buf.append(field);
                buf.append(", got ");
                append_signed_decimal(&mut buf, *value);
            },
        }
        proof {
            assert(buf@ =~= money_error_text(*self));
        }
        buf
    }
}

impl Money {
    /// The amount at full precision, without locale grouping: presentation
    /// formatting belongs to the user interface, not to the type.
    pub fn to_string(&self) -> (r: String)
        ensures
            r@ == money_text(*self),
    {
        let mut buf = String::new();
        if self.minor < 0 {
            proof { reveal_strlit("-"); }
            buf.append("-");
        }
        let a = magnitude(self.minor);
        let per = self.currency.minor_units_per_major() as u64;
        append_decimal(&mut buf, a / per);
        proof { reveal_strlit("."); }
        buf.append(".");
        append_decimal2(&mut buf, a % per);
        proof { reveal_strlit(" "); }
        buf.append(" ");
        buf.append(self.currency.code());
        proof {
            assert(buf@ =~= money_text(*self));
        }
        buf
    }
}

impl Bps {
    /// The rate as a percentage with two decimals (`7.25%`).
    pub fn to_string(&self) -> (r: String)
        ensures
            r@ == bps_text(*self),
    {
        let mut buf = String::new();
        if self.0 < 0 {
            proof { reveal_strlit("-"); }
            buf.append("-");
        }
        let a = magnitude(self.0);
        append_decimal(&mut buf, a / 100);
        proof { reveal_strlit("."); }
        buf.append(".");
        append_decimal2(&mut buf, a % 100);
        proof { reveal_strlit("%"); }
        buf.append("%");
        proof {
            assert(buf@ =~= bps_text(*self));
        }
        buf
    }
}

} // verus!
