use velt::money::{div_round_half_away, Bps, Currency, Money, MoneyError};

const USD: Currency = Currency::Usd;

fn usd(minor: i64) -> Money {
    Money::from_minor(minor, USD)
}

#[test]
fn from_major_scales_to_minor_units() {
    assert_eq!(Money::from_major(1_500, USD).unwrap().minor(), 150_000);
}

#[test]
fn addition_requires_matching_currency() {
    let a = usd(100);
    let b = Money::from_minor(100, Currency::Eur);
    assert_eq!(
        a.add(b),
        Err(MoneyError::CurrencyMismatch {
            lhs: Currency::Usd,
            rhs: Currency::Eur
        })
    );
}

#[test]
fn addition_overflow_is_an_error_not_a_wrap() {
    assert_eq!(
        usd(i64::MAX).add(usd(1)),
        Err(MoneyError::Overflow { op: "add" })
    );
}

#[test]
fn apply_rate_rounds_half_away_from_zero() {
    // 1000 cents at 5.00% = 50 cents exactly.
    assert_eq!(usd(1_000).apply(Bps::from_raw(500)).unwrap(), usd(50));
    // 1005 cents at 50.00% = 502.5 -> 503 (half away from zero).
    assert_eq!(usd(1_005).apply(Bps::from_raw(5_000)).unwrap(), usd(503));
    // Negative amount rounds away from zero in the negative direction.
    assert_eq!(usd(-1_005).apply(Bps::from_raw(5_000)).unwrap(), usd(-503));
}

#[test]
fn ratio_to_produces_basis_points() {
    // 7,200 / 100,000 = 7.20% = 720 bp
    let noi = usd(720_000);
    let price = usd(10_000_000);
    assert_eq!(noi.ratio_to(price).unwrap(), Bps::from_raw(720));
}

#[test]
fn ratio_to_rejects_non_positive_base() {
    assert_eq!(
        usd(100).ratio_to(usd(0)),
        Err(MoneyError::NonPositive {
            field: "ratio_to base",
            value: 0
        })
    );
}

#[test]
fn complement_of_vacancy_is_occupancy() {
    let vacancy = Bps::from_raw(750); // 7.5%
    assert_eq!(vacancy.complement().unwrap(), Bps::from_raw(9_250));
}

#[test]
fn display_is_exact_and_unambiguous() {
    assert_eq!(usd(150_000).to_string(), "1500.00 USD");
    assert_eq!(usd(-5).to_string(), "-0.05 USD");
    assert_eq!(Bps::from_raw(725).to_string(), "7.25%");
}

#[test]
fn sum_of_empty_is_zero_in_the_stated_currency() {
    let empty: Vec<Money> = vec![];
    assert_eq!(Money::sum(empty, USD).unwrap(), Money::zero(USD));
}

#[test]
fn div_round_half_away_matches_hand_verified_cases() {
    assert_eq!(div_round_half_away(5, 2, "t").unwrap(), 3);
    assert_eq!(div_round_half_away(-5, 2, "t").unwrap(), -3);
    assert_eq!(div_round_half_away(5, -2, "t").unwrap(), -3);
    assert_eq!(div_round_half_away(-5, -2, "t").unwrap(), 3);
    assert_eq!(div_round_half_away(4, 2, "t").unwrap(), 2);
    assert_eq!(div_round_half_away(1, 3, "t").unwrap(), 0);
}

#[test]
fn the_op_label_is_carried_into_the_error() {
    assert_eq!(
        div_round_half_away(1, 0, "caller_name"),
        Err(MoneyError::DivideByZero { op: "caller_name" })
    );
}

#[test]
fn money_sign_predicates_are_asserted_at_every_boundary() {
    assert!(usd(0).is_zero());
    assert!(!usd(1).is_zero());
    assert!(!usd(-1).is_zero());

    assert!(usd(1).is_positive());
    assert!(!usd(0).is_positive(), "zero is not positive");
    assert!(!usd(-1).is_positive());

    assert!(usd(-1).is_negative());
    assert!(!usd(0).is_negative(), "zero is not negative");
    assert!(!usd(1).is_negative());
}

#[test]
fn bps_is_positive_only_strictly_above_zero() {
    assert!(Bps::from_raw(1).is_positive());
    assert!(!Bps::zero().is_positive(), "zero is not positive");
    assert!(!Bps::from_raw(-1).is_positive());
}

#[test]
fn div_int_rejects_a_zero_divisor_and_divides_otherwise() {
    assert_eq!(
        usd(100).div_int(0),
        Err(MoneyError::DivideByZero { op: "div_int" })
    );
    assert_eq!(usd(100).div_int(4).unwrap(), usd(25));
}

#[test]
fn bps_div_int_rejects_a_zero_divisor_and_divides_otherwise() {
    assert_eq!(
        Bps::from_raw(1_200).div_int(0),
        Err(MoneyError::DivideByZero { op: "Bps::div_int" })
    );
    assert_eq!(
        Bps::from_raw(1_200).div_int(12).unwrap(),
        Bps::from_raw(100)
    );
}

// ---- further cases ----

#[test]
fn currency_codes_and_exponents() {
    assert_eq!(Currency::Usd.code(), "USD");
    assert_eq!(Currency::Eur.code(), "EUR");
    assert_eq!(Currency::Gbp.code(), "GBP");
    assert_eq!(Currency::Cad.code(), "CAD");
    assert_eq!(Currency::Mxn.code(), "MXN");
    assert_eq!(Currency::Gbp.exponent(), 2);
    assert_eq!(Currency::Mxn.minor_units_per_major(), 100);
    assert_eq!(Currency::Cad.to_string(), "CAD");
}

#[test]
fn adding_then_subtracting_gives_back_the_amount() {
    let a = usd(123_456);
    let b = usd(-7_890);
    assert_eq!(a.add(b).unwrap().sub(b).unwrap(), a);
    assert_eq!(a.add(b).unwrap(), b.add(a).unwrap());
}

#[test]
fn subtraction_and_negation_report_overflow() {
    assert_eq!(
        usd(i64::MIN).sub(usd(1)),
        Err(MoneyError::Overflow { op: "sub" })
    );
    assert_eq!(usd(i64::MIN).neg(), Err(MoneyError::Overflow { op: "neg" }));
    assert_eq!(usd(42).neg().unwrap(), usd(-42));
    assert_eq!(
        usd(i64::MAX).mul_int(2),
        Err(MoneyError::Overflow { op: "mul_int" })
    );
    assert_eq!(usd(-25).mul_int(4).unwrap(), usd(-100));
}

#[test]
fn from_major_overflows_past_the_minor_unit_range() {
    assert_eq!(
        Money::from_major(i64::MAX, USD),
        Err(MoneyError::Overflow { op: "from_major" })
    );
}

#[test]
fn sum_adds_in_order_and_rejects_a_foreign_currency() {
    assert_eq!(
        Money::sum(vec![usd(100), usd(250), usd(-50)], USD).unwrap(),
        usd(300)
    );
    assert_eq!(
        Money::sum(vec![usd(100), Money::from_minor(1, Currency::Gbp)], USD),
        Err(MoneyError::CurrencyMismatch {
            lhs: Currency::Usd,
            rhs: Currency::Gbp
        })
    );
    let empty: Vec<Money> = vec![];
    assert_eq!(
        Money::sum(empty, Currency::Eur).unwrap().currency(),
        Currency::Eur
    );
}

#[test]
fn applying_the_full_rate_is_the_identity() {
    assert_eq!(usd(98_765).apply(Bps::one()).unwrap(), usd(98_765));
    assert_eq!(usd(-3).apply(Bps::one()).unwrap(), usd(-3));
}

#[test]
fn ratio_rounds_half_away_and_falls_as_the_base_grows() {
    // 1 / 3 = 3333.33 bp -> 3333
    assert_eq!(usd(1).ratio_to(usd(3)).unwrap(), Bps::from_raw(3_333));
    // 1 / 8 = 1250 bp exactly; 1 / 16000 = 0.625 bp -> 1
    assert_eq!(usd(1).ratio_to(usd(8)).unwrap(), Bps::from_raw(1_250));
    assert_eq!(usd(1).ratio_to(usd(16_000)).unwrap(), Bps::from_raw(1));
    let small = usd(720_000).ratio_to(usd(10_000_000)).unwrap();
    let large = usd(720_000).ratio_to(usd(11_000_000)).unwrap();
    assert!(large.raw() <= small.raw());
    assert_eq!(
        usd(1).ratio_to(usd(-5)),
        Err(MoneyError::NonPositive {
            field: "ratio_to base",
            value: -5
        })
    );
}

#[test]
fn rates_add_subtract_and_convert_from_percent() {
    assert_eq!(Bps::from_percent(7).unwrap(), Bps::from_raw(700));
    assert_eq!(
        Bps::from_percent(i64::MAX),
        Err(MoneyError::Overflow { op: "Bps::from_percent" })
    );
    assert_eq!(
        Bps::from_raw(250).add(Bps::from_raw(100)).unwrap(),
        Bps::from_raw(350)
    );
    assert_eq!(
        Bps::from_raw(250).sub(Bps::from_raw(300)).unwrap(),
        Bps::from_raw(-50)
    );
    assert_eq!(
        Bps::from_raw(i64::MAX).add(Bps::from_raw(1)),
        Err(MoneyError::Overflow { op: "Bps::add" })
    );
    assert_eq!(Bps::one().raw(), Bps::SCALE);
    assert_eq!(Bps::zero().complement().unwrap(), Bps::one());
}

#[test]
fn rounding_is_nearest_and_symmetric_in_sign() {
    assert_eq!(div_round_half_away(7, 2, "t").unwrap(), 4);
    assert_eq!(div_round_half_away(-7, 2, "t").unwrap(), -4);
    assert_eq!(div_round_half_away(10, 4, "t").unwrap(), 3);
    assert_eq!(div_round_half_away(9, 4, "t").unwrap(), 2);
    assert_eq!(div_round_half_away(-9, 4, "t").unwrap(), -2);
    assert_eq!(div_round_half_away(0, -4, "t").unwrap(), 0);
    assert_eq!(div_round_half_away(300, 100, "t").unwrap(), 3);
}

#[test]
fn text_forms_cover_sign_padding_and_large_values() {
    assert_eq!(usd(0).to_string(), "0.00 USD");
    assert_eq!(usd(7).to_string(), "0.07 USD");
    assert_eq!(usd(-123_456).to_string(), "-1234.56 USD");
    assert_eq!(
        Money::from_minor(i64::MIN, Currency::Eur).to_string(),
        "-92233720368547758.08 EUR"
    );
    assert_eq!(Bps::from_raw(-5).to_string(), "-0.05%");
    assert_eq!(Bps::from_raw(10_000).to_string(), "100.00%");
}

#[test]
fn money_errors_read_as_messages() {
    assert_eq!(
        MoneyError::Overflow { op: "add" }.to_string(),
        "money arithmetic overflowed: add"
    );
    assert_eq!(
        MoneyError::CurrencyMismatch {
            lhs: Currency::Usd,
            rhs: Currency::Eur
        }
        .to_string(),
        "currency mismatch: USD vs EUR"
    );
    assert_eq!(
        MoneyError::DivideByZero { op: "div_int" }.to_string(),
        "division by zero: div_int"
    );
    assert_eq!(
        MoneyError::NonPositive {
            field: "ratio_to base",
            value: -12
        }
        .to_string(),
        "expected a positive value for ratio_to base, got -12"
    );
}
