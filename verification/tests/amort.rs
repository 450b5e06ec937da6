use velt::amort::{
    annual_debt_service, monthly_payment, payment_is_defined, principal_from_ltv, remaining_balance,
    usd_zero,
};
use velt::money::{Bps, Currency, Money, MoneyError};

fn usd(minor: i64) -> Money {
    Money::from_minor(minor, Currency::Usd)
}

/// $250,000.00 at 7.00% nominal, 360 months -> $1,663.26/mo.
#[test]
fn payment_matches_hand_verified_thirty_year_fixed() {
    let payment = monthly_payment(usd(25_000_000), Bps::from_raw(700), 360).unwrap();
    assert_eq!(payment, usd(166_326), "got {}", payment.to_string());
}

/// $400,000.00 at 6.50% nominal, 360 months -> $2,528.27/mo.
#[test]
fn payment_matches_hand_verified_second_case() {
    let payment = monthly_payment(usd(40_000_000), Bps::from_raw(650), 360).unwrap();
    assert_eq!(payment, usd(252_827), "got {}", payment.to_string());
}

/// $100,000.00 at 5.00% nominal, 180 months -> $790.79/mo.
#[test]
fn payment_matches_hand_verified_fifteen_year() {
    let payment = monthly_payment(usd(10_000_000), Bps::from_raw(500), 180).unwrap();
    assert_eq!(payment, usd(79_079), "got {}", payment.to_string());
}

#[test]
fn zero_rate_is_straight_line_not_a_division_by_zero() {
    let payment = monthly_payment(usd(1_200_000), Bps::zero(), 12).unwrap();
    assert_eq!(payment, usd(100_000));
}

#[test]
fn zero_principal_pays_nothing() {
    assert_eq!(
        monthly_payment(usd(0), Bps::from_raw(700), 360).unwrap(),
        usd(0)
    );
}

#[test]
fn zero_term_is_rejected() {
    assert!(monthly_payment(usd(1_000), Bps::from_raw(700), 0).is_err());
}

#[test]
fn balance_at_origination_is_the_full_principal() {
    let bal = remaining_balance(usd(25_000_000), Bps::from_raw(700), 360, 0).unwrap();
    assert_eq!(bal, usd(25_000_000));
}

#[test]
fn balance_at_maturity_is_zero() {
    let bal = remaining_balance(usd(25_000_000), Bps::from_raw(700), 360, 360).unwrap();
    assert_eq!(bal, usd(0));
}

/// $250k / 7% / 360mo after 60 payments -> $235,328.71 remaining.
#[test]
fn balance_after_five_years_is_barely_paid_down() {
    let bal = remaining_balance(usd(25_000_000), Bps::from_raw(700), 360, 60).unwrap();
    assert_eq!(bal, usd(23_532_871), "got {}", bal.to_string());
}

#[test]
fn ltv_splits_price_into_down_payment_and_principal() {
    // 20% down on $300,000 -> $240,000 borrowed.
    let principal = principal_from_ltv(usd(30_000_000), Bps::from_raw(2_000)).unwrap();
    assert_eq!(principal, usd(24_000_000));
}

#[test]
fn annual_debt_service_is_twelve_payments() {
    let annual = annual_debt_service(usd(25_000_000), Bps::from_raw(700), 360).unwrap();
    assert_eq!(annual, usd(166_326 * 12));
}

#[test]
fn a_higher_rate_always_costs_more() {
    let low = monthly_payment(usd(25_000_000), Bps::from_raw(500), 360).unwrap();
    let high = monthly_payment(usd(25_000_000), Bps::from_raw(700), 360).unwrap();
    assert!(high.minor() > low.minor());
}

#[test]
fn a_billion_dollar_loan_does_not_overflow() {
    let payment = monthly_payment(usd(100_000_000_000), Bps::from_raw(700), 360).unwrap();
    assert!(payment.is_positive());
}

// ---- further cases ----

#[test]
fn the_zero_term_error_names_the_term() {
    assert_eq!(
        monthly_payment(usd(1_000), Bps::from_raw(700), 0),
        Err(MoneyError::NonPositive {
            field: "term_months",
            value: 0
        })
    );
}

#[test]
fn the_payment_rounding_is_defined_for_ordinary_loans() {
    assert!(payment_is_defined(usd(25_000_000), Bps::from_raw(700), 360));
    assert!(payment_is_defined(usd(0), Bps::zero(), 1));
}

#[test]
fn a_zero_rate_balance_falls_in_a_straight_line() {
    let bal = remaining_balance(usd(1_200_000), Bps::zero(), 12, 3).unwrap();
    assert_eq!(bal, usd(900_000));
}

#[test]
fn a_full_down_payment_borrows_nothing() {
    assert_eq!(
        principal_from_ltv(usd(30_000_000), Bps::one()).unwrap(),
        usd(0)
    );
    assert_eq!(usd_zero(), usd(0));
    assert_eq!(usd_zero().currency(), Currency::Usd);
}

#[test]
fn a_zero_principal_has_no_debt_service() {
    assert_eq!(
        annual_debt_service(usd(0), Bps::from_raw(725), 360).unwrap(),
        usd(0)
    );
}

#[test]
fn any_interest_costs_at_least_the_straight_line_payment() {
    let straight = monthly_payment(usd(1_200_000), Bps::zero(), 12).unwrap();
    let one_bp = monthly_payment(usd(1_200_000), Bps::from_raw(1), 12).unwrap();
    assert!(straight.minor() <= one_bp.minor());
}

#[test]
fn payments_rise_with_the_rate_one_basis_point_at_a_time() {
    let mut previous = monthly_payment(usd(25_000_000), Bps::zero(), 360).unwrap();
    let mut bps: i64 = 1;
    while bps <= 2_000 {
        let p = monthly_payment(usd(25_000_000), Bps::from_raw(bps), 360).unwrap();
        assert!(previous.minor() <= p.minor(), "fell at {bps} bp");
        previous = p;
        bps += 37;
    }
}
