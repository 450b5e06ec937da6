use velt::api::{health, operator_traced, post_underwrite, AppState, UnderwriteRequest};
use velt::engine::{DealInputs, ExpenseInputs, IncomeInputs, UnderwriteInputs};
use velt::money::{Bps, Currency, Money};

fn usd(minor: i64) -> Money {
    Money::from_minor(minor, Currency::Usd)
}

fn inputs() -> UnderwriteInputs {
    UnderwriteInputs {
        income: IncomeInputs {
            monthly_scheduled_rent: usd(185_000),
            other_annual_income: usd(0),
            vacancy_rate: Bps::from_raw(700),
        },
        expenses: ExpenseInputs {
            annual_property_tax: usd(320_000),
            annual_insurance: usd(145_000),
            annual_hoa: usd(10_000),
            annual_utilities: usd(20_000),
            annual_other_fixed: usd(30_000),
            management_rate: Bps::from_raw(800),
            maintenance_rate: Bps::from_raw(500),
            capex_reserve_rate: Bps::from_raw(500),
        },
        deal: DealInputs {
            purchase_price: usd(21_500_000),
            closing_costs: usd(645_000),
            rehab_budget: usd(1_200_000),
            down_payment_rate: Bps::from_raw(2_500),
            interest_rate: Bps::from_raw(725),
            term_months: 360,
        },
    }
}

#[test]
fn health_reports_ok_and_the_engine_version() {
    let h = health(&AppState {
        engine_version: "0.1.0",
    });
    assert_eq!(h.status, "ok");
    assert_eq!(h.engine_version, "0.1.0");
}

#[test]
fn operator_entries_become_leaves_under_their_field_names() {
    let t = operator_traced(&inputs());
    assert_eq!(t.fixed_other.value, usd(60_000));
    assert_eq!(t.monthly_rent.trace.render(), "monthly_scheduled_rent  <- input:monthly_scheduled_rent\n");
    assert_eq!(t.term_months.value, 360);
    assert_eq!(t.reserve_rate.trace.label(), "capex_reserve_rate");
    assert!(t.purchase_price.trace.external_sources().is_empty());
}

#[test]
fn a_failing_fixed_cost_sum_counts_as_zero() {
    let mut i = inputs();
    i.expenses.annual_utilities = Money::from_minor(20_000, Currency::Cad);
    let t = operator_traced(&i);
    assert_eq!(t.fixed_other.value, usd(0));
}

#[test]
fn an_accepted_underwrite_is_answered_with_its_figures() {
    let req = UnderwriteRequest { inputs: inputs() };
    let u = post_underwrite(&req).unwrap().unwrap();
    // 60_000 of fixed costs more than the hand-verified fixture.
    assert_eq!(u.net_operating_income.value, usd(1_227_972 - 60_000));
}

#[test]
fn a_rejected_underwrite_is_answered_with_its_field_and_message() {
    let mut i = inputs();
    i.deal.purchase_price = usd(0);
    let body = post_underwrite(&UnderwriteRequest { inputs: i })
        .unwrap()
        .unwrap_err();
    assert_eq!(body.code, "purchase_price");
    assert_eq!(body.detail, "invalid input for purchase_price: must be greater than zero");

    let mut i = inputs();
    i.expenses.annual_insurance = Money::from_minor(1, Currency::Eur);
    let body = post_underwrite(&UnderwriteRequest { inputs: i })
        .unwrap()
        .unwrap_err();
    assert_eq!(body.code, "arithmetic");
    assert_eq!(body.detail, "currency mismatch: USD vs EUR");
}
