//! The pure underwriting engine.
//!
//! No I/O, no clock, no randomness: the same inputs always produce the same
//! outputs, including the same provenance tree. Every figure is returned as a
//! [`Traced`] value.
//!
//! ```text
//! GPR   = scheduled rent x 12                  gross potential rent
//! EGI   = GPR x (1 - vacancy) + other income   effective gross income
//! OpEx  = taxes + insurance + mgmt + maint + reserves + utilities + hoa
//! NOI   = EGI - OpEx                           net operating income
//! ADS   = amortized payment x 12               annual debt service
//! CFBT  = NOI - ADS                            cash flow before tax
//! ```
//!
//! Management, maintenance and reserves are rates against EGI rather than
//! fixed amounts, because that is how they are quoted and how they scale with
//! the rent roll.

use crate::amort::{
    lemma_loan_in_price_currency, lemma_payment_in_loan_currency, annual_debt_service, annual_debt_service_spec, payment_defined, payment_is_defined, principal_from_ltv,
    principal_from_ltv_spec, MONTHS_PER_YEAR,
};
use crate::money::{
    lemma_arithmetic_keeps_currency, lemma_sum_keeps_currency, lemma_round_half_away_is_nearest, lemma_round_half_away_monotone, lemma_sum_onto_total, minor_total, round_half_away,
    group_money, lemma_apply_full_rate_is_identity, money_error_text, lemma_bps_ext, lemma_ratio_non_increasing_in_base, money_add, money_apply, money_mul_int, money_ratio_to, money_sub, money_sum_onto,
    Bps, Currency, Money, MoneyError,
};
use crate::provenance::{
    depth_spec, is_derived, lemma_derived_is_not_a_leaf_forall, lemma_derived_same_tree, lemma_derived_sources_forall,
    lemma_same_tree_refl, node_of, same_tree, sources_spec, Trace, Traced,
};
use std::sync::Arc;
use vstd::prelude::*;

verus! {

broadcast use group_money;

/// Errors produced by the engine.
#[derive(Debug, Clone, PartialEq, Eq)]
pub enum EngineError {
    /// Underlying money arithmetic failed.
    Money(MoneyError),
    /// An input violated a modelling precondition.
    InvalidInput {
        /// The offending field.
        field: &'static str,
        /// Why it is invalid.
        detail: &'static str,
    },
}

/// The message of an engine error; a money error keeps its own message.
pub open spec fn engine_error_text(e: EngineError) -> Seq<char> {
    match e {
        EngineError::Money(m) => money_error_text(m),
        EngineError::InvalidInput { field, detail } => "invalid input for "@ + field@ + ": "@
            + detail@,
    }
}

impl EngineError {
    /// The error as a human-readable message.
    pub fn to_string(&self) -> (r: String)
        ensures
            r@ == engine_error_text(*self),
    {
        match self {
            EngineError::Money(m) => m.to_string(),
            EngineError::InvalidInput { field, detail } => {
                let mut buf = String::new();
                buf.append("invalid input for ");
                buf.append(field);
                buf.append(": ");
                buf.append(detail);
                proof {
                    assert(buf@ =~= engine_error_text(*self));
                }
                buf
            },
        }
    }
}

/// The rent roll and income assumptions for a property.
#[derive(Debug, Clone, PartialEq, Eq)]
pub struct IncomeInputs {
    /// Monthly scheduled rent across all units. For a voucher-eligible
    /// underwrite this is the HUD Fair Market Rent for the unit mix.
    pub monthly_scheduled_rent: Money,
    /// Annual income from sources other than rent (laundry, parking, storage).
    pub other_annual_income: Money,
    /// Economic vacancy, as a rate, including credit loss.
    pub vacancy_rate: Bps,
}

/// The operating expense assumptions for a property.
///
/// Rate-based expenses are applied to effective gross income, not to gross
/// potential rent: no management fee is paid on rent that was not collected.
#[derive(Debug, Clone, PartialEq, Eq)]
pub struct ExpenseInputs {
    /// Annual property tax.
    pub annual_property_tax: Money,
    /// Annual hazard and liability insurance.
    pub annual_insurance: Money,
    /// Annual HOA or condo fees.
    pub annual_hoa: Money,
    /// Annual owner-paid utilities.
    pub annual_utilities: Money,
    /// Other fixed annual operating costs.
    pub annual_other_fixed: Money,
    /// Property management fee, as a rate on EGI.
    pub management_rate: Bps,
    /// Repairs and maintenance, as a rate on EGI.
    pub maintenance_rate: Bps,
    /// Capital reserves, as a rate on EGI.
    pub capex_reserve_rate: Bps,
}

/// Acquisition and financing terms.
#[derive(Debug, Clone, PartialEq, Eq)]
pub struct DealInputs {
    /// Contract purchase price.
    pub purchase_price: Money,
    /// Closing costs paid at acquisition.
    pub closing_costs: Money,
    /// Rehab or capital improvement budget funded at acquisition.
    pub rehab_budget: Money,
    /// Down payment, as a rate on purchase price.
    pub down_payment_rate: Bps,
    /// Annual nominal interest rate.
    pub interest_rate: Bps,
    /// Amortization term in months.
    pub term_months: u32,
}

/// The full input set for an underwrite.
#[derive(Debug, Clone, PartialEq, Eq)]
pub struct UnderwriteInputs {
    /// Income side.
    pub income: IncomeInputs,
    /// Expense side.
    pub expenses: ExpenseInputs,
    /// Acquisition and debt.
    pub deal: DealInputs,
}

impl UnderwriteInputs {
    /// The currency this underwrite is denominated in: that of the price.
    pub fn currency(&self) -> (r: Currency)
        ensures
            r == self.deal.purchase_price.currency(),
    {
        self.deal.purchase_price.currency()
    }
}

/// A completed underwrite. Every field carries its derivation.
#[derive(Debug, Clone, PartialEq, Eq)]
pub struct Underwrite {
    /// Gross potential rent (annual).
    pub gross_potential_rent: Traced<Money>,
    /// Vacancy and credit loss (annual).
    pub vacancy_loss: Traced<Money>,
    /// Effective gross income (annual).
    pub effective_gross_income: Traced<Money>,
    /// Total operating expenses (annual).
    pub operating_expenses: Traced<Money>,
    /// Net operating income (annual).
    pub net_operating_income: Traced<Money>,
    /// Annual debt service.
    pub annual_debt_service: Traced<Money>,
    /// Cash flow before tax (annual).
    pub cash_flow_before_tax: Traced<Money>,
    /// Total cash required to close.
    pub total_cash_invested: Traced<Money>,
    /// Loan principal.
    pub loan_amount: Traced<Money>,
    /// Going-in capitalization rate: NOI / purchase price.
    pub cap_rate: Traced<Bps>,
    /// Debt service coverage ratio, in basis points (12 500 == 1.25x).
    pub dscr: Traced<Bps>,
    /// Cash-on-cash return: CFBT / total cash invested.
    pub cash_on_cash: Traced<Bps>,
    /// Operating expense ratio: OpEx / EGI.
    pub expense_ratio: Traced<Bps>,
    /// Gross rent multiplier, in basis points (price / GPR).
    pub gross_rent_multiplier: Traced<Bps>,
    /// Break-even occupancy: the occupancy at which CFBT reaches zero.
    pub break_even_occupancy: Traced<Bps>,
}

/// The traced leaves for an underwrite.
///
/// Inputs arrive already traced, from a connector datum for external data or
/// from operator entry, so the engine never invents an origin.
#[derive(Debug, Clone)]
pub struct TracedInputs {
    /// Monthly scheduled rent (typically HUD FMR).
    pub monthly_rent: Traced<Money>,
    /// Other annual income.
    pub other_income: Traced<Money>,
    /// Vacancy rate.
    pub vacancy_rate: Traced<Bps>,
    /// Annual property tax.
    pub property_tax: Traced<Money>,
    /// Annual insurance.
    pub insurance: Traced<Money>,
    /// Aggregated fixed other expenses (HOA, utilities, other).
    pub fixed_other: Traced<Money>,
    /// Management rate.
    pub management_rate: Traced<Bps>,
    /// Maintenance rate.
    pub maintenance_rate: Traced<Bps>,
    /// Capital reserve rate.
    pub reserve_rate: Traced<Bps>,
    /// Purchase price.
    pub purchase_price: Traced<Money>,
    /// Closing costs.
    pub closing_costs: Traced<Money>,
    /// Rehab budget.
    pub rehab_budget: Traced<Money>,
    /// Down payment rate.
    pub down_payment_rate: Traced<Bps>,
    /// Interest rate.
    pub interest_rate: Traced<Bps>,
    /// Term in months.
    pub term_months: Traced<u32>,
}

/// The numeric figures of an underwrite, without their traces.
pub struct Figures {
    /// Gross potential rent.
    pub gpr: Money,
    /// Vacancy and credit loss.
    pub vacancy: Money,
    /// Effective gross income.
    pub egi: Money,
    /// Operating expenses.
    pub opex: Money,
    /// Net operating income.
    pub noi: Money,
    /// Annual debt service.
    pub ads: Money,
    /// Cash flow before tax.
    pub cfbt: Money,
    /// Total cash invested.
    pub cash: Money,
    /// Loan principal.
    pub loan: Money,
    /// Cap rate.
    pub cap: Bps,
    /// Debt service coverage ratio.
    pub dscr: Bps,
    /// Cash-on-cash return.
    pub coc: Bps,
    /// Operating expense ratio.
    pub expense_ratio: Bps,
    /// Gross rent multiplier.
    pub grm: Bps,
    /// Break-even occupancy.
    pub break_even: Bps,
}

/// A money failure as an engine failure.
pub open spec fn lift<A>(r: Result<A, MoneyError>) -> Result<A, EngineError> {
    match r {
        Ok(a) => Ok(a),
        Err(e) => Err(EngineError::Money(e)),
    }
}

/// The input checks, in order: a positive price and a vacancy in `[0%, 100%)`.
pub open spec fn validation_error(i: UnderwriteInputs) -> Option<EngineError> {
    if i.deal.purchase_price.minor() <= 0 {
        Some(EngineError::InvalidInput { field: "purchase_price", detail: "must be greater than zero" })
    } else if i.income.vacancy_rate.raw() < 0 || i.income.vacancy_rate.raw() >= Bps::SCALE {
        Some(EngineError::InvalidInput { field: "vacancy_rate", detail: "must be in [0%, 100%)" })
    } else {
        None
    }
}

/// Gross potential rent, vacancy loss and effective gross income.
pub open spec fn income_figures(i: UnderwriteInputs) -> Result<(Money, Money, Money), EngineError> {
    match lift(money_mul_int(i.income.monthly_scheduled_rent, MONTHS_PER_YEAR)) {
        Err(e) => Err(e),
        Ok(gpr) => match lift(money_apply(gpr, i.income.vacancy_rate)) {
            Err(e) => Err(e),
            Ok(vacancy) => match lift(money_sub(gpr, vacancy)) {
                Err(e) => Err(e),
                Ok(collected) => match lift(money_add(collected, i.income.other_annual_income)) {
                    Err(e) => Err(e),
                    Ok(egi) => Ok((gpr, vacancy, egi)),
                },
            },
        },
    }
}

/// Operating expenses: the fixed costs, then management, maintenance and
/// reserves as rates on EGI, summed in that order from zero in `currency`.
pub open spec fn opex_figure(i: UnderwriteInputs, egi: Money) -> Result<Money, EngineError> {
    match lift(money_apply(egi, i.expenses.management_rate)) {
        Err(e) => Err(e),
        Ok(management) => match lift(money_apply(egi, i.expenses.maintenance_rate)) {
            Err(e) => Err(e),
            Ok(maintenance) => match lift(money_apply(egi, i.expenses.capex_reserve_rate)) {
                Err(e) => Err(e),
                Ok(reserves) => lift(
                    money_sum_onto(
                        seq![
                            i.expenses.annual_property_tax,
                            i.expenses.annual_insurance,
                            i.expenses.annual_hoa,
                            i.expenses.annual_utilities,
                            i.expenses.annual_other_fixed,
                            management,
                            maintenance,
                            reserves,
                        ],
                        Money::from_minor(0, i.deal.purchase_price.currency()),
                    ),
                ),
            },
        },
    }
}

/// Total cash invested: down payment, closing costs and rehab budget.
pub open spec fn cash_figure(i: UnderwriteInputs) -> Result<Money, EngineError> {
    match lift(money_apply(i.deal.purchase_price, i.deal.down_payment_rate)) {
        Err(e) => Err(e),
        Ok(down) => lift(
            money_sum_onto(
                seq![down, i.deal.closing_costs, i.deal.rehab_budget],
                Money::from_minor(0, i.deal.purchase_price.currency()),
            ),
        ),
    }
}

/// The figures up to net operating income: `(gpr, vacancy, egi, opex, noi)`.
pub open spec fn operating_figures(i: UnderwriteInputs) -> Result<
    (Money, Money, Money, Money, Money),
    EngineError,
> {
    match validation_error(i) {
        Some(e) => Err(e),
        None => match income_figures(i) {
            Err(e) => Err(e),
            Ok((gpr, vacancy, egi)) => match opex_figure(i, egi) {
                Err(e) => Err(e),
                Ok(opex) => match lift(money_sub(egi, opex)) {
                    Err(e) => Err(e),
                    Ok(noi) => Ok((gpr, vacancy, egi, opex, noi)),
                },
            },
        },
    }
}

/// The sentinel coverage reported when there is no debt: coverage is
/// undefined rather than infinite, and zero would read as failing coverage.
pub open spec fn undefined_coverage() -> Bps {
    Bps::from_raw(i64::MAX)
}

/// Debt service coverage: NOI over debt service, or the sentinel without debt.
pub open spec fn dscr_figure(noi: Money, ads: Money) -> Result<Bps, EngineError> {
    if ads.minor() > 0 { lift(money_ratio_to(noi, ads)) } else { Ok(undefined_coverage()) }
}

/// Cash-on-cash return; refused when no cash is invested.
pub open spec fn coc_figure(cfbt: Money, cash: Money) -> Result<Bps, EngineError> {
    if cash.minor() > 0 {
        lift(money_ratio_to(cfbt, cash))
    } else {
        Err(
            EngineError::InvalidInput {
                field: "total_cash_invested",
                detail: "must be greater than zero to compute cash-on-cash",
            },
        )
    }
}

/// Expense ratio, zero when there is no effective income.
pub open spec fn expense_ratio_figure(opex: Money, egi: Money) -> Result<Bps, EngineError> {
    if egi.minor() > 0 { lift(money_ratio_to(opex, egi)) } else { Ok(Bps::from_raw(0)) }
}

/// Gross rent multiplier, zero when there is no potential rent.
pub open spec fn grm_figure(price: Money, gpr: Money) -> Result<Bps, EngineError> {
    if gpr.minor() > 0 { lift(money_ratio_to(price, gpr)) } else { Ok(Bps::from_raw(0)) }
}

/// Break-even occupancy `(OpEx + ADS) / GPR`, zero when there is no potential rent.
pub open spec fn break_even_figure(opex: Money, ads: Money, gpr: Money) -> Result<Bps, EngineError> {
    if gpr.minor() > 0 {
        match lift(money_add(opex, ads)) {
            Err(e) => Err(e),
            Ok(outflow) => lift(money_ratio_to(outflow, gpr)),
        }
    } else {
        Ok(Bps::from_raw(0))
    }
}

/// The loan amount, when the computation reaches it.
pub open spec fn loan_reached(i: UnderwriteInputs) -> Option<Money> {
    match operating_figures(i) {
        Err(_) => None,
        Ok(_) => match principal_from_ltv_spec(i.deal.purchase_price, i.deal.down_payment_rate) {
            Ok(loan) => Some(loan),
            Err(_) => None,
        },
    }
}

/// The amortized payment's rounding is defined for the loan the
/// computation reaches.
pub open spec fn underwrite_defined(i: UnderwriteInputs) -> bool {
    match loan_reached(i) {
        Some(loan) => payment_defined(loan, i.deal.interest_rate, i.deal.term_months),
        None => true,
    }
}

/// The outcome of an underwrite's arithmetic, in the order it is computed.
pub open spec fn underwrite_figures(i: UnderwriteInputs) -> Result<Figures, EngineError> {
    let price = i.deal.purchase_price;
    match operating_figures(i) {
        Err(e) => Err(e),
        Ok((gpr, vacancy, egi, opex, noi)) => match lift(
            principal_from_ltv_spec(price, i.deal.down_payment_rate),
        ) {
            Err(e) => Err(e),
            Ok(loan) => match lift(
                annual_debt_service_spec(loan, i.deal.interest_rate, i.deal.term_months),
            ) {
                Err(e) => Err(e),
                Ok(ads) => match lift(money_sub(noi, ads)) {
                    Err(e) => Err(e),
                    Ok(cfbt) => match cash_figure(i) {
                        Err(e) => Err(e),
                        Ok(cash) => match lift(money_ratio_to(noi, price)) {
                            Err(e) => Err(e),
                            Ok(cap) => match dscr_figure(noi, ads) {
                                Err(e) => Err(e),
                                Ok(dscr) => match coc_figure(cfbt, cash) {
                                    Err(e) => Err(e),
                                    Ok(coc) => match expense_ratio_figure(opex, egi) {
                                        Err(e) => Err(e),
                                        Ok(expense_ratio) => match grm_figure(price, gpr) {
                                            Err(e) => Err(e),
                                            Ok(grm) => match break_even_figure(opex, ads, gpr) {
                                                Err(e) => Err(e),
                                                Ok(break_even) => Ok(
                                                    Figures {
                                                        gpr,
                                                        vacancy,
                                                        egi,
                                                        opex,
                                                        noi,
                                                        ads,
                                                        cfbt,
                                                        cash,
                                                        loan,
                                                        cap,
                                                        dscr,
                                                        coc,
                                                        expense_ratio,
                                                        grm,
                                                        break_even,
                                                    },
                                                ),
                                            },
                                        },
                                    },
                                },
                            },
                        },
                    },
                },
            },
        },
    }
}

/// The figures carried by an underwrite.
pub open spec fn figures_of(u: Underwrite) -> Figures {
    Figures {
        gpr: u.gross_potential_rent.value,
        vacancy: u.vacancy_loss.value,
        egi: u.effective_gross_income.value,
        opex: u.operating_expenses.value,
        noi: u.net_operating_income.value,
        ads: u.annual_debt_service.value,
        cfbt: u.cash_flow_before_tax.value,
        cash: u.total_cash_invested.value,
        loan: u.loan_amount.value,
        cap: u.cap_rate.value,
        dscr: u.dscr.value,
        coc: u.cash_on_cash.value,
        expense_ratio: u.expense_ratio.value,
        grm: u.gross_rent_multiplier.value,
        break_even: u.break_even_occupancy.value,
    }
}

/// The traces that operating expenses are derived from, in order.
pub open spec fn opex_inputs(u: Underwrite, t: TracedInputs) -> Seq<Trace> {
    seq![*t.property_tax.trace, *t.insurance.trace, *t.fixed_other.trace,
        *u.effective_gross_income.trace, *t.management_rate.trace, *t.maintenance_rate.trace,
        *t.reserve_rate.trace]
}

/// Every figure of `u` is a derived node over exactly the traces it was
/// computed from, in argument order, with its display label and operation.
pub open spec fn underwrite_traces(u: Underwrite, t: TracedInputs) -> bool {
    &&& is_derived(*u.gross_potential_rent.trace, "Gross potential rent"@, "gpr"@, seq![*t.monthly_rent.trace])
    &&& is_derived(*u.vacancy_loss.trace, "Vacancy & credit loss"@, "vacancy_loss"@,
        seq![*u.gross_potential_rent.trace, *t.vacancy_rate.trace])
    &&& is_derived(*u.effective_gross_income.trace, "Effective gross income"@, "egi"@,
        seq![*u.gross_potential_rent.trace, *u.vacancy_loss.trace, *t.other_income.trace])
    &&& is_derived(*u.operating_expenses.trace, "Operating expenses"@, "opex"@, opex_inputs(u, t))
    &&& is_derived(*u.net_operating_income.trace, "Net operating income"@, "noi"@,
        seq![*u.effective_gross_income.trace, *u.operating_expenses.trace])
    &&& is_derived(*u.loan_amount.trace, "Loan amount"@, "loan"@,
        seq![*t.purchase_price.trace, *t.down_payment_rate.trace])
    &&& is_derived(*u.annual_debt_service.trace, "Annual debt service"@, "ads"@,
        seq![*u.loan_amount.trace, *t.interest_rate.trace, *t.term_months.trace])
    &&& is_derived(*u.cash_flow_before_tax.trace, "Cash flow before tax"@, "cfbt"@,
        seq![*u.net_operating_income.trace, *u.annual_debt_service.trace])
    &&& is_derived(*u.total_cash_invested.trace, "Total cash invested"@, "cash_invested"@,
        seq![*t.purchase_price.trace, *t.down_payment_rate.trace, *t.closing_costs.trace,
            *t.rehab_budget.trace])
    &&& is_derived(*u.cap_rate.trace, "Cap rate"@, "cap_rate"@,
        seq![*u.net_operating_income.trace, *t.purchase_price.trace])
    &&& is_derived(*u.dscr.trace, "DSCR"@, "dscr"@,
        seq![*u.net_operating_income.trace, *u.annual_debt_service.trace])
    &&& is_derived(*u.cash_on_cash.trace, "Cash-on-cash"@, "coc"@,
        seq![*u.cash_flow_before_tax.trace, *u.total_cash_invested.trace])
    &&& is_derived(*u.expense_ratio.trace, "Expense ratio"@, "expense_ratio"@,
        seq![*u.operating_expenses.trace, *u.effective_gross_income.trace])
    &&& is_derived(*u.gross_rent_multiplier.trace, "Gross rent multiplier"@, "grm"@,
        seq![*t.purchase_price.trace, *u.gross_potential_rent.trace])
    &&& is_derived(*u.break_even_occupancy.trace, "Break-even occupancy"@, "break_even"@,
        seq![*u.operating_expenses.trace, *u.annual_debt_service.trace,
            *u.gross_potential_rent.trace])
}

/// The validated operating figures `(gpr, vacancy, egi, opex, noi)`.
fn operating_values(inputs: &UnderwriteInputs) -> (r: Result<
    (Money, Money, Money, Money, Money),
    EngineError,
>)
    ensures
        r == operating_figures(*inputs),
{
    let currency = inputs.currency();

    if !inputs.deal.purchase_price.is_positive() {
        return Err(
            EngineError::InvalidInput {
                field: "purchase_price",
                detail: "must be greater than zero",
            },
        );
    }
    if inputs.income.vacancy_rate.raw() < 0 || inputs.income.vacancy_rate.raw() >= Bps::SCALE {
        return Err(
            EngineError::InvalidInput { field: "vacancy_rate", detail: "must be in [0%, 100%)" },
        );
    }

    let gpr_value = match inputs.income.monthly_scheduled_rent.mul_int(MONTHS_PER_YEAR) {
        Ok(v) => v,
        Err(e) => {
            return Err(EngineError::Money(e));
        },
    };
    let vacancy_value = match gpr_value.apply(inputs.income.vacancy_rate) {
        Ok(v) => v,
        Err(e) => {
            return Err(EngineError::Money(e));
        },
    };
    let collected = match gpr_value.sub(vacancy_value) {
        Ok(v) => v,
        Err(e) => {
            return Err(EngineError::Money(e));
        },
    };
    let egi_value = match collected.add(inputs.income.other_annual_income) {
        Ok(v) => v,
        Err(e) => {
            return Err(EngineError::Money(e));
        },
    };

    // Rate-based expenses bill against collected income.
    let management = match egi_value.apply(inputs.expenses.management_rate) {
        Ok(v) => v,
        Err(e) => {
            return Err(EngineError::Money(e));
        },
    };
    let maintenance = match egi_value.apply(inputs.expenses.maintenance_rate) {
        Ok(v) => v,
        Err(e) => {
            return Err(EngineError::Money(e));
        },
    };
    let reserves = match egi_value.apply(inputs.expenses.capex_reserve_rate) {
        Ok(v) => v,
        Err(e) => {
            return Err(EngineError::Money(e));
        },
    };
    let opex_value = match Money::sum(
        vec![
            inputs.expenses.annual_property_tax,
            inputs.expenses.annual_insurance,
            inputs.expenses.annual_hoa,
            inputs.expenses.annual_utilities,
            inputs.expenses.annual_other_fixed,
            management,
            maintenance,
            reserves,
        ],
        currency,
    ) {
        Ok(v) => v,
        Err(e) => {
            return Err(EngineError::Money(e));
        },
    };

    // NOI
    let noi_value = match egi_value.sub(opex_value) {
        Ok(v) => v,
        Err(e) => {
            return Err(EngineError::Money(e));
        },
    };
    Ok((gpr_value, vacancy_value, egi_value, opex_value, noi_value))
}

/// Run a full underwrite.
///
/// Pure: the same inputs always produce the same outputs, including the same
/// provenance tree. Fails with [`EngineError::InvalidInput`] when an input
/// violates a modelling precondition, or [`EngineError::Money`] on overflow
/// or currency mismatch, at the first step that fails.
#[verifier::rlimit(60)]
pub fn underwrite(inputs: &UnderwriteInputs, traced: &TracedInputs) -> (r: Result<
    Underwrite,
    EngineError,
>)
    requires
        underwrite_defined(*inputs),
    ensures
        match r {
            Ok(u) => underwrite_figures(*inputs) == Ok::<Figures, EngineError>(figures_of(u))
                && underwrite_traces(u, *traced),
            Err(e) => underwrite_figures(*inputs) == Err::<Figures, EngineError>(e),
        },
{
    let currency = inputs.currency();
    let (gpr_value, vacancy_value, egi_value, opex_value, noi_value) = operating_values(inputs)?;

    let gross_potential_rent = crate::provenance::derive(
        "Gross potential rent",
        "gpr",
        &[&traced.monthly_rent.trace],
        gpr_value,
    );
    let vacancy_loss = crate::provenance::derive(
        "Vacancy & credit loss",
        "vacancy_loss",
        &[&gross_potential_rent.trace, &traced.vacancy_rate.trace],
        vacancy_value,
    );
    let effective_gross_income = crate::provenance::derive(
        "Effective gross income",
        "egi",
        &[&gross_potential_rent.trace, &vacancy_loss.trace, &traced.other_income.trace],
        egi_value,
    );
    let operating_expenses = crate::provenance::derive(
        "Operating expenses",
        "opex",
        &[
            &traced.property_tax.trace,
            &traced.insurance.trace,
            &traced.fixed_other.trace,
            &effective_gross_income.trace,
            &traced.management_rate.trace,
            &traced.maintenance_rate.trace,
            &traced.reserve_rate.trace,
        ],
        opex_value,
    );
    let net_operating_income = crate::provenance::derive(
        "Net operating income",
        "noi",
        &[&effective_gross_income.trace, &operating_expenses.trace],
        noi_value,
    );

    // Debt
    let loan_value = match principal_from_ltv(inputs.deal.purchase_price, inputs.deal.down_payment_rate) {
        Ok(v) => v,
        Err(e) => {
            return Err(EngineError::Money(e));
        },
    };
    let loan_amount = crate::provenance::derive(
        "Loan amount",
        "loan",
        &[&traced.purchase_price.trace, &traced.down_payment_rate.trace],
        loan_value,
    );
    let ads_value = match annual_debt_service(loan_value, inputs.deal.interest_rate, inputs.deal.term_months) {
        Ok(v) => v,
        Err(e) => {
            return Err(EngineError::Money(e));
        },
    };
    let annual_debt_service = crate::provenance::derive(
        "Annual debt service",
        "ads",
        &[&loan_amount.trace, &traced.interest_rate.trace, &traced.term_months.trace],
        ads_value,
    );
    let cfbt_value = match noi_value.sub(ads_value) {
        Ok(v) => v,
        Err(e) => {
            return Err(EngineError::Money(e));
        },
    };
    let cash_flow_before_tax = crate::provenance::derive(
        "Cash flow before tax",
        "cfbt",
        &[&net_operating_income.trace, &annual_debt_service.trace],
        cfbt_value,
    );

    // Basis
    let down_payment = match inputs.deal.purchase_price.apply(inputs.deal.down_payment_rate) {
        Ok(v) => v,
        Err(e) => {
            return Err(EngineError::Money(e));
        },
    };
    let cash_value = match Money::sum(vec![down_payment, inputs.deal.closing_costs, inputs.deal.rehab_budget], currency) {
        Ok(v) => v,
        Err(e) => {
            return Err(EngineError::Money(e));
        },
    };
    let total_cash_invested = crate::provenance::derive(
        "Total cash invested",
        "cash_invested",
        &[
            &traced.purchase_price.trace,
            &traced.down_payment_rate.trace,
            &traced.closing_costs.trace,
            &traced.rehab_budget.trace,
        ],
        cash_value,
    );

    // Ratios
    let cap_value = match noi_value.ratio_to(inputs.deal.purchase_price) {
        Ok(v) => v,
        Err(e) => {
            return Err(EngineError::Money(e));
        },
    };
    let cap_rate = crate::provenance::derive(
        "Cap rate",
        "cap_rate",
        &[&net_operating_income.trace, &traced.purchase_price.trace],
        cap_value,
    );

    // Without debt coverage is undefined rather than infinite; zero would read
    // as failing coverage, so an all-cash deal reports a sentinel.
    let dscr_value = if ads_value.is_positive() {
        match noi_value.ratio_to(ads_value) {
            Ok(v) => v,
            Err(e) => {
                return Err(EngineError::Money(e));
            },
        }
    } else {
        Bps::from_raw(i64::MAX)
    };
    let dscr = crate::provenance::derive(
        "DSCR",
        "dscr",
        &[&net_operating_income.trace, &annual_debt_service.trace],
        dscr_value,
    );

    let coc_value = if cash_value.is_positive() {
        match cfbt_value.ratio_to(cash_value) {
            Ok(v) => v,
            Err(e) => {
                return Err(EngineError::Money(e));
            },
        }
    } else {
        return Err(
            EngineError::InvalidInput {
                field: "total_cash_invested",
                detail: "must be greater than zero to compute cash-on-cash",
            },
        );
    };
    let cash_on_cash = crate::provenance::derive(
        "Cash-on-cash",
        "coc",
        &[&cash_flow_before_tax.trace, &total_cash_invested.trace],
        coc_value,
    );

    let expense_ratio_value = if egi_value.is_positive() {
        match opex_value.ratio_to(egi_value) {
            Ok(v) => v,
            Err(e) => {
                return Err(EngineError::Money(e));
            },
        }
    } else {
        Bps::zero()
    };
    let expense_ratio = crate::provenance::derive(
        "Expense ratio",
        "expense_ratio",
        &[&operating_expenses.trace, &effective_gross_income.trace],
        expense_ratio_value,
    );

    let grm_value = if gpr_value.is_positive() {
        match inputs.deal.purchase_price.ratio_to(gpr_value) {
            Ok(v) => v,
            Err(e) => {
                return Err(EngineError::Money(e));
            },
        }
    } else {
        Bps::zero()
    };
    let gross_rent_multiplier = crate::provenance::derive(
        "Gross rent multiplier",
        "grm",
        &[&traced.purchase_price.trace, &gross_potential_rent.trace],
        grm_value,
    );

    // Break-even occupancy = (OpEx + ADS) / GPR: below this collection rate
    // the deal burns cash.
    let breakeven_value = if gpr_value.is_positive() {
        let outflow = match opex_value.add(ads_value) {
            Ok(v) => v,
            Err(e) => {
                return Err(EngineError::Money(e));
            },
        };
        match outflow.ratio_to(gpr_value) {
            Ok(v) => v,
            Err(e) => {
                return Err(EngineError::Money(e));
            },
        }
    } else {
        Bps::zero()
    };
    let break_even_occupancy = crate::provenance::derive(
        "Break-even occupancy",
        "break_even",
        &[&operating_expenses.trace, &annual_debt_service.trace, &gross_potential_rent.trace],
        breakeven_value,
    );

    Ok(
        Underwrite {
            gross_potential_rent,
            vacancy_loss,
            effective_gross_income,
            operating_expenses,
            net_operating_income,
            annual_debt_service,
            cash_flow_before_tax,
            total_cash_invested,
            loan_amount,
            cap_rate,
            dscr,
            cash_on_cash,
            expense_ratio,
            gross_rent_multiplier,
            break_even_occupancy,
        },
    )
}

/// Run an underwrite where it is defined: `None` exactly on the inputs on
/// which the amortized payment's rounding is undefined, which [`underwrite`]
/// does not accept.
pub fn underwrite_checked(inputs: &UnderwriteInputs, traced: &TracedInputs) -> (r: Option<
    Result<Underwrite, EngineError>,
>)
    ensures
        r is None <==> !underwrite_defined(*inputs),
        r matches Some(res) ==> match res {
            Ok(u) => underwrite_figures(*inputs) == Ok::<Figures, EngineError>(figures_of(u))
                && underwrite_traces(u, *traced),
            Err(e) => underwrite_figures(*inputs) == Err::<Figures, EngineError>(e),
        },
{
    let defined = match operating_values(inputs) {
        Err(_) => true,
        Ok(_) => match principal_from_ltv(inputs.deal.purchase_price, inputs.deal.down_payment_rate) {
            Ok(loan) => payment_is_defined(loan, inputs.deal.interest_rate, inputs.deal.term_months),
            Err(_) => true,
        },
    };
    if !defined {
        return None;
    }
    Some(underwrite(inputs, traced))
}

/// The accounting identities hold for every completed underwrite:
/// EGI = GPR - vacancy + other income, NOI = EGI - OpEx and
/// CFBT = NOI - ADS, each exactly, in minor units.
pub proof fn lemma_accounting_identity(i: UnderwriteInputs, f: Figures)
    requires
        underwrite_figures(i) == Ok::<Figures, EngineError>(f),
    ensures
        f.egi.minor() == f.gpr.minor() - f.vacancy.minor() + i.income.other_annual_income.minor(),
        f.noi.minor() == f.egi.minor() - f.opex.minor(),
        f.cfbt.minor() == f.noi.minor() - f.ads.minor(),
        f.gpr.minor() == i.income.monthly_scheduled_rent.minor() * 12,
{
}

/// An underwrite is refused, before any arithmetic, when the price is not
/// positive or the vacancy rate is outside `[0%, 100%)`.
pub proof fn lemma_invalid_inputs_are_rejected(i: UnderwriteInputs)
    ensures
        i.deal.purchase_price.minor() <= 0 ==> underwrite_figures(i) == Err::<Figures, EngineError>(
            EngineError::InvalidInput { field: "purchase_price", detail: "must be greater than zero" },
        ),
        i.deal.purchase_price.minor() > 0 && (i.income.vacancy_rate.raw() < 0
            || i.income.vacancy_rate.raw() >= Bps::SCALE) ==> underwrite_figures(i) == Err::<
            Figures,
            EngineError,
        >(EngineError::InvalidInput { field: "vacancy_rate", detail: "must be in [0%, 100%)" }),
{
}

/// An all-cash deal (100% down) borrows nothing, pays no debt service, and
/// reports coverage as undefined rather than as zero.
pub proof fn lemma_all_cash_deal_has_undefined_coverage(i: UnderwriteInputs, f: Figures)
    requires
        underwrite_figures(i) == Ok::<Figures, EngineError>(f),
        i.deal.down_payment_rate.raw() == Bps::SCALE,
    ensures
        f.loan.minor() == 0,
        f.ads.minor() == 0,
        f.dscr == undefined_coverage(),
{
    lemma_apply_full_rate_is_identity(i.deal.purchase_price);
    assert(i.deal.down_payment_rate == Bps::from_raw(Bps::SCALE)) by {
        lemma_bps_ext(i.deal.down_payment_rate, Bps::from_raw(Bps::SCALE));
    }
}

/// Raising the price, all else equal, never raises the cap rate of a deal
/// with non-negative NOI.
pub proof fn lemma_cap_rate_falls_as_price_rises(
    i1: UnderwriteInputs,
    i2: UnderwriteInputs,
    f1: Figures,
    f2: Figures,
)
    requires
        i1.income == i2.income,
        i1.expenses == i2.expenses,
        i1.deal.closing_costs == i2.deal.closing_costs,
        i1.deal.rehab_budget == i2.deal.rehab_budget,
        i1.deal.down_payment_rate == i2.deal.down_payment_rate,
        i1.deal.interest_rate == i2.deal.interest_rate,
        i1.deal.term_months == i2.deal.term_months,
        i1.deal.purchase_price.currency() == i2.deal.purchase_price.currency(),
        i1.deal.purchase_price.minor() <= i2.deal.purchase_price.minor(),
        underwrite_figures(i1) == Ok::<Figures, EngineError>(f1),
        underwrite_figures(i2) == Ok::<Figures, EngineError>(f2),
        f1.noi.minor() >= 0,
    ensures
        f2.cap.raw() <= f1.cap.raw(),
{
    assert(operating_figures(i1) == operating_figures(i2));
    lemma_ratio_non_increasing_in_base(
        f1.noi,
        i1.deal.purchase_price,
        i2.deal.purchase_price,
        f1.cap,
        f2.cap,
    );
}

/// No figure of an underwrite is a bare leaf: each is derived from at least
/// one input, so its trace has depth of at least two.
pub proof fn lemma_no_figure_is_a_bare_leaf(u: Underwrite, t: TracedInputs)
    requires
        underwrite_traces(u, t),
    ensures
        depth_spec(*u.gross_potential_rent.trace) >= 2,
        depth_spec(*u.vacancy_loss.trace) >= 2,
        depth_spec(*u.effective_gross_income.trace) >= 2,
        depth_spec(*u.operating_expenses.trace) >= 2,
        depth_spec(*u.net_operating_income.trace) >= 2,
        depth_spec(*u.annual_debt_service.trace) >= 2,
        depth_spec(*u.cash_flow_before_tax.trace) >= 2,
        depth_spec(*u.total_cash_invested.trace) >= 2,
        depth_spec(*u.loan_amount.trace) >= 2,
        depth_spec(*u.cap_rate.trace) >= 2,
        depth_spec(*u.dscr.trace) >= 2,
        depth_spec(*u.cash_on_cash.trace) >= 2,
        depth_spec(*u.expense_ratio.trace) >= 2,
        depth_spec(*u.gross_rent_multiplier.trace) >= 2,
        depth_spec(*u.break_even_occupancy.trace) >= 2,
{
    lemma_derived_is_not_a_leaf_forall();
}

/// Net operating income rests on every external source of the rent, the
/// other income, the vacancy rate and the expense inputs, and on no other;
/// the cap rate adds only the sources of the price.
pub proof fn lemma_noi_sources(u: Underwrite, t: TracedInputs, x: Seq<char>)
    requires
        underwrite_traces(u, t),
    ensures
        sources_spec(*u.net_operating_income.trace).contains(x) <==> (
            sources_spec(*t.monthly_rent.trace).contains(x)
            || sources_spec(*t.vacancy_rate.trace).contains(x)
            || sources_spec(*t.other_income.trace).contains(x)
            || sources_spec(*t.property_tax.trace).contains(x)
            || sources_spec(*t.insurance.trace).contains(x)
            || sources_spec(*t.fixed_other.trace).contains(x)
            || sources_spec(*t.management_rate.trace).contains(x)
            || sources_spec(*t.maintenance_rate.trace).contains(x)
            || sources_spec(*t.reserve_rate.trace).contains(x)),
        sources_spec(*u.cap_rate.trace).contains(x) <==> (
            sources_spec(*u.net_operating_income.trace).contains(x)
            || sources_spec(*t.purchase_price.trace).contains(x)),
{
    lemma_derived_sources_forall();
    assert(sources_spec(*u.gross_potential_rent.trace).contains(x)
        <==> sources_spec(seq![*t.monthly_rent.trace][0]).contains(x));
    assert(sources_spec(*u.vacancy_loss.trace).contains(x) <==> (
        sources_spec(seq![*u.gross_potential_rent.trace, *t.vacancy_rate.trace][0]).contains(x)
        || sources_spec(seq![*u.gross_potential_rent.trace, *t.vacancy_rate.trace][1]).contains(x)));
    assert(sources_spec(*u.effective_gross_income.trace).contains(x) <==> (
        sources_spec(seq![*u.gross_potential_rent.trace, *u.vacancy_loss.trace, *t.other_income.trace][0]).contains(x)
        || sources_spec(seq![*u.gross_potential_rent.trace, *u.vacancy_loss.trace, *t.other_income.trace][1]).contains(x)
        || sources_spec(seq![*u.gross_potential_rent.trace, *u.vacancy_loss.trace, *t.other_income.trace][2]).contains(x)));
    assert(sources_spec(*u.operating_expenses.trace).contains(x) <==> (
        sources_spec(opex_inputs(u, t)[0]).contains(x)
        || sources_spec(opex_inputs(u, t)[1]).contains(x)
        || sources_spec(opex_inputs(u, t)[2]).contains(x)
        || sources_spec(opex_inputs(u, t)[3]).contains(x)
        || sources_spec(opex_inputs(u, t)[4]).contains(x)
        || sources_spec(opex_inputs(u, t)[5]).contains(x)
        || sources_spec(opex_inputs(u, t)[6]).contains(x)));
    assert(sources_spec(*u.net_operating_income.trace).contains(x) <==> (
        sources_spec(seq![*u.effective_gross_income.trace, *u.operating_expenses.trace][0]).contains(x)
        || sources_spec(seq![*u.effective_gross_income.trace, *u.operating_expenses.trace][1]).contains(x)));
    assert(sources_spec(*u.cap_rate.trace).contains(x) <==> (
        sources_spec(seq![*u.net_operating_income.trace, *t.purchase_price.trace][0]).contains(x)
        || sources_spec(seq![*u.net_operating_income.trace, *t.purchase_price.trace][1]).contains(x)));
}

/// The engine is deterministic: two underwrites completed from the same
/// inputs and the same traced leaves have the same figures, and each
/// figure's provenance is the same tree, node for node. (A rejected input is
/// rejected with the same error every time: [`underwrite_figures`] is a
/// function of the inputs.)
pub proof fn lemma_underwrite_is_deterministic(
    i: UnderwriteInputs,
    t: TracedInputs,
    u1: Underwrite,
    u2: Underwrite,
)
    requires
        underwrite_figures(i) == Ok::<Figures, EngineError>(figures_of(u1)),
        underwrite_traces(u1, t),
        underwrite_figures(i) == Ok::<Figures, EngineError>(figures_of(u2)),
        underwrite_traces(u2, t),
    ensures
        figures_of(u1) == figures_of(u2),
        same_tree(*u1.gross_potential_rent.trace, *u2.gross_potential_rent.trace),
        same_tree(*u1.vacancy_loss.trace, *u2.vacancy_loss.trace),
        same_tree(*u1.effective_gross_income.trace, *u2.effective_gross_income.trace),
        same_tree(*u1.operating_expenses.trace, *u2.operating_expenses.trace),
        same_tree(*u1.net_operating_income.trace, *u2.net_operating_income.trace),
        same_tree(*u1.loan_amount.trace, *u2.loan_amount.trace),
        same_tree(*u1.annual_debt_service.trace, *u2.annual_debt_service.trace),
        same_tree(*u1.cash_flow_before_tax.trace, *u2.cash_flow_before_tax.trace),
        same_tree(*u1.total_cash_invested.trace, *u2.total_cash_invested.trace),
        same_tree(*u1.cap_rate.trace, *u2.cap_rate.trace),
        same_tree(*u1.dscr.trace, *u2.dscr.trace),
        same_tree(*u1.cash_on_cash.trace, *u2.cash_on_cash.trace),
        same_tree(*u1.expense_ratio.trace, *u2.expense_ratio.trace),
        same_tree(*u1.gross_rent_multiplier.trace, *u2.gross_rent_multiplier.trace),
        same_tree(*u1.break_even_occupancy.trace, *u2.break_even_occupancy.trace),
{
    lemma_same_tree_refl(node_of(t.monthly_rent.trace));
    lemma_same_tree_refl(node_of(t.other_income.trace));
    lemma_same_tree_refl(node_of(t.vacancy_rate.trace));
    lemma_same_tree_refl(node_of(t.property_tax.trace));
    lemma_same_tree_refl(node_of(t.insurance.trace));
    lemma_same_tree_refl(node_of(t.fixed_other.trace));
    lemma_same_tree_refl(node_of(t.management_rate.trace));
    lemma_same_tree_refl(node_of(t.maintenance_rate.trace));
    lemma_same_tree_refl(node_of(t.reserve_rate.trace));
    lemma_same_tree_refl(node_of(t.purchase_price.trace));
    lemma_same_tree_refl(node_of(t.closing_costs.trace));
    lemma_same_tree_refl(node_of(t.rehab_budget.trace));
    lemma_same_tree_refl(node_of(t.down_payment_rate.trace));
    lemma_same_tree_refl(node_of(t.interest_rate.trace));
    lemma_same_tree_refl(node_of(t.term_months.trace));
    lemma_derived_same_tree(
        node_of(u1.gross_potential_rent.trace),
        node_of(u2.gross_potential_rent.trace),
        "Gross potential rent"@,
        "gpr"@,
        seq![node_of(t.monthly_rent.trace)],
        seq![node_of(t.monthly_rent.trace)],
    );
    lemma_derived_same_tree(
        node_of(u1.vacancy_loss.trace),
        node_of(u2.vacancy_loss.trace),
        "Vacancy & credit loss"@,
        "vacancy_loss"@,
        seq![node_of(u1.gross_potential_rent.trace), node_of(t.vacancy_rate.trace)],
        seq![node_of(u2.gross_potential_rent.trace), node_of(t.vacancy_rate.trace)],
    );
    lemma_derived_same_tree(
        node_of(u1.effective_gross_income.trace),
        node_of(u2.effective_gross_income.trace),
        "Effective gross income"@,
        "egi"@,
        seq![node_of(u1.gross_potential_rent.trace), node_of(u1.vacancy_loss.trace), node_of(t.other_income.trace)],
        seq![node_of(u2.gross_potential_rent.trace), node_of(u2.vacancy_loss.trace), node_of(t.other_income.trace)],
    );
    lemma_derived_same_tree(
        node_of(u1.operating_expenses.trace),
        node_of(u2.operating_expenses.trace),
        "Operating expenses"@,
        "opex"@,
        seq![node_of(t.property_tax.trace), node_of(t.insurance.trace), node_of(t.fixed_other.trace), node_of(u1.effective_gross_income.trace), node_of(t.management_rate.trace), node_of(t.maintenance_rate.trace), node_of(t.reserve_rate.trace)],
        seq![node_of(t.property_tax.trace), node_of(t.insurance.trace), node_of(t.fixed_other.trace), node_of(u2.effective_gross_income.trace), node_of(t.management_rate.trace), node_of(t.maintenance_rate.trace), node_of(t.reserve_rate.trace)],
    );
    lemma_derived_same_tree(
        node_of(u1.net_operating_income.trace),
        node_of(u2.net_operating_income.trace),
        "Net operating income"@,
        "noi"@,
        seq![node_of(u1.effective_gross_income.trace), node_of(u1.operating_expenses.trace)],
        seq![node_of(u2.effective_gross_income.trace), node_of(u2.operating_expenses.trace)],
    );
    lemma_derived_same_tree(
        node_of(u1.loan_amount.trace),
        node_of(u2.loan_amount.trace),
        "Loan amount"@,
        "loan"@,
        seq![node_of(t.purchase_price.trace), node_of(t.down_payment_rate.trace)],
        seq![node_of(t.purchase_price.trace), node_of(t.down_payment_rate.trace)],
    );
    lemma_derived_same_tree(
        node_of(u1.annual_debt_service.trace),
        node_of(u2.annual_debt_service.trace),
        "Annual debt service"@,
        "ads"@,
        seq![node_of(u1.loan_amount.trace), node_of(t.interest_rate.trace), node_of(t.term_months.trace)],
        seq![node_of(u2.loan_amount.trace), node_of(t.interest_rate.trace), node_of(t.term_months.trace)],
    );
    lemma_derived_same_tree(
        node_of(u1.cash_flow_before_tax.trace),
        node_of(u2.cash_flow_before_tax.trace),
        "Cash flow before tax"@,
        "cfbt"@,
        seq![node_of(u1.net_operating_income.trace), node_of(u1.annual_debt_service.trace)],
        seq![node_of(u2.net_operating_income.trace), node_of(u2.annual_debt_service.trace)],
    );
    lemma_derived_same_tree(
        node_of(u1.total_cash_invested.trace),
        node_of(u2.total_cash_invested.trace),
        "Total cash invested"@,
        "cash_invested"@,
        seq![node_of(t.purchase_price.trace), node_of(t.down_payment_rate.trace), node_of(t.closing_costs.trace), node_of(t.rehab_budget.trace)],
        seq![node_of(t.purchase_price.trace), node_of(t.down_payment_rate.trace), node_of(t.closing_costs.trace), node_of(t.rehab_budget.trace)],
    );
    lemma_derived_same_tree(
        node_of(u1.cap_rate.trace),
        node_of(u2.cap_rate.trace),
        "Cap rate"@,
        "cap_rate"@,
        seq![node_of(u1.net_operating_income.trace), node_of(t.purchase_price.trace)],
        seq![node_of(u2.net_operating_income.trace), node_of(t.purchase_price.trace)],
    );
    lemma_derived_same_tree(
        node_of(u1.dscr.trace),
        node_of(u2.dscr.trace),
        "DSCR"@,
        "dscr"@,
        seq![node_of(u1.net_operating_income.trace), node_of(u1.annual_debt_service.trace)],
        seq![node_of(u2.net_operating_income.trace), node_of(u2.annual_debt_service.trace)],
    );
    lemma_derived_same_tree(
        node_of(u1.cash_on_cash.trace),
        node_of(u2.cash_on_cash.trace),
        "Cash-on-cash"@,
        "coc"@,
        seq![node_of(u1.cash_flow_before_tax.trace), node_of(u1.total_cash_invested.trace)],
        seq![node_of(u2.cash_flow_before_tax.trace), node_of(u2.total_cash_invested.trace)],
    );
    lemma_derived_same_tree(
        node_of(u1.expense_ratio.trace),
        node_of(u2.expense_ratio.trace),
        "Expense ratio"@,
        "expense_ratio"@,
        seq![node_of(u1.operating_expenses.trace), node_of(u1.effective_gross_income.trace)],
        seq![node_of(u2.operating_expenses.trace), node_of(u2.effective_gross_income.trace)],
    );
    lemma_derived_same_tree(
        node_of(u1.gross_rent_multiplier.trace),
        node_of(u2.gross_rent_multiplier.trace),
        "Gross rent multiplier"@,
        "grm"@,
        seq![node_of(t.purchase_price.trace), node_of(u1.gross_potential_rent.trace)],
        seq![node_of(t.purchase_price.trace), node_of(u2.gross_potential_rent.trace)],
    );
    lemma_derived_same_tree(
        node_of(u1.break_even_occupancy.trace),
        node_of(u2.break_even_occupancy.trace),
        "Break-even occupancy"@,
        "break_even"@,
        seq![node_of(u1.operating_expenses.trace), node_of(u1.annual_debt_service.trace), node_of(u1.gross_potential_rent.trace)],
        seq![node_of(u2.operating_expenses.trace), node_of(u2.annual_debt_service.trace), node_of(u2.gross_potential_rent.trace)],
    );
}

/// Raising the vacancy rate never lowers the vacancy loss and never raises
/// effective gross income, for a rent that is not negative.
pub proof fn lemma_vacancy_never_raises_income(
    i1: UnderwriteInputs,
    i2: UnderwriteInputs,
    f1: Figures,
    f2: Figures,
)
    requires
        i1.expenses == i2.expenses,
        i1.deal == i2.deal,
        i1.income.monthly_scheduled_rent == i2.income.monthly_scheduled_rent,
        i1.income.other_annual_income == i2.income.other_annual_income,
        i1.income.vacancy_rate.raw() <= i2.income.vacancy_rate.raw(),
        i1.income.monthly_scheduled_rent.minor() >= 0,
        underwrite_figures(i1) == Ok::<Figures, EngineError>(f1),
        underwrite_figures(i2) == Ok::<Figures, EngineError>(f2),
    ensures
        f1.vacancy.minor() <= f2.vacancy.minor(),
        f2.egi.minor() <= f1.egi.minor(),
{
    let g = f1.gpr.minor() as int;
    let (v1, v2) = (i1.income.vacancy_rate.raw() as int, i2.income.vacancy_rate.raw() as int);
    assert(f1.gpr == f2.gpr);
    assert(g >= 0);
    assert(g * v1 <= g * v2) by (nonlinear_arith)
        requires g >= 0, v1 <= v2;
    lemma_round_half_away_monotone(g * v1, g * v2, 10_000);
}

/// Net operating income follows effective gross income: for the same
/// expense assumptions, a fall in EGI that outweighs the rounding of the
/// three rate-based expenses (each rounds to the nearest minor unit, so
/// together they can absorb up to three) never raises NOI.
pub proof fn lemma_noi_follows_egi(i1: UnderwriteInputs, i2: UnderwriteInputs, f1: Figures, f2: Figures)
    requires
        i1.expenses == i2.expenses,
        underwrite_figures(i1) == Ok::<Figures, EngineError>(f1),
        underwrite_figures(i2) == Ok::<Figures, EngineError>(f2),
        (f1.egi.minor() - f2.egi.minor()) * (10_000 - (i1.expenses.management_rate.raw()
            + i1.expenses.maintenance_rate.raw() + i1.expenses.capex_reserve_rate.raw())) >= 30_000,
    ensures
        f2.noi.minor() <= f1.noi.minor(),
{
    let x = i1.expenses;
    let (e1, e2) = (f1.egi.minor() as int, f2.egi.minor() as int);
    let (m, a, r) = (x.management_rate.raw() as int, x.maintenance_rate.raw() as int,
        x.capex_reserve_rate.raw() as int);
    let fixed = x.annual_property_tax.minor() + x.annual_insurance.minor() + x.annual_hoa.minor()
        + x.annual_utilities.minor() + x.annual_other_fixed.minor();
    let (m1, a1, r1) = (round_half_away(e1 * m, 10_000), round_half_away(e1 * a, 10_000),
        round_half_away(e1 * r, 10_000));
    let (m2, a2, r2) = (round_half_away(e2 * m, 10_000), round_half_away(e2 * a, 10_000),
        round_half_away(e2 * r, 10_000));
    let items1 = seq![x.annual_property_tax, x.annual_insurance, x.annual_hoa, x.annual_utilities,
        x.annual_other_fixed, Money::from_minor(m1 as i64, f1.egi.currency()),
        Money::from_minor(a1 as i64, f1.egi.currency()), Money::from_minor(r1 as i64, f1.egi.currency())];
    let items2 = seq![x.annual_property_tax, x.annual_insurance, x.annual_hoa, x.annual_utilities,
        x.annual_other_fixed, Money::from_minor(m2 as i64, f2.egi.currency()),
        Money::from_minor(a2 as i64, f2.egi.currency()), Money::from_minor(r2 as i64, f2.egi.currency())];
    assert(opex_figure(i1, f1.egi) == Ok::<Money, EngineError>(f1.opex));
    assert(opex_figure(i2, f2.egi) == Ok::<Money, EngineError>(f2.opex));
    lemma_sum_onto_total(items1, Money::from_minor(0, i1.deal.purchase_price.currency()), f1.opex);
    lemma_sum_onto_total(items2, Money::from_minor(0, i2.deal.purchase_price.currency()), f2.opex);
    assert(minor_total(items1) == fixed + m1 + a1 + r1) by {
        reveal_with_fuel(minor_total, 9);
    }
    assert(minor_total(items2) == fixed + m2 + a2 + r2) by {
        reveal_with_fuel(minor_total, 9);
    }
    lemma_round_half_away_is_nearest(e1 * m, 10_000);
    lemma_round_half_away_is_nearest(e2 * m, 10_000);
    lemma_round_half_away_is_nearest(e1 * a, 10_000);
    lemma_round_half_away_is_nearest(e2 * a, 10_000);
    lemma_round_half_away_is_nearest(e1 * r, 10_000);
    lemma_round_half_away_is_nearest(e2 * r, 10_000);
    assert(10_000 * ((m1 - m2) + (a1 - a2) + (r1 - r2)) <= (e1 - e2) * (m + a + r) + 30_000)
        by (nonlinear_arith)
        requires
            -10_000 <= 2 * (e1 * m) - 2 * 10_000 * m1 <= 10_000,
            -10_000 <= 2 * (e2 * m) - 2 * 10_000 * m2 <= 10_000,
            -10_000 <= 2 * (e1 * a) - 2 * 10_000 * a1 <= 10_000,
            -10_000 <= 2 * (e2 * a) - 2 * 10_000 * a2 <= 10_000,
            -10_000 <= 2 * (e1 * r) - 2 * 10_000 * r1 <= 10_000,
            -10_000 <= 2 * (e2 * r) - 2 * 10_000 * r2 <= 10_000,
    ;
    assert(10_000 * (e1 - e2) - (e1 - e2) * (m + a + r) == (e1 - e2) * (10_000 - (m + a + r)))
        by (nonlinear_arith);
}

/// More vacancy never produces more net operating income, for a rent that is
/// not negative, whenever the fall in effective gross income outweighs the
/// rounding of the three rate-based expenses.
pub proof fn lemma_vacancy_never_raises_noi(
    i1: UnderwriteInputs,
    i2: UnderwriteInputs,
    f1: Figures,
    f2: Figures,
)
    requires
        i1.expenses == i2.expenses,
        i1.deal == i2.deal,
        i1.income.monthly_scheduled_rent == i2.income.monthly_scheduled_rent,
        i1.income.other_annual_income == i2.income.other_annual_income,
        i1.income.vacancy_rate.raw() <= i2.income.vacancy_rate.raw(),
        i1.income.monthly_scheduled_rent.minor() >= 0,
        underwrite_figures(i1) == Ok::<Figures, EngineError>(f1),
        underwrite_figures(i2) == Ok::<Figures, EngineError>(f2),
        (f1.egi.minor() - f2.egi.minor()) * (10_000 - (i1.expenses.management_rate.raw()
            + i1.expenses.maintenance_rate.raw() + i1.expenses.capex_reserve_rate.raw())) >= 30_000,
    ensures
        f2.egi.minor() <= f1.egi.minor(),
        f2.noi.minor() <= f1.noi.minor(),
{
    lemma_vacancy_never_raises_income(i1, i2, f1, f2);
    lemma_noi_follows_egi(i1, i2, f1, f2);
}

/// Every amount among the inputs is in `currency`.
pub open spec fn denominated_in(i: UnderwriteInputs, currency: Currency) -> bool {
    &&& i.income.monthly_scheduled_rent.currency() == currency
    &&& i.income.other_annual_income.currency() == currency
    &&& i.expenses.annual_property_tax.currency() == currency
    &&& i.expenses.annual_insurance.currency() == currency
    &&& i.expenses.annual_hoa.currency() == currency
    &&& i.expenses.annual_utilities.currency() == currency
    &&& i.expenses.annual_other_fixed.currency() == currency
    &&& i.deal.purchase_price.currency() == currency
    &&& i.deal.closing_costs.currency() == currency
    &&& i.deal.rehab_budget.currency() == currency
}

/// An engine failure that is not a currency mismatch.
pub open spec fn not_a_mismatch(e: EngineError) -> bool {
    !(e matches EngineError::Money(MoneyError::CurrencyMismatch { .. }))
}

/// The operating figures of single-currency inputs are in that currency,
/// and computing them never fails with a currency mismatch.
proof fn lemma_operating_figures_keep_currency(i: UnderwriteInputs, c: Currency)
    requires
        denominated_in(i, c),
    ensures
        match operating_figures(i) {
            Ok((gpr, vacancy, egi, opex, noi)) => gpr.currency() == c && vacancy.currency() == c
                && egi.currency() == c && opex.currency() == c && noi.currency() == c,
            Err(e) => not_a_mismatch(e),
        },
{
    let x = i.expenses;
    let rent = i.income.monthly_scheduled_rent;
    let vr = i.income.vacancy_rate;
    lemma_arithmetic_keeps_currency(rent, rent, vr, MONTHS_PER_YEAR);
    if let Ok(gpr) = money_mul_int(rent, MONTHS_PER_YEAR) {
        lemma_arithmetic_keeps_currency(gpr, gpr, vr, 0);
        if let Ok(vacancy) = money_apply(gpr, vr) {
            lemma_arithmetic_keeps_currency(gpr, vacancy, vr, 0);
            if let Ok(collected) = money_sub(gpr, vacancy) {
                lemma_arithmetic_keeps_currency(collected, i.income.other_annual_income, vr, 0);
                if let Ok(egi) = money_add(collected, i.income.other_annual_income) {
                    lemma_arithmetic_keeps_currency(egi, egi, x.management_rate, 0);
                    lemma_arithmetic_keeps_currency(egi, egi, x.maintenance_rate, 0);
                    lemma_arithmetic_keeps_currency(egi, egi, x.capex_reserve_rate, 0);
                    if let (Ok(mg), Ok(mt), Ok(rs)) = (
                        money_apply(egi, x.management_rate),
                        money_apply(egi, x.maintenance_rate),
                        money_apply(egi, x.capex_reserve_rate),
                    ) {
                        let items = seq![x.annual_property_tax, x.annual_insurance, x.annual_hoa,
                            x.annual_utilities, x.annual_other_fixed, mg, mt, rs];
                        let zero = Money::from_minor(0, c);
                        assert(zero.currency() == c);
                        lemma_sum_keeps_currency(items, zero, c);
                        if let Ok(opex) = money_sum_onto(items, zero) {
                            lemma_arithmetic_keeps_currency(egi, opex, vr, 0);
                        }
                    }
                }
            }
        }
    }
}

/// Single-currency inputs are underwritten in their own currency: every
/// amount of the result is in it, and an underwrite of such inputs never
/// fails with a currency mismatch, whatever the currency.
pub proof fn lemma_single_currency_underwrite(i: UnderwriteInputs, c: Currency)
    requires
        denominated_in(i, c),
    ensures
        match underwrite_figures(i) {
            Ok(f) => f.gpr.currency() == c && f.vacancy.currency() == c && f.egi.currency() == c
                && f.opex.currency() == c && f.noi.currency() == c && f.ads.currency() == c
                && f.cfbt.currency() == c && f.cash.currency() == c && f.loan.currency() == c,
            Err(e) => not_a_mismatch(e),
        },
{
    let price = i.deal.purchase_price;
    let d = i.deal;
    lemma_operating_figures_keep_currency(i, c);
    if let Ok((gpr, vacancy, egi, opex, noi)) = operating_figures(i) {
        lemma_loan_in_price_currency(price, d.down_payment_rate);
        if let Ok(loan) = principal_from_ltv_spec(price, d.down_payment_rate) {
            lemma_payment_in_loan_currency(loan, d.interest_rate, d.term_months);
            if let Ok(ads) = annual_debt_service_spec(loan, d.interest_rate, d.term_months) {
                lemma_arithmetic_keeps_currency(noi, ads, d.interest_rate, 0);
                lemma_arithmetic_keeps_currency(opex, ads, d.interest_rate, 0);
                lemma_arithmetic_keeps_currency(noi, price, d.interest_rate, 0);
                lemma_arithmetic_keeps_currency(opex, egi, d.interest_rate, 0);
                lemma_arithmetic_keeps_currency(price, gpr, d.down_payment_rate, 0);
                lemma_arithmetic_keeps_currency(price, price, d.down_payment_rate, 0);
                if let Ok(down) = money_apply(price, d.down_payment_rate) {
                    let zero = Money::from_minor(0, c);
                    assert(zero.currency() == c);
                    lemma_sum_keeps_currency(seq![down, d.closing_costs, d.rehab_budget], zero, c);
                }
                if let Ok(cfbt) = money_sub(noi, ads) {
                    if let Ok(cash) = cash_figure(i) {
                        lemma_arithmetic_keeps_currency(cfbt, cash, d.interest_rate, 0);
                    }
                }
                if let Ok(outflow) = money_add(opex, ads) {
                    lemma_arithmetic_keeps_currency(outflow, gpr, d.interest_rate, 0);
                }
            }
        }
    }
}

/// Operating expenses are the sum of the eight expense items: the five fixed
/// costs plus management, maintenance and reserves, each the rounded rate of
/// effective gross income; for single-currency inputs they are in that
/// currency.
pub proof fn lemma_opex_sums_the_expense_items(i: UnderwriteInputs, c: Currency, f: Figures)
    requires
        denominated_in(i, c),
        underwrite_figures(i) == Ok::<Figures, EngineError>(f),
    ensures
        f.opex.currency() == c,
        f.opex.minor() == i.expenses.annual_property_tax.minor() + i.expenses.annual_insurance.minor()
            + i.expenses.annual_hoa.minor() + i.expenses.annual_utilities.minor()
            + i.expenses.annual_other_fixed.minor() + round_half_away(
            f.egi.minor() * i.expenses.management_rate.raw(),
            10_000,
        ) + round_half_away(f.egi.minor() * i.expenses.maintenance_rate.raw(), 10_000)
            + round_half_away(f.egi.minor() * i.expenses.capex_reserve_rate.raw(), 10_000),
{
    lemma_single_currency_underwrite(i, c);
    let x = i.expenses;
    let e = f.egi.minor() as int;
    let (m, a, r) = (round_half_away(e * x.management_rate.raw(), 10_000), round_half_away(
        e * x.maintenance_rate.raw(),
        10_000,
    ), round_half_away(e * x.capex_reserve_rate.raw(), 10_000));
    let items = seq![x.annual_property_tax, x.annual_insurance, x.annual_hoa, x.annual_utilities,
        x.annual_other_fixed, Money::from_minor(m as i64, f.egi.currency()),
        Money::from_minor(a as i64, f.egi.currency()), Money::from_minor(r as i64, f.egi.currency())];
    assert(opex_figure(i, f.egi) == Ok::<Money, EngineError>(f.opex));
    lemma_sum_onto_total(items, Money::from_minor(0, i.deal.purchase_price.currency()), f.opex);
    assert(minor_total(items) == x.annual_property_tax.minor() + x.annual_insurance.minor()
        + x.annual_hoa.minor() + x.annual_utilities.minor() + x.annual_other_fixed.minor() + m + a + r) by {
        reveal_with_fuel(minor_total, 9);
    }
}

} // verus!
