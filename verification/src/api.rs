//! What the daemon's HTTP surface decides: the health report, how operator
//! entries become traced inputs, and how an underwrite is answered.
//!
//! Inputs arriving over HTTP are operator entries; external data reaches the
//! engine through a connector, which stamps its own origin.

use crate::engine::{
    engine_error_text, figures_of, underwrite_checked, underwrite_defined, underwrite_figures,
    underwrite_traces, EngineError, Figures, TracedInputs, Underwrite, UnderwriteInputs,
};
use crate::money::{money_sum_onto, Bps, Currency, Money};
use crate::provenance::{Origin, Trace, Traced};
use vstd::prelude::*;

verus! {

/// Shared daemon state.
#[derive(Debug, Clone)]
pub struct AppState {
    /// Version reported by the health probe.
    pub engine_version: &'static str,
}

/// Liveness and version response.
#[derive(Debug)]
pub struct Health {
    /// Always `"ok"` when the daemon is serving.
    pub status: &'static str,
    /// Engine version, used by the shell to detect a stale sidecar.
    pub engine_version: String,
}

/// Request body for an underwrite.
#[derive(Debug)]
pub struct UnderwriteRequest {
    /// The full input set.
    pub inputs: UnderwriteInputs,
}

/// Error body returned for a rejected underwrite.
#[derive(Debug)]
pub struct ApiError {
    /// Machine-readable error code.
    pub code: &'static str,
    /// Human-readable detail.
    pub detail: String,
}

/// The liveness report: the daemon is serving, at its engine version.
pub fn health(state: &AppState) -> (r: Health)
    ensures
        r.status@ == "ok"@,
        r.engine_version@ == state.engine_version@,
{
    Health { status: "ok", engine_version: state.engine_version.to_owned() }
}

/// The machine-readable code of a rejected underwrite: the offending field
/// for an invalid input, `arithmetic` for a money error.
pub open spec fn error_code(e: EngineError) -> &'static str {
    match e {
        EngineError::InvalidInput { field, .. } => field,
        EngineError::Money(_) => "arithmetic",
    }
}

/// `t` is a leaf entered by the operator in the field `field`, labelled by
/// that field's name.
pub open spec fn operator_leaf(t: Trace, field: Seq<char>) -> bool {
    &&& t is Leaf
    &&& t->Leaf_label@ == field
    &&& t->origin is UserInput
    &&& t->origin->field@ == field
}

/// The aggregated fixed expenses (HOA, utilities, other) entered by the
/// operator, or zero when their sum fails.
pub open spec fn fixed_other_spec(inputs: UnderwriteInputs) -> Money {
    let currency = inputs.deal.purchase_price.currency();
    match money_sum_onto(
        seq![inputs.expenses.annual_hoa, inputs.expenses.annual_utilities, inputs.expenses.annual_other_fixed],
        Money::from_minor(0, currency),
    ) {
        Ok(m) => m,
        Err(_) => Money::from_minor(0, currency),
    }
}

/// Every input of `t` is an operator leaf over the value of `inputs`, under
/// the name of its field.
pub open spec fn operator_inputs(inputs: UnderwriteInputs, t: TracedInputs) -> bool {
    &&& t.monthly_rent.value == inputs.income.monthly_scheduled_rent
    &&& operator_leaf(*t.monthly_rent.trace, "monthly_scheduled_rent"@)
    &&& t.other_income.value == inputs.income.other_annual_income
    &&& operator_leaf(*t.other_income.trace, "other_annual_income"@)
    &&& t.vacancy_rate.value == inputs.income.vacancy_rate
    &&& operator_leaf(*t.vacancy_rate.trace, "vacancy_rate"@)
    &&& t.property_tax.value == inputs.expenses.annual_property_tax
    &&& operator_leaf(*t.property_tax.trace, "annual_property_tax"@)
    &&& t.insurance.value == inputs.expenses.annual_insurance
    &&& operator_leaf(*t.insurance.trace, "annual_insurance"@)
    &&& t.fixed_other.value == fixed_other_spec(inputs)
    &&& operator_leaf(*t.fixed_other.trace, "fixed_other"@)
    &&& t.management_rate.value == inputs.expenses.management_rate
    &&& operator_leaf(*t.management_rate.trace, "management_rate"@)
    &&& t.maintenance_rate.value == inputs.expenses.maintenance_rate
    &&& operator_leaf(*t.maintenance_rate.trace, "maintenance_rate"@)
    &&& t.reserve_rate.value == inputs.expenses.capex_reserve_rate
    &&& operator_leaf(*t.reserve_rate.trace, "capex_reserve_rate"@)
    &&& t.purchase_price.value == inputs.deal.purchase_price
    &&& operator_leaf(*t.purchase_price.trace, "purchase_price"@)
    &&& t.closing_costs.value == inputs.deal.closing_costs
    &&& operator_leaf(*t.closing_costs.trace, "closing_costs"@)
    &&& t.rehab_budget.value == inputs.deal.rehab_budget
    &&& operator_leaf(*t.rehab_budget.trace, "rehab_budget"@)
    &&& t.down_payment_rate.value == inputs.deal.down_payment_rate
    &&& operator_leaf(*t.down_payment_rate.trace, "down_payment_rate"@)
    &&& t.interest_rate.value == inputs.deal.interest_rate
    &&& operator_leaf(*t.interest_rate.trace, "interest_rate"@)
    &&& t.term_months.value == inputs.deal.term_months
    &&& operator_leaf(*t.term_months.trace, "term_months"@)
}

/// An operator-entered value of type `T`, traced as a leaf under its field.
fn operator_entry<T>(value: T, field: &'static str) -> (r: Traced<T>)
    ensures
        r.value == value,
        operator_leaf(*r.trace, field@),
{
    Traced::leaf(value, field, Origin::UserInput { field: field.to_owned() })
}

/// An operator-entered amount, traced as a leaf under its field.
fn money_leaf(value: Money, field: &'static str) -> (r: Traced<Money>)
    ensures
        r.value == value,
        operator_leaf(*r.trace, field@),
{
    operator_entry(value, field)
}

/// An operator-entered rate, traced as a leaf under its field.
fn bps_leaf(value: Bps, field: &'static str) -> (r: Traced<Bps>)
    ensures
        r.value == value,
        operator_leaf(*r.trace, field@),
{
    operator_entry(value, field)
}

/// The traced inputs of an operator-entered underwrite: every input is a
/// leaf under its field's name, and HOA, utilities and other fixed costs are
/// aggregated into one figure (zero if their sum overflows or mixes
/// currencies).
pub fn operator_traced(inputs: &UnderwriteInputs) -> (r: TracedInputs)
    ensures
        operator_inputs(*inputs, r),
{
    let currency: Currency = inputs.currency();
    let fixed_other = match Money::sum(
        vec![inputs.expenses.annual_hoa, inputs.expenses.annual_utilities, inputs.expenses.annual_other_fixed],
        currency,
    ) {
        Ok(m) => m,
        Err(_) => Money::zero(currency),
    };
    TracedInputs {
        monthly_rent: money_leaf(inputs.income.monthly_scheduled_rent, "monthly_scheduled_rent"),
        other_income: money_leaf(inputs.income.other_annual_income, "other_annual_income"),
        vacancy_rate: bps_leaf(inputs.income.vacancy_rate, "vacancy_rate"),
        property_tax: money_leaf(inputs.expenses.annual_property_tax, "annual_property_tax"),
        insurance: money_leaf(inputs.expenses.annual_insurance, "annual_insurance"),
        fixed_other: money_leaf(fixed_other, "fixed_other"),
        management_rate: bps_leaf(inputs.expenses.management_rate, "management_rate"),
        maintenance_rate: bps_leaf(inputs.expenses.maintenance_rate, "maintenance_rate"),
        reserve_rate: bps_leaf(inputs.expenses.capex_reserve_rate, "capex_reserve_rate"),
        purchase_price: money_leaf(inputs.deal.purchase_price, "purchase_price"),
        closing_costs: money_leaf(inputs.deal.closing_costs, "closing_costs"),
        rehab_budget: money_leaf(inputs.deal.rehab_budget, "rehab_budget"),
        down_payment_rate: bps_leaf(inputs.deal.down_payment_rate, "down_payment_rate"),
        interest_rate: bps_leaf(inputs.deal.interest_rate, "interest_rate"),
        term_months: operator_entry(inputs.deal.term_months, "term_months"),
    }
}

/// The error body for an engine error: its code and its message.
pub fn api_error(err: &EngineError) -> (r: ApiError)
    ensures
        r.code == error_code(*err),
        r.detail@ == engine_error_text(*err),
{
    let code = match err {
        EngineError::InvalidInput { field, .. } => *field,
        EngineError::Money(_) => "arithmetic",
    };
    ApiError { code, detail: err.to_string() }
}

/// Answer an underwrite request from the operator's entries.
///
/// `None` exactly on the inputs on which the amortized payment's rounding is
/// undefined. Otherwise the underwrite of the operator-traced inputs, or the
/// error body of the step that rejected them.
pub fn post_underwrite(req: &UnderwriteRequest) -> (r: Option<Result<Underwrite, ApiError>>)
    ensures
        r is None <==> !underwrite_defined(req.inputs),
        r matches Some(res) ==> match res {
            Ok(u) => underwrite_figures(req.inputs) == Ok::<Figures, EngineError>(figures_of(u))
                && exists|t: TracedInputs| operator_inputs(req.inputs, t) && underwrite_traces(u, t),
            Err(body) => exists|e: EngineError| underwrite_figures(req.inputs) == Err::<Figures, EngineError>(e)
                && body.code == error_code(e) && body.detail@ == engine_error_text(e),
        },
{
    let traced = operator_traced(&req.inputs);
    match underwrite_checked(&req.inputs, &traced) {
        None => None,
        Some(Ok(u)) => Some(Ok(u)),
        Some(Err(e)) => Some(Err(api_error(&e))),
    }
}

} // verus!
