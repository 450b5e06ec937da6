use std::sync::Arc;
use velt::provenance::{Origin, Trace, Traced};

fn hud_leaf() -> Traced<i64> {
    Traced::leaf(
        185_000,
        "HUD FMR 2BR",
        Origin::External {
            source_id: "hud.fmr".into(),
            trust_tier: "authoritative".into(),
            fetched_at: "2026-08-01T00:00:00Z".into(),
        },
    )
}

#[test]
fn a_leaf_traces_to_its_origin() {
    let fmr = hud_leaf();
    assert_eq!(fmr.trace.external_sources(), vec!["hud.fmr"]);
    assert_eq!(fmr.trace.depth(), 1);
}

#[test]
fn derived_values_accumulate_every_source() {
    let fmr = hud_leaf();
    let tax = Traced::leaf(
        42_000,
        "Property tax",
        Origin::External {
            source_id: "county.assessor".into(),
            trust_tier: "reported".into(),
            fetched_at: "2026-08-01T00:00:00Z".into(),
        },
    );
    let noi = velt::provenance::derive("NOI", "noi", &[&fmr.trace, &tax.trace], 143_000_i64);
    assert_eq!(
        noi.trace.external_sources(),
        vec!["county.assessor", "hud.fmr"]
    );
    assert_eq!(noi.trace.depth(), 2);
    assert_eq!(noi.trace.node_count(), 3);
}

#[test]
fn shared_inputs_are_stored_once_and_referenced_twice() {
    let price = Traced::leaf(
        25_000_000_i64,
        "Price",
        Origin::UserInput {
            field: "price".into(),
        },
    );
    let a = velt::provenance::derive("A", "a", &[&price.trace], 1_i64);
    let b = velt::provenance::derive("B", "b", &[&price.trace], 2_i64);
    let c = velt::provenance::derive("C", "c", &[&a.trace, &b.trace], 3_i64);
    assert_eq!(Arc::strong_count(&price.trace), 3);
    assert_eq!(c.trace.node_count(), 5);
}

#[test]
fn render_produces_an_indented_tree() {
    let fmr = hud_leaf();
    let noi = velt::provenance::derive("NOI", "noi", &[&fmr.trace], 1_i64);
    let rendered = noi.trace.render();
    assert!(rendered.starts_with("NOI  = noi\n"));
    assert!(rendered.contains("  HUD FMR 2BR  <- hud.fmr[authoritative]"));
}

// ---- further cases ----

#[test]
fn sources_are_sorted_and_listed_once() {
    let a = Traced::leaf(
        1_i64,
        "A",
        Origin::External {
            source_id: "zeta".into(),
            trust_tier: "reported".into(),
            fetched_at: "t".into(),
        },
    );
    let b = Traced::leaf(
        2_i64,
        "B",
        Origin::External {
            source_id: "alpha".into(),
            trust_tier: "reported".into(),
            fetched_at: "t".into(),
        },
    );
    let ab = velt::provenance::derive("AB", "ab", &[&a.trace, &b.trace], 3_i64);
    let again = velt::provenance::derive("AGAIN", "again", &[&ab.trace, &a.trace, &b.trace], 4_i64);
    assert_eq!(again.trace.external_sources(), vec!["alpha", "zeta"]);
    assert_eq!(again.trace.depth(), 3);
}

#[test]
fn operator_constant_and_assumption_leaves_have_no_external_source() {
    let typed = Traced::leaf(1_i64, "Rent", Origin::UserInput { field: "rent".into() });
    let twelve = Traced::constant(12_i64, "months_per_year");
    let vacancy = Traced::leaf(
        700_i64,
        "Vacancy",
        Origin::Assumption {
            name: "vacancy_rate".into(),
            rationale: "default".into(),
        },
    );
    let all = velt::provenance::derive("All", "all", &[&typed.trace, &twelve.trace, &vacancy.trace], 0_i64);
    assert!(all.trace.external_sources().is_empty());
    assert_eq!(all.trace.node_count(), 4);
    let rendered = all.trace.render();
    assert_eq!(
        rendered,
        "All  = all\n  Rent  <- input:rent\n  months_per_year  <- const:months_per_year\n  Vacancy  <- assume:vacancy_rate\n"
    );
}

#[test]
fn mapping_a_value_records_one_derivation_step() {
    let fmr = hud_leaf();
    let annual = fmr.map("Annual rent", "x12", |m: i64| m * 12);
    assert_eq!(*annual.value(), 2_220_000);
    assert_eq!(annual.trace.label(), "Annual rent");
    assert_eq!(annual.trace.depth(), 2);
    assert_eq!(annual.trace.external_sources(), vec!["hud.fmr"]);
}

#[test]
fn a_trace_can_be_built_node_by_node() {
    let leaf = Trace::leaf("Price", Origin::UserInput { field: "price".into() });
    let node = Trace::derived("Double", "double", vec![leaf.clone(), leaf]);
    let traced = Traced::new(2_i64, node);
    assert_eq!(traced.trace.node_count(), 3);
    assert_eq!(traced.trace.label(), "Double");
    assert_eq!(
        traced.trace.render(),
        "Double  = double\n  Price  <- input:price\n  Price  <- input:price\n"
    );
}
