use velt::connector::{
    first_forbidden_marker, forbidden_field_markers, Confidence, Connector, ConnectorError, Datum, FairHousingFilter, Record,
    RightsPosture, TrustTier,
};

fn record(pairs: &[(&str, &str)]) -> Record {
    let mut r = Record::new();
    for (k, v) in pairs {
        r.insert((*k).to_owned(), (*v).to_owned());
    }
    r
}

struct TestSource {
    posture: RightsPosture,
}

impl TestSource {
    fn new() -> Self {
        Self {
            posture: RightsPosture {
                terms_url: "https://example.test/terms".into(),
                reviewed_at: "2026-08-01T00:00:00Z".into(),
                robots_permits: true,
                rate_limit_per_min: 30,
                user_agent: "VELT/0.1 (+contact)".into(),
                mls_idx_governed: false,
                summary: "Test fixture source.".into(),
            },
        }
    }
}

impl Connector for TestSource {
    fn source_id(&self) -> &'static str {
        "test.source"
    }
    fn trust_tier(&self) -> TrustTier {
        TrustTier::Reported
    }
    fn rights_posture(&self) -> &RightsPosture {
        &self.posture
    }
    fn declared_drops(&self) -> &[&'static str] {
        &["school_rating"]
    }
}

#[test]
fn permitted_fields_pass_through() {
    let src = TestSource::new();
    let out = src
        .ingest(record(&[
            ("bedrooms", "3"),
            ("list_price", "249000"),
            ("sqft", "1450"),
        ]))
        .unwrap();
    assert_eq!(out.len(), 3);
}

#[test]
fn a_declared_drop_is_silently_removed() {
    let src = TestSource::new();
    let out = src
        .ingest(record(&[("bedrooms", "3"), ("school_rating", "8")]))
        .unwrap();
    assert_eq!(out.len(), 1);
    assert!(!out.contains_key("school_rating"));
}

#[test]
fn an_undeclared_crime_index_stops_the_pipeline() {
    let src = TestSource::new();
    let err = src
        .ingest(record(&[
            ("bedrooms", "3"),
            ("neighborhood_crime_index_2025", "42"),
        ]))
        .unwrap_err();
    assert!(matches!(err, ConnectorError::FairHousing { .. }));
}

#[test]
fn every_forbidden_marker_is_actually_caught() {
    let filter = FairHousingFilter::new("test.source");
    for (marker, _) in forbidden_field_markers() {
        let field = format!("listing_{marker}_value");
        assert!(
            filter.check_field(&field).is_err(),
            "marker `{marker}` did not reject field `{field}`"
        );
    }
}

#[test]
fn matching_is_case_insensitive() {
    let filter = FairHousingFilter::new("test.source");
    assert!(filter.check_field("Neighborhood_Score").is_err());
    assert!(filter.check_field("MEDIAN_HOUSEHOLD_INCOME").is_err());
}

#[test]
fn a_datum_carries_its_boundary_metadata_into_provenance() {
    let datum = Datum::new(
        185_000_i64,
        "hud.fmr",
        TrustTier::Authoritative,
        "2026-08-01T00:00:00Z",
        Confidence::full(),
    );
    let traced = datum.into_traced("HUD FMR 2BR");
    assert_eq!(traced.trace.external_sources(), vec!["hud.fmr"]);
}

#[test]
fn confidence_clamps_above_one_hundred() {
    assert_eq!(Confidence::new(250).percent(), 100);
}

// ---- further cases ----

#[test]
fn the_error_names_the_field_and_the_first_reason() {
    let filter = FairHousingFilter::new("test.source");
    match filter.check_field("Race_Ethnic_Mix") {
        Err(ConnectorError::FairHousing {
            source_id,
            field,
            reason,
        }) => {
            assert_eq!(source_id, "test.source");
            assert_eq!(field, "Race_Ethnic_Mix");
            assert_eq!(reason, "protected characteristic");
        }
        other => panic!("unexpected {other:?}"),
    }
    match filter.check_field("zip_median_household_income") {
        Err(ConnectorError::FairHousing { reason, .. }) => {
            assert_eq!(
                reason,
                "income-by-area is a redlining proxy at ZIP granularity"
            );
        }
        other => panic!("unexpected {other:?}"),
    }
    assert!(filter.check_field("bedrooms").is_ok());
}

#[test]
fn a_declared_drop_matches_whatever_its_case() {
    let filter = FairHousingFilter::new("test.source").declaring_drop("School_Rating");
    assert!(filter.check_field("SCHOOL_RATING").is_ok());
    assert!(filter.check_field("school_score").is_err());
    let out = filter
        .filter(record(&[("School_Rating", "9"), ("sqft", "900")]))
        .unwrap();
    assert_eq!(out.len(), 1);
    assert!(out.contains_key("sqft"));
    assert!(!out.contains_key("School_Rating"));
}

#[test]
fn the_first_offending_field_in_name_order_is_reported() {
    let filter = FairHousingFilter::new("test.source");
    let err = filter
        .filter(record(&[
            ("zz_gender_ratio", "1"),
            ("bedrooms", "3"),
            ("crime_rate", "2"),
        ]))
        .unwrap_err();
    match err {
        ConnectorError::FairHousing { field, reason, .. } => {
            assert_eq!(field, "crime_rate");
            assert_eq!(
                reason,
                "correlates with protected characteristics; doctrine \u{a7}5 bans crime indices"
            );
        }
        other => panic!("unexpected {other:?}"),
    }
}

#[test]
fn a_record_keeps_fields_in_name_order_and_replaces_values() {
    let mut r = Record::new();
    assert_eq!(r.insert("sqft".into(), "1450".into()), None);
    assert_eq!(r.insert("bedrooms".into(), "3".into()), None);
    assert_eq!(r.insert("list_price".into(), "249000".into()), None);
    assert_eq!(r.insert("bedrooms".into(), "4".into()), Some("3".to_owned()));
    assert_eq!(r.len(), 3);
    let keys: Vec<&str> = r.entries().iter().map(|(k, _)| k.as_str()).collect();
    assert_eq!(keys, vec!["bedrooms", "list_price", "sqft"]);
    assert_eq!(r.get("bedrooms"), Some(&"4".to_owned()));
    assert_eq!(r.get("garage"), None);
}

#[test]
fn a_filter_for_a_connector_declares_each_drop() {
    let filter = FairHousingFilter::for_connector("test.source", &["School_Rating", "crime_index"]);
    let out = filter
        .filter(record(&[
            ("crime_index", "4"),
            ("school_rating", "8"),
            ("baths", "2"),
        ]))
        .unwrap();
    assert_eq!(out.len(), 1);
    assert_eq!(out.get("baths"), Some(&"2".to_owned()));
}

#[test]
fn trust_tiers_have_stable_names() {
    assert_eq!(TrustTier::Authoritative.as_str(), "authoritative");
    assert_eq!(TrustTier::Licensed.as_str(), "licensed");
    assert_eq!(TrustTier::Reported.as_str(), "reported");
    assert_eq!(TrustTier::Derived.as_str(), "derived");
    assert_eq!(TrustTier::Operator.as_str(), "operator");
    assert!(TrustTier::Reported.is_unattested());
    assert!(!TrustTier::Authoritative.is_unattested());
    assert!(!TrustTier::Operator.is_unattested());
}

#[test]
fn confidence_keeps_values_up_to_one_hundred() {
    assert_eq!(Confidence::new(0).percent(), 0);
    assert_eq!(Confidence::new(73).percent(), 73);
    assert_eq!(Confidence::new(100).percent(), 100);
    assert_eq!(Confidence::new(101).percent(), 100);
    assert_eq!(Confidence::full().percent(), 100);
}

#[test]
fn a_datum_keeps_its_metadata_and_renders_its_origin() {
    let datum = Datum::new(
        42_i64,
        "county.assessor",
        TrustTier::Licensed,
        "2026-08-02T00:00:00Z",
        Confidence::new(80),
    );
    assert_eq!(datum.source_id, "county.assessor");
    assert_eq!(datum.fetched_at, "2026-08-02T00:00:00Z");
    assert_eq!(datum.confidence.percent(), 80);
    let traced = datum.into_traced("Tax");
    assert_eq!(traced.value, 42);
    assert_eq!(traced.trace.render(), "Tax  <- county.assessor[licensed]\n");
}

#[test]
fn connector_errors_read_as_messages() {
    let e = ConnectorError::FairHousing {
        source_id: "s",
        field: "crime".into(),
        reason: "crime proxy",
    };
    assert_eq!(
        e.to_string(),
        "fair housing violation: source 's' shipped forbidden field 'crime' (crime proxy); declare it in the connector's drop list or remove the source"
    );
    let e = ConnectorError::Unusable {
        source_id: "s",
        field: "rent".into(),
        detail: "not a number".into(),
    };
    assert_eq!(e.to_string(), "source 's' returned unusable value for 'rent': not a number");
    let e = ConnectorError::NoRightsPosture { source_id: "s" };
    assert_eq!(
        e.to_string(),
        "connector 's' has no documented rights posture; doctrine \u{a7}5 forbids fetching"
    );
}

#[test]
fn there_are_twenty_five_forbidden_markers() {
    let markers = forbidden_field_markers();
    assert_eq!(markers.len(), 25);
    assert_eq!(markers[0], ("race", "protected characteristic"));
}

#[test]
fn the_first_marker_in_a_lowercase_name_gives_the_reason() {
    assert_eq!(first_forbidden_marker("zip_school_score_race"), Some("protected characteristic"));
    assert_eq!(first_forbidden_marker("area_score"), Some("composite neighborhood quality metric"));
    assert_eq!(first_forbidden_marker("bedrooms"), None);
    // Matching is on the name as given: an upper-case name is not lowered here.
    assert_eq!(first_forbidden_marker("CRIME"), None);
}

#[test]
fn a_lowered_name_is_checked_as_given() {
    let filter = FairHousingFilter::new("test.source").declaring_drop("School_Rating");
    assert!(filter.check_lowered("School_Rating", "school_rating").is_ok());
    assert!(filter.check_lowered("Bedrooms", "bedrooms").is_ok());
    match filter.check_lowered("Median_Age", "median_age") {
        Err(ConnectorError::FairHousing { source_id, field, reason }) => {
            assert_eq!(source_id, "test.source");
            assert_eq!(field, "Median_Age");
            assert_eq!(reason, "demographic inference");
        }
        other => panic!("unexpected {other:?}"),
    }
}
