//! The connector boundary: the only place external data enters.
//!
//! Every external datum carries its source, trust tier, fetch timestamp and
//! confidence: [`Datum`] has no constructor that omits them.
//!
//! Fair housing: no demographic neighborhood scoring and no proxy metric
//! derived from a protected characteristic. A source that ships such a field
//! is stopped at this boundary. [`FairHousingFilter`] is that stop, and
//! [`Connector::ingest`] runs it on every record before the record can become
//! a [`Datum`].

use crate::provenance::{sources_spec, Origin, Traced};
use crate::text::{compare_str, contains_str, contains_text, lex_lt, lemma_lex_irreflexive, lemma_lex_total,
    lemma_lex_transitive, Precedence};
use vstd::prelude::*;

verus! {

/// Errors raised at the connector boundary.
#[derive(Debug, Clone, PartialEq, Eq)]
pub enum ConnectorError {
    /// A record contained a field forbidden by the fair-housing constraint.
    ///
    /// This is a hard error, not a warning: a source that ships demographic
    /// scoring must be handled explicitly by adding the field to the
    /// connector's declared drop list, so that the decision is visible in a
    /// diff.
    FairHousing {
        /// Connector that produced the record.
        source_id: &'static str,
        /// The forbidden field name, as the source spelled it.
        field: String,
        /// Why the field is forbidden.
        reason: &'static str,
    },
    /// The source returned a value the connector could not parse.
    Unusable {
        /// Connector that produced the record.
        source_id: &'static str,
        /// Field being parsed.
        field: String,
        /// Parse detail.
        detail: String,
    },
    /// The connector has no documented rights posture; data rights are
    /// checked before fetching, not after.
    NoRightsPosture {
        /// Connector identifier.
        source_id: &'static str,
    },
}

/// The message of a connector error.
pub open spec fn connector_error_text(e: ConnectorError) -> Seq<char> {
    match e {
        ConnectorError::FairHousing { source_id, field, reason } => "fair housing violation: source '"@
            + source_id@ + "' shipped forbidden field '"@ + field@ + "' ("@ + reason@
            + "); declare it in the connector's drop list or remove the source"@,
        ConnectorError::Unusable { source_id, field, detail } => "source '"@ + source_id@
            + "' returned unusable value for '"@ + field@ + "': "@ + detail@,
        ConnectorError::NoRightsPosture { source_id } => "connector '"@ + source_id@
            + "' has no documented rights posture; doctrine \u{a7}5 forbids fetching"@,
    }
}

impl ConnectorError {
    /// The error as a human-readable message.
    pub fn to_string(&self) -> (r: String)
        ensures
            r@ == connector_error_text(*self),
    {
        let mut buf = String::new();
        match self {
            ConnectorError::FairHousing { source_id, field, reason } => {
                buf.append("fair housing violation: source '");
                buf.append(source_id);
                buf.append("' shipped forbidden field '");
                buf.append(field.as_str());
                buf.append("' (");
                buf.append(reason);
                buf.append("); declare it in the connector's drop list or remove the source");
            },
            ConnectorError::Unusable { source_id, field, detail } => {
                buf.append("source '");
                buf.append(source_id);
                buf.append("' returned unusable value for '");
                buf.append(field.as_str());
                buf.append("': ");
                buf.append(detail.as_str());
            },
            ConnectorError::NoRightsPosture { source_id } => {
                buf.append("connector '");
                buf.append(source_id);
                buf.append("' has no documented rights posture; doctrine \u{a7}5 forbids fetching");
            },
        }
        proof {
            assert(buf@ =~= connector_error_text(*self));
        }
        buf
    }
}

/// How much a datum from a source can be relied on.
///
/// Trust tier is a property of the source, not of the value, and it travels
/// with the value all the way to the terminal.
#[derive(Debug, Clone, Copy, PartialEq, Eq, Structural, PartialOrd, Ord, Hash)]
pub enum TrustTier {
    /// Published by the authority that defines the number (HUD FMR schedules,
    /// county assessor rolls, recorded deeds).
    Authoritative,
    /// A licensed commercial feed under contract.
    Licensed,
    /// Self-reported by a market participant (listing agent remarks, owner pro
    /// formas). Directionally useful, frequently optimistic.
    Reported,
    /// Derived from other data (a comp-based rent estimate).
    Derived,
    /// Entered by the operator.
    Operator,
}

/// The stable lowercase identifier of a trust tier.
pub open spec fn tier_name(t: TrustTier) -> Seq<char> {
    match t {
        TrustTier::Authoritative => "authoritative"@,
        TrustTier::Licensed => "licensed"@,
        TrustTier::Reported => "reported"@,
        TrustTier::Derived => "derived"@,
        TrustTier::Operator => "operator"@,
    }
}

impl TrustTier {
    /// Stable lowercase identifier used in provenance and the UI.
    pub fn as_str(self) -> (r: &'static str)
        ensures
            r@ == tier_name(self),
    {
        match self {
            TrustTier::Authoritative => "authoritative",
            TrustTier::Licensed => "licensed",
            TrustTier::Reported => "reported",
            TrustTier::Derived => "derived",
            TrustTier::Operator => "operator",
        }
    }

    /// Whether a value at this tier needs an explicit operator
    /// acknowledgement before it feeds a committed underwrite: only
    /// self-reported data does.
    pub fn is_unattested(self) -> (r: bool)
        ensures
            r == (self == TrustTier::Reported),
    {
        match self {
            TrustTier::Reported => true,
            _ => false,
        }
    }
}

/// Confidence in a specific value, in percent, independent of source tier.
///
/// Tier answers "who said it"; confidence answers "how much should this
/// particular number move a decision".
#[derive(Debug, Clone, Copy, PartialEq, Eq, Structural, PartialOrd, Ord, Hash)]
pub struct Confidence(u8);

impl Confidence {
    /// The confidence in percent.
    pub closed spec fn spec_percent(self) -> u8 {
        self.0
    }

    /// A confidence never exceeds 100%.
    #[verifier::type_invariant]
    spec fn at_most_full(self) -> bool {
        self.0 <= 100
    }

    /// Full confidence.
    pub fn full() -> (r: Confidence)
        ensures
            r.percent() == 100,
    {
        Confidence(100)
    }

    /// Construct, clamping to `0..=100`.
    pub fn new(pct: u8) -> (r: Confidence)
        ensures
            r.percent() == if pct > 100 { 100 } else { pct },
    {
        Confidence(if pct > 100 { 100 } else { pct })
    }

    /// Confidence as a percentage.
    #[verifier::when_used_as_spec(spec_percent)]
    pub fn percent(self) -> (r: u8)
        ensures
            r == self.spec_percent(),
            r <= 100,
    {
        proof {
            use_type_invariant(&self);
        }
        self.0
    }
}

/// The rights posture for a data source, written before any connector code.
///
/// A [`Connector`] cannot be implemented without returning one, so "we will
/// document the rights later" is not a state the type system permits.
#[derive(Debug, Clone, PartialEq, Eq)]
pub struct RightsPosture {
    /// URL of the terms of service reviewed.
    pub terms_url: String,
    /// Date the terms were reviewed, RFC-3339.
    pub reviewed_at: String,
    /// Whether robots.txt permits the access pattern used.
    pub robots_permits: bool,
    /// Requests per minute the connector will not exceed.
    pub rate_limit_per_min: u32,
    /// User-Agent string identifying the client honestly.
    pub user_agent: String,
    /// Whether the source is subject to MLS/IDX redistribution rules.
    pub mls_idx_governed: bool,
    /// Plain-language summary of what this source permits and forbids.
    pub summary: String,
}

/// A single external value with its full boundary metadata.
#[derive(Debug, Clone, PartialEq, Eq)]
pub struct Datum<T> {
    /// The value.
    pub value: T,
    /// Stable connector identifier, e.g. `hud.fmr`.
    pub source_id: String,
    /// Trust tier of the source.
    pub trust_tier: TrustTier,
    /// RFC-3339 timestamp captured at fetch time.
    pub fetched_at: String,
    /// Confidence in this specific value.
    pub confidence: Confidence,
}

impl<T> Datum<T> {
    /// Construct a datum. All four metadata fields are required by the
    /// signature; there is no partial constructor.
    pub fn new(
        value: T,
        source_id: &str,
        trust_tier: TrustTier,
        fetched_at: &str,
        confidence: Confidence,
    ) -> (r: Datum<T>)
        ensures
            r.value == value,
            r.source_id@ == source_id@,
            r.trust_tier == trust_tier,
            r.fetched_at@ == fetched_at@,
            r.confidence == confidence,
    {
        Datum {
            value,
            source_id: source_id.to_owned(),
            trust_tier,
            fetched_at: fetched_at.to_owned(),
            confidence,
        }
    }

    /// Convert into an engine input, carrying the boundary metadata into the
    /// provenance tree: the value becomes a leaf whose origin is this source,
    /// so the source is the one external source of the result.
    pub fn into_traced(self, label: &str) -> (r: Traced<T>)
        ensures
            r.value == self.value,
            *r.trace is Leaf,
            r.trace->Leaf_label@ == label@,
            r.trace->origin is External,
            r.trace->origin->source_id == self.source_id,
            r.trace->origin->External_trust_tier@ == tier_name(self.trust_tier),
            r.trace->origin->fetched_at == self.fetched_at,
            sources_spec(*r.trace) == seq![self.source_id@],
    {
        let origin = Origin::External {
            source_id: self.source_id,
            trust_tier: self.trust_tier.as_str().to_owned(),
            fetched_at: self.fetched_at,
        };
        Traced::leaf(self.value, label, origin)
    }
}

/// Field-name markers that may never cross the connector boundary, each with
/// the reason it is forbidden.
///
/// Demographic neighborhood scoring and any proxy metric derived from a
/// protected characteristic are forbidden. A marker matches a field when it
/// occurs anywhere in the field's lowercase name, so
/// `neighborhood_crime_index_2025` is caught by `crime`.
pub open spec fn forbidden_markers() -> Seq<(&'static str, &'static str)> {
    seq![
        ("race", "protected characteristic"),
        ("ethnic", "protected characteristic"),
        ("religio", "protected characteristic"),
        ("national_origin", "protected characteristic"),
        ("nationality", "protected characteristic"),
        ("familial_status", "protected characteristic"),
        ("disabilit", "protected characteristic"),
        ("handicap", "protected characteristic"),
        ("sex_", "protected characteristic"),
        ("gender", "protected characteristic"),
        ("crime", "correlates with protected characteristics; doctrine \u{a7}5 bans crime indices"),
        ("safety_score", "crime proxy"),
        ("school_rating", "banned as a neighborhood-quality proxy"),
        ("school_score", "banned as a neighborhood-quality proxy"),
        ("school_grade", "banned as a neighborhood-quality proxy"),
        ("neighborhood_score", "composite neighborhood quality metric"),
        ("neighborhood_grade", "composite neighborhood quality metric"),
        ("area_quality", "composite neighborhood quality metric"),
        ("area_score", "composite neighborhood quality metric"),
        ("desirability", "composite neighborhood quality metric"),
        ("demographic", "demographic inference"),
        ("median_age", "demographic inference"),
        ("household_composition", "familial status proxy"),
        ("language_spoken", "national origin proxy"),
        ("median_household_income", "income-by-area is a redlining proxy at ZIP granularity"),
    ]
}

/// The forbidden field markers with their reasons, in order.
pub fn forbidden_field_markers() -> (r: Vec<(&'static str, &'static str)>)
    ensures
        r@ == forbidden_markers(),
{
    vec![
        ("race", "protected characteristic"),
        ("ethnic", "protected characteristic"),
        ("religio", "protected characteristic"),
        ("national_origin", "protected characteristic"),
        ("nationality", "protected characteristic"),
        ("familial_status", "protected characteristic"),
        ("disabilit", "protected characteristic"),
        ("handicap", "protected characteristic"),
        ("sex_", "protected characteristic"),
        ("gender", "protected characteristic"),
        ("crime", "correlates with protected characteristics; doctrine \u{a7}5 bans crime indices"),
        ("safety_score", "crime proxy"),
        ("school_rating", "banned as a neighborhood-quality proxy"),
        ("school_score", "banned as a neighborhood-quality proxy"),
        ("school_grade", "banned as a neighborhood-quality proxy"),
        ("neighborhood_score", "composite neighborhood quality metric"),
        ("neighborhood_grade", "composite neighborhood quality metric"),
        ("area_quality", "composite neighborhood quality metric"),
        ("area_score", "composite neighborhood quality metric"),
        ("desirability", "composite neighborhood quality metric"),
        ("demographic", "demographic inference"),
        ("median_age", "demographic inference"),
        ("household_composition", "familial status proxy"),
        ("language_spoken", "national origin proxy"),
        ("median_household_income", "income-by-area is a redlining proxy at ZIP granularity"),
    ]
}

/// The lowercase form of a text, as `str::to_lowercase` maps it.
pub uninterp spec fn lowercase(s: Seq<char>) -> Seq<char>;

/// Lowercases a text with `str::to_lowercase`.
///
/// Trusted: the result is `lowercase` of the argument's characters, a
/// function of those characters alone. Which character maps to which (the
/// Unicode lowercase tables) is not stated.
#[verifier::external_body]
fn to_lowercase(s: &str) -> (r: String)
    ensures
        r@ == lowercase(s@),
{
    s.to_lowercase()
}

/// The views of a list of strings.
pub open spec fn string_views(v: Seq<String>) -> Seq<Seq<char>> {
    v.map_values(|s: String| s@)
}

/// The lowercase forms of a list of field names.
pub open spec fn lowercased(v: Seq<&'static str>) -> Seq<Seq<char>> {
    v.map_values(|s: &'static str| lowercase(s@))
}

/// Forbidden marker `j` occurs in the lowercase field name `lowered`.
pub open spec fn marker_hit(lowered: Seq<char>, j: int) -> bool {
    &&& 0 <= j < forbidden_markers().len()
    &&& contains_text(lowered, forbidden_markers()[j].0@)
}

/// Marker `j` is the first forbidden marker that occurs in `lowered`.
pub open spec fn first_marker(lowered: Seq<char>, j: int) -> bool {
    &&& marker_hit(lowered, j)
    &&& forall|k: int| 0 <= k < j ==> !marker_hit(lowered, k)
}

/// Some forbidden marker occurs in the lowercase field name `lowered`.
pub open spec fn has_marker(lowered: Seq<char>) -> bool {
    exists|j: int| #[trigger] marker_hit(lowered, j)
}

/// A field is a declared drop when its lowercase name is on the drop list.
pub open spec fn declared(drops: Seq<Seq<char>>, field: Seq<char>) -> bool {
    drops.contains(lowercase(field))
}

/// A field stops the pipeline: it is not a declared drop, and a forbidden
/// marker occurs in its lowercase name.
pub open spec fn forbidden(drops: Seq<Seq<char>>, field: Seq<char>) -> bool {
    !declared(drops, field) && has_marker(lowercase(field))
}

/// `e` is the fair-housing error for `field` from `source_id`: it names the
/// field as the source spelled it and the reason of the first forbidden
/// marker in its lowercase name.
pub open spec fn reports_field(e: ConnectorError, source_id: &'static str, field: Seq<char>) -> bool {
    reports_lowered(e, source_id, field, lowercase(field))
}

/// `e` is the fair-housing error for `field` from `source_id`, given the
/// field's lowercase name `lowered`: it names the field as the source spelled
/// it and the reason of the first forbidden marker in `lowered`.
pub open spec fn reports_lowered(
    e: ConnectorError,
    source_id: &'static str,
    field: Seq<char>,
    lowered: Seq<char>,
) -> bool {
    match e {
        ConnectorError::FairHousing { source_id: s, field: f, reason } => {
            &&& s == source_id
            &&& f@ == field
            &&& exists|j: int| #[trigger]
                first_marker(lowered, j) && reason == forbidden_markers()[j].1
        },
        _ => false,
    }
}

/// Rejects records containing fields forbidden by the fair-housing constraint.
///
/// The filter errors rather than silently stripping: a source that starts
/// shipping a crime index stops the pipeline and forces an explicit decision.
#[derive(Debug, Clone)]
pub struct FairHousingFilter {
    source_id: &'static str,
    /// Fields the connector explicitly acknowledges and drops, lowercased.
    declared_drops: Vec<String>,
}

impl FairHousingFilter {
    /// The connector this filter reports for.
    pub closed spec fn spec_source_id(self) -> &'static str {
        self.source_id
    }

    /// The declared drops, lowercased, in the order they were declared.
    pub closed spec fn drops(self) -> Seq<Seq<char>> {
        string_views(self.declared_drops@)
    }

    /// Construct a filter for a connector, with no declared drops.
    pub fn new(source_id: &'static str) -> (r: FairHousingFilter)
        ensures
            r.spec_source_id() == source_id,
            r.drops() == Seq::<Seq<char>>::empty(),
    {
        FairHousingFilter { source_id, declared_drops: Vec::new() }
    }

    /// Declare a field the source ships and that is dropped on purpose.
    ///
    /// Declaring a drop is how a connector says "we know this source emits a
    /// school rating and we discard it", visible in the diff.
    pub fn declaring_drop(self, field: &str) -> (r: FairHousingFilter)
        ensures
            r.spec_source_id() == self.spec_source_id(),
            r.drops() == self.drops().push(lowercase(field@)),
    {
        let mut declared_drops = self.declared_drops;
        declared_drops.push(to_lowercase(field));
        let r = FairHousingFilter { source_id: self.source_id, declared_drops };
        proof {
            assert(r.drops() =~= self.drops().push(lowercase(field@)));
        }
        r
    }

    /// The filter of a connector: its source identifier and each of its
    /// declared drops, in order.
    pub fn for_connector(source_id: &'static str, drops: &[&'static str]) -> (r: FairHousingFilter)
        ensures
            r.spec_source_id() == source_id,
            r.drops() == lowercased(drops@),
    {
        let mut filter = FairHousingFilter::new(source_id);
        let mut i: usize = 0;
        while i < drops.len()
            invariant
                i <= drops.len(),
                filter.spec_source_id() == source_id,
                filter.drops() == lowercased(drops@.take(i as int)),
            decreases drops.len() - i,
        {
            filter = filter.declaring_drop(drops[i]);
            proof {
                assert(lowercased(drops@.take(i + 1)) =~= lowercased(drops@.take(i as int)).push(
                    lowercase(drops@[i as int]@),
                ));
            }
            i += 1;
        }
        proof {
            assert(drops@.take(drops.len() as int) =~= drops@);
        }
        filter
    }

    /// Whether a lowercase field name is one of the declared drops.
    fn is_declared_lowered(&self, lowered: &str) -> (r: bool)
        ensures
            r == self.drops().contains(lowered@),
    {
        let mut i: usize = 0;
        while i < self.declared_drops.len()
            invariant
                i <= self.declared_drops.len(),
                forall|k: int| 0 <= k < i ==> self.drops()[k] != lowered@,
            decreases self.declared_drops.len() - i,
        {
            if compare_str(self.declared_drops[i].as_str(), lowered) == Precedence::Same {
                proof {
                    assert(self.drops()[i as int] == lowered@);
                }
                return true;
            }
            i += 1;
        }
        false
    }

    /// Check a single field name.
    ///
    /// Fails with [`ConnectorError::FairHousing`] exactly when the field is
    /// not a declared drop and a forbidden marker occurs in its lowercase
    /// name; the error carries the reason of the first such marker.
    pub fn check_field(&self, field: &str) -> (r: Result<(), ConnectorError>)
        ensures
            r is Ok <==> !forbidden(self.drops(), field@),
            r is Err ==> reports_field(r->Err_0, self.spec_source_id(), field@),
    {
        let lowered = to_lowercase(field);
        self.check_lowered(field, lowered.as_str())
    }

    /// Check a field name whose lowercase form is `lowered`.
    ///
    /// Fails with [`ConnectorError::FairHousing`] exactly when `lowered` is
    /// not a declared drop and a forbidden marker occurs in it; the error
    /// names `field` and carries the reason of the first such marker.
    pub fn check_lowered(&self, field: &str, lowered: &str) -> (r: Result<(), ConnectorError>)
        ensures
            r is Ok <==> (self.drops().contains(lowered@) || !has_marker(lowered@)),
            r is Err ==> reports_lowered(r->Err_0, self.spec_source_id(), field@, lowered@),
    {
        if self.is_declared_lowered(lowered) {
            return Ok(());
        }
        match first_forbidden_marker(lowered) {
            Some(reason) => Err(ConnectorError::FairHousing {
                source_id: self.source_id,
                field: field.to_owned(),
                reason,
            }),
            None => Ok(()),
        }
    }
}

/// The reason of the first forbidden marker that occurs in the lowercase
/// field name `lowered`, or `None` when no marker occurs in it.
pub fn first_forbidden_marker(lowered: &str) -> (r: Option<&'static str>)
    ensures
        r is Some <==> has_marker(lowered@),
        r matches Some(reason) ==> exists|j: int| #[trigger]
            first_marker(lowered@, j) && reason == forbidden_markers()[j].1,
{
    let markers = forbidden_field_markers();
    let mut j: usize = 0;
    while j < markers.len()
        invariant
            markers@ == forbidden_markers(),
            j <= markers.len(),
            forall|k: int| 0 <= k < j ==> !marker_hit(lowered@, k),
        decreases markers.len() - j,
    {
        let (marker, reason) = markers[j];
        if contains_str(lowered, marker) {
            proof {
                assert(first_marker(lowered@, j as int));
                assert(has_marker(lowered@));
            }
            return Some(reason);
        }
        j += 1;
    }
    proof {
        assert forall|k: int| !marker_hit(lowered@, k) by {
            if 0 <= k < j {
            }
        }
    }
    None
}

/// The views of a list of key/value string pairs.
pub open spec fn entry_views(s: Seq<(String, String)>) -> Seq<(Seq<char>, Seq<char>)> {
    s.map_values(|kv: (String, String)| (kv.0@, kv.1@))
}

/// Every key sorts strictly before every later key, so no key occurs twice.
pub open spec fn keys_sorted(s: Seq<(Seq<char>, Seq<char>)>) -> bool {
    forall|i: int, j: int| 0 <= i < j < s.len() ==> lex_lt(#[trigger] s[i].0, #[trigger] s[j].0)
}

/// Entry `i` of `s` has key `k`.
pub open spec fn key_at(s: Seq<(Seq<char>, Seq<char>)>, k: Seq<char>, i: int) -> bool {
    0 <= i < s.len() && s[i].0 == k
}

/// Some entry of `s` has key `k`.
pub open spec fn has_key(s: Seq<(Seq<char>, Seq<char>)>, k: Seq<char>) -> bool {
    exists|i: int| #[trigger] key_at(s, k, i)
}

/// Position `p` splits `s` into the keys that sort before `k` and the rest.
pub open spec fn insert_position(s: Seq<(Seq<char>, Seq<char>)>, k: Seq<char>, p: int) -> bool {
    &&& 0 <= p <= s.len()
    &&& forall|i: int| 0 <= i < p ==> lex_lt(#[trigger] s[i].0, k)
    &&& forall|i: int| p <= i < s.len() ==> !lex_lt(#[trigger] s[i].0, k)
}

/// `s` with `k` bound to `v` at position `p`: the entry there is replaced
/// when it already has key `k`, and a new entry is inserted otherwise.
pub open spec fn bound_at(
    s: Seq<(Seq<char>, Seq<char>)>,
    k: Seq<char>,
    v: Seq<char>,
    p: int,
) -> Seq<(Seq<char>, Seq<char>)> {
    if key_at(s, k, p) {
        s.update(p, (k, v))
    } else {
        s.insert(p, (k, v))
    }
}

/// The fields of a record as a map from name to value.
pub open spec fn record_map(s: Seq<(Seq<char>, Seq<char>)>) -> Map<Seq<char>, Seq<char>> {
    Map::new(|k: Seq<char>| has_key(s, k), |k: Seq<char>| s[choose|i: int| key_at(s, k, i)].1)
}

/// In a record with sorted keys, a key occurs at one position only.
proof fn lemma_key_position_unique(s: Seq<(Seq<char>, Seq<char>)>, k: Seq<char>, i: int, j: int)
    requires
        keys_sorted(s),
        key_at(s, k, i),
        key_at(s, k, j),
    ensures
        i == j,
{
    lemma_lex_irreflexive(k);
    if i < j {
        assert(lex_lt(s[i].0, s[j].0));
    } else if j < i {
        assert(lex_lt(s[j].0, s[i].0));
    }
}

/// The value a sorted record maps `k` to is the value at `k`'s position.
proof fn lemma_record_map_at(s: Seq<(Seq<char>, Seq<char>)>, k: Seq<char>, i: int)
    requires
        keys_sorted(s),
        key_at(s, k, i),
    ensures
        record_map(s).contains_key(k),
        record_map(s)[k] == s[i].1,
{
    let c = choose|c: int| key_at(s, k, c);
    lemma_key_position_unique(s, k, i, c);
}

/// Reading back what was written: binding `k` to `v` at its sorted position
/// maps `k` to `v` and leaves every other field as it was.
pub proof fn lemma_bound_at_reads_back(s: Seq<(Seq<char>, Seq<char>)>, k: Seq<char>, v: Seq<char>, p: int)
    requires
        keys_sorted(s),
        insert_position(s, k, p),
    ensures
        record_map(bound_at(s, k, v, p)) == record_map(s).insert(k, v),
{
    let t = bound_at(s, k, v, p);
    lemma_bound_at_sorted(s, k, v, p);
    let found = key_at(s, k, p);
    assert forall|q: Seq<char>| #[trigger] record_map(t).contains_key(q) <==> record_map(s).insert(k, v).contains_key(q) by {
        if q != k {
            if has_key(s, q) {
                let i = choose|i: int| key_at(s, q, i);
                if found || i < p {
                    assert(key_at(t, q, i));
                } else {
                    assert(key_at(t, q, i + 1));
                }
            }
            if has_key(t, q) {
                let i = choose|i: int| key_at(t, q, i);
                if found || i < p {
                    assert(key_at(s, q, i));
                } else {
                    assert(i != p);
                    assert(key_at(s, q, i - 1));
                }
            }
        } else {
            assert(key_at(t, k, p));
        }
    }
    assert forall|q: Seq<char>| #[trigger] record_map(t).contains_key(q) implies record_map(t)[q]
        == record_map(s).insert(k, v)[q] by {
        if q == k {
            assert(key_at(t, k, p));
            lemma_record_map_at(t, k, p);
        } else {
            let i = choose|i: int| key_at(s, q, i);
            lemma_record_map_at(s, q, i);
            if found || i < p {
                assert(key_at(t, q, i));
                lemma_record_map_at(t, q, i);
            } else {
                assert(key_at(t, q, i + 1));
                lemma_record_map_at(t, q, i + 1);
            }
        }
    }
    assert(record_map(t) =~= record_map(s).insert(k, v));
}

/// Matching is case-insensitive: two field names with the same lowercase
/// form stop the pipeline alike, and are reported with the same reason.
pub proof fn lemma_matching_is_case_insensitive(drops: Seq<Seq<char>>, a: Seq<char>, b: Seq<char>, j: int)
    requires
        lowercase(a) == lowercase(b),
    ensures
        forbidden(drops, a) == forbidden(drops, b),
        first_marker(lowercase(a), j) == first_marker(lowercase(b), j),
{
}

/// Every forbidden marker is caught: with no declared drops, a field whose
/// lowercase name contains any marker stops the pipeline.
pub proof fn lemma_every_marker_is_caught(field: Seq<char>, j: int)
    requires
        0 <= j < forbidden_markers().len(),
        contains_text(lowercase(field), forbidden_markers()[j].0@),
    ensures
        forbidden(Seq::empty(), field),
{
    assert(marker_hit(lowercase(field), j));
}

/// The forbidden markers and their reasons, as fixed by the fair-housing
/// doctrine: the protected characteristics and their stems, then the
/// proxies for them.
pub open spec fn doctrine_markers() -> Seq<(Seq<char>, Seq<char>)> {
    let protected = "protected characteristic"@;
    let quality = "composite neighborhood quality metric"@;
    let school = "banned as a neighborhood-quality proxy"@;
    seq![
        ("race"@, protected),
        ("ethnic"@, protected),
        ("religio"@, protected),
        ("national_origin"@, protected),
        ("nationality"@, protected),
        ("familial_status"@, protected),
        ("disabilit"@, protected),
        ("handicap"@, protected),
        ("sex_"@, protected),
        ("gender"@, protected),
        ("crime"@, "correlates with protected characteristics; doctrine \u{a7}5 bans crime indices"@),
        ("safety_score"@, "crime proxy"@),
        ("school_rating"@, school),
        ("school_score"@, school),
        ("school_grade"@, school),
        ("neighborhood_score"@, quality),
        ("neighborhood_grade"@, quality),
        ("area_quality"@, quality),
        ("area_score"@, quality),
        ("desirability"@, quality),
        ("demographic"@, "demographic inference"@),
        ("median_age"@, "demographic inference"@),
        ("household_composition"@, "familial status proxy"@),
        ("language_spoken"@, "national origin proxy"@),
        ("median_household_income"@, "income-by-area is a redlining proxy at ZIP granularity"@),
    ]
}

/// The markers of the doctrine, with their reasons and in order, are
/// exactly those the filter checks.
pub proof fn lemma_filter_checks_the_doctrine_markers()
    ensures
        forbidden_markers().len() == doctrine_markers().len(),
        forall|j: int| 0 <= j < doctrine_markers().len() ==> #[trigger] forbidden_markers()[j].0@
            == doctrine_markers()[j].0 && forbidden_markers()[j].1@ == doctrine_markers()[j].1,
{
    assert forall|j: int| 0 <= j < doctrine_markers().len() implies #[trigger] forbidden_markers()[j].0@
        == doctrine_markers()[j].0 && forbidden_markers()[j].1@ == doctrine_markers()[j].1 by {
        if j < 13 {
            if j < 7 {
                if j < 4 {
                    if j < 2 {
                        if j == 0 {} else {}
                    } else if j == 2 {} else {}
                } else if j == 4 {} else if j == 5 {} else {}
            } else if j < 10 {
                if j == 7 {} else if j == 8 {} else {}
            } else if j == 10 {} else if j == 11 {} else {}
        } else if j < 19 {
            if j < 16 {
                if j == 13 {} else if j == 14 {} else {}
            } else if j == 16 {} else if j == 17 {} else {}
        } else if j < 22 {
            if j == 19 {} else if j == 20 {} else {}
        } else if j == 22 {} else if j == 23 {} else {}
    }
}

/// Every marker of the doctrine is enforced: a field whose lowercase name
/// contains one of them, and that is not a declared drop, stops the pipeline.
pub proof fn lemma_doctrine_markers_are_enforced(drops: Seq<Seq<char>>, field: Seq<char>, j: int)
    requires
        0 <= j < doctrine_markers().len(),
        contains_text(lowercase(field), doctrine_markers()[j].0),
        !declared(drops, field),
    ensures
        forbidden(drops, field),
{
    lemma_filter_checks_the_doctrine_markers();
    assert(marker_hit(lowercase(field), j));
}

/// Religion is a protected characteristic, matched by its stem: a field
/// whose lowercase name contains `religio` (as in `religion` or
/// `religious_affiliation`), and that is not a declared drop, stops the
/// pipeline, and every report of it gives the reason "protected
/// characteristic".
pub proof fn lemma_religion_fields_are_rejected(
    drops: Seq<Seq<char>>,
    field: Seq<char>,
    source_id: &'static str,
    e: ConnectorError,
)
    requires
        contains_text(lowercase(field), "religio"@),
        !declared(drops, field),
    ensures
        forbidden(drops, field),
        reports_field(e, source_id, field) ==> (e matches ConnectorError::FairHousing { reason, .. }
            && reason@ == "protected characteristic"@),
{
    let l = lowercase(field);
    assert(forbidden_markers()[2].0@ == "religio"@);
    assert(marker_hit(l, 2));
    if reports_field(e, source_id, field) {
        let j = choose|j: int| #[trigger] first_marker(l, j) && e->FairHousing_reason
            == forbidden_markers()[j].1;
        assert(j <= 2) by {
            if j > 2 {
                assert(!marker_hit(l, 2));
            }
        }
        assert(forbidden_markers()[0].1@ == "protected characteristic"@);
        assert(forbidden_markers()[1].1@ == "protected characteristic"@);
        assert(forbidden_markers()[2].1@ == "protected characteristic"@);
    }
}

/// A raw record from a source: field names mapped to values, kept in
/// ascending order of field name, each name at most once.
#[derive(Debug)]
pub struct Record {
    entries: Vec<(String, String)>,
}

impl View for Record {
    type V = Seq<(Seq<char>, Seq<char>)>;

    closed spec fn view(&self) -> Seq<(Seq<char>, Seq<char>)> {
        entry_views(self.entries@)
    }
}

/// Binding a key at its sorted position keeps the keys sorted.
proof fn lemma_bound_at_sorted(s: Seq<(Seq<char>, Seq<char>)>, k: Seq<char>, v: Seq<char>, p: int)
    requires
        keys_sorted(s),
        insert_position(s, k, p),
    ensures
        keys_sorted(bound_at(s, k, v, p)),
{
    let t = bound_at(s, k, v, p);
    if !key_at(s, k, p) {
        assert forall|i: int, j: int| 0 <= i < j < t.len() implies lex_lt(#[trigger] t[i].0, #[trigger] t[j].0) by {
            if j < p {
                assert(t[i] == s[i] && t[j] == s[j]);
            } else if j == p {
                assert(t[i] == s[i]);
            } else if i == p {
                assert(t[j] == s[j - 1]);
                lemma_lex_total(s[p].0, k);
                if j - 1 > p {
                    lemma_lex_transitive(k, s[p].0, s[j - 1].0);
                }
            } else if i < p {
                assert(t[i] == s[i] && t[j] == s[j - 1]);
                if i < j - 1 {
                } else {
                    assert(false);
                }
            } else {
                assert(t[i] == s[i - 1] && t[j] == s[j - 1]);
            }
        }
    } else {
        assert forall|i: int, j: int| 0 <= i < j < t.len() implies lex_lt(#[trigger] t[i].0, #[trigger] t[j].0) by {
            assert(t[i].0 == s[i].0 && t[j].0 == s[j].0);
        }
    }
}

impl Record {
    /// Keys are strictly ascending.
    #[verifier::type_invariant]
    spec fn sorted(self) -> bool {
        keys_sorted(entry_views(self.entries@))
    }

    /// An empty record.
    pub fn new() -> (r: Record)
        ensures
            r@ == Seq::<(Seq<char>, Seq<char>)>::empty(),
    {
        let r = Record { entries: Vec::new() };
        proof {
            assert(r@ =~= Seq::<(Seq<char>, Seq<char>)>::empty());
        }
        r
    }

    /// The number of fields.
    pub fn len(&self) -> (r: usize)
        ensures
            r == self@.len(),
            keys_sorted(self@),
    {
        proof {
            use_type_invariant(self);
        }
        self.entries.len()
    }

    /// Whether the record has a field named `key`.
    pub fn contains_key(&self, key: &str) -> (r: bool)
        ensures
            r == has_key(self@, key@),
    {
        self.get(key).is_some()
    }

    /// The value of the field named `key`, if the record has one.
    pub fn get(&self, key: &str) -> (r: Option<&String>)
        ensures
            r is Some <==> has_key(self@, key@),
            r is Some ==> exists|i: int| key_at(self@, key@, i) && r->Some_0@ == #[trigger] self@[i].1,
    {
        let mut i: usize = 0;
        while i < self.entries.len()
            invariant
                i <= self.entries.len(),
                forall|k: int| 0 <= k < i ==> !key_at(self@, key@, k),
            decreases self.entries.len() - i,
        {
            if compare_str(self.entries[i].0.as_str(), key) == Precedence::Same {
                proof {
                    assert(key_at(self@, key@, i as int));
                    assert(self.entries@[i as int].1@ == self@[i as int].1);
                }
                return Some(&self.entries[i].1);
            }
            proof {
                assert(self@[i as int].0 == self.entries@[i as int].0@);
            }
            i += 1;
        }
        proof {
            assert forall|k: int| !key_at(self@, key@, k) by {
                if 0 <= k < i {
                }
            }
        }
        None
    }

    /// The fields in ascending order of name.
    pub fn entries(&self) -> (r: &[(String, String)])
        ensures
            entry_views(r@) == self@,
            keys_sorted(self@),
    {
        proof {
            use_type_invariant(self);
        }
        self.entries.as_slice()
    }

    /// Bind `key` to `value`, keeping the fields in ascending order of name.
    ///
    /// Returns the value the field had before, if it was present.
    pub fn insert(&mut self, key: String, value: String) -> (r: Option<String>)
        ensures
            exists|p: int| #[trigger] insert_position(old(self)@, key@, p) && {
                &&& final(self)@ == bound_at(old(self)@, key@, value@, p)
                &&& match r {
                    Some(prev) => key_at(old(self)@, key@, p) && prev@ == old(self)@[p].1,
                    None => !key_at(old(self)@, key@, p),
                }
            },
            record_map(final(self)@) == record_map(old(self)@).insert(key@, value@),
    {
        proof {
            use_type_invariant(&*self);
        }
        let mut entries: Vec<(String, String)> = Vec::new();
        std::mem::swap(&mut entries, &mut self.entries);
        let ghost s = entry_views(entries@);
        assert(s == old(self)@);
        let n = entries.len();
        let mut p: usize = 0;
        while p < n && compare_str(entries[p].0.as_str(), key.as_str()) == Precedence::Before
            invariant
                n == entries.len(),
                p <= n,
                s == entry_views(entries@),
                forall|i: int| 0 <= i < p ==> lex_lt(#[trigger] s[i].0, key@),
            decreases n - p,
        {
            p += 1;
        }
        proof {
            assert forall|i: int| p <= i < s.len() implies !lex_lt(#[trigger] s[i].0, key@) by {
                if lex_lt(s[i].0, key@) && i > p {
                    lemma_lex_transitive(s[p as int].0, s[i].0, key@);
                }
            }
            assert(insert_position(s, key@, p as int));
            lemma_bound_at_sorted(s, key@, value@, p as int);
            lemma_bound_at_reads_back(s, key@, value@, p as int);
        }
        if p < n && compare_str(entries[p].0.as_str(), key.as_str()) == Precedence::Same {
            let ghost key_view = key@;
            let ghost value_view = value@;
            let (_, prev) = entries.remove(p);
            entries.insert(p, (key, value));
            proof {
                assert(key_at(s, key_view, p as int));
                assert(prev@ == s[p as int].1);
                assert(entry_views(entries@) =~= bound_at(s, key_view, value_view, p as int));
            }
            self.entries = entries;
            assert(insert_position(old(self)@, key_view, p as int));
            Some(prev)
        } else {
            let ghost key_view = key@;
            let ghost value_view = value@;
            entries.insert(p, (key, value));
            proof {
                assert(!key_at(s, key_view, p as int));
                assert(entry_views(entries@) =~= bound_at(s, key_view, value_view, p as int));
            }
            self.entries = entries;
            assert(insert_position(old(self)@, key_view, p as int));
            None
        }
    }
}

/// The entries of `s` that are not declared drops, in order.
pub open spec fn kept(drops: Seq<Seq<char>>, s: Seq<(Seq<char>, Seq<char>)>) -> Seq<(Seq<char>, Seq<char>)>
    decreases s.len(),
{
    if s.len() == 0 {
        s
    } else {
        let rest = kept(drops, s.drop_last());
        if declared(drops, s.last().0) {
            rest
        } else {
            rest.push(s.last())
        }
    }
}

/// Entry `i` is the first of `s` whose field stops the pipeline.
pub open spec fn first_offender(drops: Seq<Seq<char>>, s: Seq<(Seq<char>, Seq<char>)>, i: int) -> bool {
    &&& 0 <= i < s.len()
    &&& forbidden(drops, s[i].0)
    &&& forall|k: int| 0 <= k < i ==> !forbidden(drops, #[trigger] s[k].0)
}

/// `r` is what the fair-housing filter of `source_id` with the lowercase drop
/// list `drops` answers for a record: the kept fields when no field stops
/// the pipeline, else the error for the first field that does.
pub open spec fn filter_outcome(
    source_id: &'static str,
    drops: Seq<Seq<char>>,
    record: Seq<(Seq<char>, Seq<char>)>,
    r: Result<Record, ConnectorError>,
) -> bool {
    &&& r is Ok <==> forall|i: int| 0 <= i < record.len() ==> !forbidden(drops, #[trigger] record[i].0)
    &&& r is Ok ==> r->Ok_0@ == kept(drops, record)
    &&& r is Err ==> exists|i: int| #[trigger] first_offender(drops, record, i)
        && reports_field(r->Err_0, source_id, record[i].0)
}

/// Every kept entry is an entry of `s` that is not a declared drop.
pub proof fn lemma_kept_entries(drops: Seq<Seq<char>>, s: Seq<(Seq<char>, Seq<char>)>, j: int)
    requires
        0 <= j < kept(drops, s).len(),
    ensures
        exists|m: int| 0 <= m < s.len() && #[trigger] s[m] == kept(drops, s)[j],
        !declared(drops, kept(drops, s)[j].0),
    decreases s.len(),
{
    let rest = kept(drops, s.drop_last());
    if j < rest.len() {
        lemma_kept_entries(drops, s.drop_last(), j);
        let m = choose|m: int| 0 <= m < s.drop_last().len() && #[trigger] s.drop_last()[m] == rest[j];
        assert(s[m] == kept(drops, s)[j]);
    } else {
        assert(s[s.len() - 1] == kept(drops, s)[j]);
    }
}

/// Keeping entries of a record with sorted keys leaves the keys sorted.
proof fn lemma_kept_sorted(drops: Seq<Seq<char>>, s: Seq<(Seq<char>, Seq<char>)>)
    requires
        keys_sorted(s),
    ensures
        keys_sorted(kept(drops, s)),
    decreases s.len(),
{
    if s.len() > 0 {
        let d = s.drop_last();
        assert(keys_sorted(d)) by {
            assert forall|i: int, j: int| 0 <= i < j < d.len() implies lex_lt(#[trigger] d[i].0, #[trigger] d[j].0) by {
                assert(d[i] == s[i] && d[j] == s[j]);
            }
        }
        lemma_kept_sorted(drops, d);
        let rest = kept(drops, d);
        let t = kept(drops, s);
        if !declared(drops, s.last().0) {
            assert forall|i: int, j: int| 0 <= i < j < t.len() implies lex_lt(#[trigger] t[i].0, #[trigger] t[j].0) by {
                if j == t.len() - 1 {
                    lemma_kept_entries(drops, d, i);
                    let m = choose|m: int| 0 <= m < d.len() && #[trigger] d[m] == rest[i];
                    assert(s[m] == d[m]);
                    assert(t[j] == s[s.len() - 1]);
                } else {
                    assert(t[i] == rest[i] && t[j] == rest[j]);
                }
            }
        }
    }
}

impl FairHousingFilter {
    /// Filter a raw record: declared drops are removed, and the first field
    /// (in order of name) that stops the pipeline is reported.
    ///
    /// Succeeds exactly when no field of the record stops the pipeline; the
    /// result then holds the remaining fields, in order, none of which is a
    /// declared drop or carries a forbidden marker.
    pub fn filter(&self, record: Record) -> (r: Result<Record, ConnectorError>)
        ensures
            r is Ok <==> forall|i: int| 0 <= i < record@.len() ==> !forbidden(self.drops(), #[trigger] record@[i].0),
            r is Ok ==> r->Ok_0@ == kept(self.drops(), record@),
            r is Ok ==> forall|j: int| 0 <= j < r->Ok_0@.len() ==> {
                &&& !declared(self.drops(), #[trigger] r->Ok_0@[j].0)
                &&& !has_marker(lowercase(r->Ok_0@[j].0))
            },
            r is Err ==> exists|i: int| #[trigger] first_offender(self.drops(), record@, i)
                && reports_field(r->Err_0, self.spec_source_id(), record@[i].0),
    {
        proof {
            use_type_invariant(&record);
        }
        let ghost s = record@;
        let ghost drops = self.drops();
        let entries = record.entries();
        let mut out: Vec<(String, String)> = Vec::new();
        let mut i: usize = 0;
        while i < entries.len()
            invariant
                entry_views(entries@) == s,
                s == record@,
                drops == self.drops(),
                i <= entries.len(),
                entry_views(out@) == kept(drops, s.take(i as int)),
                forall|k: int| 0 <= k < i ==> !forbidden(drops, #[trigger] s[k].0),
            decreases entries.len() - i,
        {
            proof {
                assert(s.take(i + 1).drop_last() =~= s.take(i as int));
                assert(s.take(i + 1).last() == s[i as int]);
                assert(s[i as int].0 == entries@[i as int].0@);
            }
            let lowered = to_lowercase(entries[i].0.as_str());
            if self.is_declared_lowered(lowered.as_str()) {
                i += 1;
                continue;
            }
            match self.check_field(entries[i].0.as_str()) {
                Err(e) => {
                    proof {
                        assert(first_offender(drops, s, i as int));
                        assert(forbidden(self.drops(), record@[i as int].0));
                    }
                    return Err(e);
                },
                Ok(()) => {},
            }
            out.push((entries[i].0.clone(), entries[i].1.clone()));
            proof {
                assert(entry_views(out@) =~= kept(drops, s.take(i as int)).push(s[i as int]));
            }
            i += 1;
        }
        proof {
            assert(s.take(i as int) =~= s);
            lemma_kept_sorted(drops, s);
            assert forall|j: int| 0 <= j < kept(drops, s).len() implies {
                &&& !declared(drops, #[trigger] kept(drops, s)[j].0)
                &&& !has_marker(lowercase(kept(drops, s)[j].0))
            } by {
                lemma_kept_entries(drops, s, j);
                let m = choose|m: int| 0 <= m < s.len() && #[trigger] s[m] == kept(drops, s)[j];
                assert(!forbidden(drops, s[m].0));
            }
        }
        Ok(Record { entries: out })
    }
}

/// A source of external data.
///
/// Implementing this trait requires declaring a [`RightsPosture`] and a
/// [`TrustTier`]; `ingest` is provided and always runs the fair-housing
/// filter, so no implementor can bypass it by accident.
pub trait Connector {
    /// Stable identifier, e.g. `hud.fmr`.
    fn source_id(&self) -> &'static str;

    /// Trust tier of everything this connector emits.
    fn trust_tier(&self) -> TrustTier;

    /// The documented rights posture, written before connector code exists.
    fn rights_posture(&self) -> &RightsPosture;

    /// Fields this connector knowingly discards; none unless the connector
    /// declares some.
    fn declared_drops(&self) -> (r: &[&'static str])
        default_ensures
            r@ == Seq::<&'static str>::empty(),
    {
        &[]
    }

    /// Run a raw record through the fair-housing boundary: the answer is that
    /// of the filter built from what this connector's `source_id` and
    /// `declared_drops` return. Declared drops are removed silently; an
    /// undeclared forbidden field is an error.
    fn ingest(&self, record: Record) -> (r: Result<Record, ConnectorError>)
        ensures
            exists|source_id: &'static str, drops: &[&'static str]| {
                &&& call_ensures(Self::source_id, (self,), source_id)
                &&& call_ensures(Self::declared_drops, (self,), drops)
                &&& #[trigger] filter_outcome(source_id, lowercased(drops@), record@, r)
            },
    {
        // Called through function values, so that what each call returned is
        // known to be a result of that method (`call_ensures`).
        let source_id_of = Self::source_id;
        let declared_drops_of = Self::declared_drops;
        let source_id = source_id_of(self);
        let drops = declared_drops_of(self);
        let filter = FairHousingFilter::for_connector(source_id, drops);
        let ghost incoming = record@;
        let r = filter.filter(record);
        proof {
            assert(filter_outcome(source_id, lowercased(drops@), incoming, r));
        }
        r
    }
}

} // verus!
