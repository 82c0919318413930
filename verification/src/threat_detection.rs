//! Rule-based threat detection: each enabled rule counts how many of its
//! conditions hold of a request event; a rule whose count reaches its
//! threshold raises a threat, runs its blocking and rate-limiting actions
//! and updates the statistics. Times are milliseconds since the Unix epoch,
//! given by the caller.

use vstd::prelude::*;
use crate::text::{owned, concat, u64_to_string, decimal, signed_decimal, i64_to_string, has_substring, str_contains};
use crate::strvec::views;

verus! {

#[derive(Debug, Clone, Copy, PartialEq, Eq, Structural)]
pub enum ThreatSeverity {
    Low,
    Medium,
    High,
    Critical,
}

#[derive(Debug, Clone, Copy, PartialEq, Eq, Structural)]
pub enum ThreatType {
    DDoS,
    BruteForce,
    UnauthorizedAccess,
    MaliciousTransaction,
    DataBreach,
    NetworkIntrusion,
    Malware,
    InsiderThreat,
    ConfigurationBreach,
    ConsensusAttack,
    StorageAttack,
    CrossChainAttack,
}

#[derive(Debug, Clone, Copy, PartialEq, Eq, Structural)]
pub enum ConditionOperator {
    Equals,
    NotEquals,
    GreaterThan,
    LessThan,
    Contains,
    NotContains,
    Regex,
    In,
    NotIn,
}

#[derive(Debug, Clone, Copy, PartialEq, Eq, Structural)]
pub enum ActionType {
    BlockIP,
    RateLimit,
    Alert,
    Log,
    Quarantine,
    Shutdown,
    Notify,
    Blacklist,
    Whitelist,
    Custom,
}

#[derive(Debug, Clone, Copy, PartialEq, Eq, Structural)]
pub enum ThreatStatus {
    Active,
    Investigating,
    Responding,
    Resolved,
    FalsePositive,
    Escalated,
}

/// A scalar value of an event field or of a condition.
#[derive(Debug)]
pub enum FieldValue {
    Null,
    Bool(bool),
    Number(i128),
    Text(String),
}

/// The value a condition compares with.
#[derive(Debug)]
pub enum ConditionValue {
    Scalar(FieldValue),
    List(Vec<FieldValue>),
}

/// A condition on one field of an event.
#[derive(Debug)]
pub struct ThreatCondition {
    pub field: String,
    pub operator: ConditionOperator,
    pub value: ConditionValue,
    pub time_window_seconds: Option<u64>,
}

/// An action run when a rule fires.
#[derive(Debug)]
pub struct ThreatAction {
    pub action_type: ActionType,
    pub parameters: Vec<(String, FieldValue)>,
    pub delay_seconds: Option<u64>,
}

/// A detection rule.
#[derive(Debug)]
pub struct ThreatRule {
    pub id: String,
    pub name: String,
    pub description: String,
    pub threat_type: ThreatType,
    pub severity: ThreatSeverity,
    pub conditions: Vec<ThreatCondition>,
    pub actions: Vec<ThreatAction>,
    pub enabled: bool,
    pub cooldown_seconds: u64,
    pub threshold: u32,
    pub time_window_seconds: u64,
}

/// A request as the detector sees it.
#[derive(Debug)]
pub struct SecurityEvent {
    pub timestamp_ms: i64,
    pub ip_address: String,
    pub user_agent: Option<String>,
    pub endpoint: String,
    pub method: String,
    pub status_code: u16,
    pub request_count: u32,
    pub error_count: u32,
    pub response_time_ms: u64,
    pub payload_size: u64,
    pub headers: Vec<(String, String)>,
    pub query_params: Vec<(String, String)>,
}

/// Where a threat came from.
#[derive(Debug)]
pub struct ThreatSource {
    pub ip_address: String,
    pub user_agent: Option<String>,
    pub node_id: Option<String>,
    pub location: Option<String>,
    pub previous_incidents: u32,
}

/// A raised threat.
#[derive(Debug)]
pub struct DetectedThreat {
    pub id: String,
    pub timestamp_ms: i64,
    pub threat_type: ThreatType,
    pub severity: ThreatSeverity,
    pub source: ThreatSource,
    pub rule_id: String,
    pub description: String,
    pub evidence: Vec<(String, FieldValue)>,
    pub status: ThreatStatus,
    pub false_positive: bool,
    pub resolved: bool,
    pub resolution_time_ms: Option<i64>,
}

/// Detection statistics; per-severity and per-type counts are indexed by
/// the variant's position in its declaration.
#[derive(Debug, Clone, Copy)]
pub struct ThreatStats {
    pub total_threats: u64,
    pub threats_by_severity: [u64; 4],
    pub threats_by_type: [u64; 12],
    pub active_threats: u64,
    pub resolved_threats: u64,
    pub false_positives: u64,
    pub average_response_time_ms: u64,
    pub blocked_ips: u64,
    pub rate_limited_requests: u64,
}

// ---------------------------------------------------------------------------
// Values and conditions

/// A scalar as the detector compares it: null, a flag, an integer or text.
pub enum Scalar {
    Null,
    Flag(bool),
    Int(int),
    Txt(Seq<char>),
}

/// The mathematical value of a scalar.
pub open spec fn scalar_of(v: FieldValue) -> Scalar {
    match v {
        FieldValue::Null => Scalar::Null,
        FieldValue::Bool(b) => Scalar::Flag(b),
        FieldValue::Number(n) => Scalar::Int(n as int),
        FieldValue::Text(s) => Scalar::Txt(s@),
    }
}

/// The value of `field` in `e` (Null for an unknown field or a missing
/// user agent).
pub open spec fn field_value(field: Seq<char>, e: SecurityEvent) -> Scalar {
    if field == "ip_address"@ {
        Scalar::Txt(e.ip_address@)
    } else if field == "user_agent"@ {
        match e.user_agent {
            Some(u) => Scalar::Txt(u@),
            None => Scalar::Null,
        }
    } else if field == "request_count"@ {
        Scalar::Int(e.request_count as int)
    } else if field == "error_count"@ {
        Scalar::Int(e.error_count as int)
    } else if field == "response_time_ms"@ {
        Scalar::Int(e.response_time_ms as int)
    } else if field == "endpoint"@ {
        Scalar::Txt(e.endpoint@)
    } else if field == "method"@ {
        Scalar::Txt(e.method@)
    } else if field == "status_code"@ {
        Scalar::Int(e.status_code as int)
    } else if field == "payload_size"@ {
        Scalar::Int(e.payload_size as int)
    } else {
        Scalar::Null
    }
}

/// Whether the regular expression `pattern` compiles and matches somewhere
/// in `text` (`None` when it does not compile).
pub uninterp spec fn regex_match(pattern: Seq<char>, text: Seq<char>) -> Option<bool>;

/// Compiles `pattern` with regex's `Regex::new` and tests `text` with
/// `is_match`. Claimed: the result is the named outcome of that pair,
/// `None` when the pattern does not compile.
#[verifier::external_body]
fn regex_is_match(pattern: &str, text: &str) -> (r: Option<bool>)
    ensures
        r == regex_match(pattern@, text@),
{
    match regex::Regex::new(pattern) {
        Ok(re) => Some(re.is_match(text)),
        Err(_) => None,
    }
}

/// Whether condition `c` holds of the field value `v`.
pub open spec fn condition_holds(op: ConditionOperator, v: Scalar, value: ConditionValue) -> bool {
    match op {
        ConditionOperator::Equals => value matches ConditionValue::Scalar(w) && scalar_of(w) == v,
        ConditionOperator::NotEquals => !(value matches ConditionValue::Scalar(w) && scalar_of(w) == v),
        ConditionOperator::GreaterThan => v matches Scalar::Int(a) && value matches ConditionValue::Scalar(w)
            && scalar_of(w) matches Scalar::Int(b) && a > b,
        ConditionOperator::LessThan => v matches Scalar::Int(a) && value matches ConditionValue::Scalar(w)
            && scalar_of(w) matches Scalar::Int(b) && a < b,
        ConditionOperator::Contains => v matches Scalar::Txt(a) && value matches ConditionValue::Scalar(w)
            && scalar_of(w) matches Scalar::Txt(b) && has_substring(a, b),
        ConditionOperator::NotContains => v matches Scalar::Txt(a) && value matches ConditionValue::Scalar(w)
            && scalar_of(w) matches Scalar::Txt(b) && !has_substring(a, b),
        ConditionOperator::Regex => v matches Scalar::Txt(a) && value matches ConditionValue::Scalar(w)
            && scalar_of(w) matches Scalar::Txt(b) && regex_match(b, a) == Some(true),
        ConditionOperator::In => value matches ConditionValue::List(ws) && exists|i: int|
            0 <= i < ws@.len() && scalar_of(#[trigger] ws@[i]) == v,
        ConditionOperator::NotIn => value matches ConditionValue::List(ws) && !exists|i: int|
            0 <= i < ws@.len() && scalar_of(#[trigger] ws@[i]) == v,
    }
}

/// Whether condition `c` holds of event `e`.
pub open spec fn condition_matches(c: ThreatCondition, e: SecurityEvent) -> bool {
    condition_holds(c.operator, field_value(c.field@, e), c.value)
}

/// A Contains condition on a text field holds exactly when the event's
/// field text has the condition's text somewhere inside it (the field is
/// searched, the condition's text is what is looked for); in particular a
/// field whose text equals the condition's text always matches.
pub proof fn lemma_contains_searches_the_field(c: ThreatCondition, e: SecurityEvent, field_text: Seq<char>, needle: String)
    requires
        c.operator == ConditionOperator::Contains,
        field_value(c.field@, e) == Scalar::Txt(field_text),
        c.value == ConditionValue::Scalar(FieldValue::Text(needle)),
    ensures
        condition_matches(c, e) <==> exists|i: int| 0 <= i && i + needle@.len() <= field_text.len()
            && #[trigger] field_text.subrange(i, i + needle@.len()) == needle@,
        field_text == needle@ ==> condition_matches(c, e),
{
    if field_text == needle@ {
        assert(field_text.subrange(0, needle@.len() as int) =~= needle@);
        assert(crate::text::occurs_at(field_text, needle@, 0));
    }
    if exists|i: int| 0 <= i && i + needle@.len() <= field_text.len()
        && #[trigger] field_text.subrange(i, i + needle@.len()) == needle@ {
        let i = choose|i: int| 0 <= i && i + needle@.len() <= field_text.len()
            && #[trigger] field_text.subrange(i, i + needle@.len()) == needle@;
        assert(crate::text::occurs_at(field_text, needle@, i));
    }
}

/// Number of `cs` that hold of `e`.
pub open spec fn matching_count(cs: Seq<ThreatCondition>, e: SecurityEvent) -> nat
    decreases cs.len(),
{
    if cs.len() == 0 {
        0
    } else {
        matching_count(cs.drop_last(), e) + if condition_matches(cs.last(), e) { 1nat } else { 0nat }
    }
}

/// Whether rule `r` fires on `e`: enough of its conditions hold.
pub open spec fn rule_fires(r: ThreatRule, e: SecurityEvent) -> bool {
    matching_count(r.conditions@, e) >= r.threshold
}

/// Whether two scalars are equal.
fn same_value(a: &FieldValue, b: &FieldValue) -> (r: bool)
    ensures
        r == (scalar_of(*a) == scalar_of(*b)),
{
    match (a, b) {
        (FieldValue::Null, FieldValue::Null) => true,
        (FieldValue::Bool(x), FieldValue::Bool(y)) => *x == *y,
        (FieldValue::Number(x), FieldValue::Number(y)) => *x == *y,
        (FieldValue::Text(x), FieldValue::Text(y)) => *x == *y,
        _ => false,
    }
}

/// Whether `s` equals the literal `lit`.
fn is_field(s: &String, lit: &str) -> (r: bool)
    ensures
        r == (s@ == lit@),
{
    let l = owned(lit);
    *s == l
}

/// The value of `field` in `e`.
pub fn get_event_field_value(field: &String, e: &SecurityEvent) -> (v: FieldValue)
    ensures
        scalar_of(v) == field_value(field@, *e),
{
    if is_field(field, "ip_address") {
        FieldValue::Text(e.ip_address.clone())
    } else if is_field(field, "user_agent") {
        match &e.user_agent {
            Some(u) => FieldValue::Text(u.clone()),
            None => FieldValue::Null,
        }
    } else if is_field(field, "request_count") {
        FieldValue::Number(e.request_count as i128)
    } else if is_field(field, "error_count") {
        FieldValue::Number(e.error_count as i128)
    } else if is_field(field, "response_time_ms") {
        FieldValue::Number(e.response_time_ms as i128)
    } else if is_field(field, "endpoint") {
        FieldValue::Text(e.endpoint.clone())
    } else if is_field(field, "method") {
        FieldValue::Text(e.method.clone())
    } else if is_field(field, "status_code") {
        FieldValue::Number(e.status_code as i128)
    } else if is_field(field, "payload_size") {
        FieldValue::Number(e.payload_size as i128)
    } else {
        FieldValue::Null
    }
}

/// Whether some item of `ws` equals `v`.
fn list_contains(ws: &Vec<FieldValue>, v: &FieldValue) -> (r: bool)
    ensures
        r == exists|i: int| 0 <= i < ws@.len() && scalar_of(#[trigger] ws@[i]) == scalar_of(*v),
{
    let mut i: usize = 0;
    while i < ws.len()
        invariant
            i <= ws@.len(),
            forall|j: int| 0 <= j < i ==> scalar_of(#[trigger] ws@[j]) != scalar_of(*v),
        decreases ws@.len() - i,
    {
        if same_value(&ws[i], v) {
            assert(scalar_of(ws@[i as int]) == scalar_of(*v));
            return true;
        }
        i = i + 1;
    }
    false
}

/// Whether condition `c` holds of event `e`.
pub fn evaluate_condition(c: &ThreatCondition, e: &SecurityEvent) -> (b: bool)
    ensures
        b == condition_matches(*c, *e),
{
    let v = get_event_field_value(&c.field, e);
    match c.operator {
        ConditionOperator::Equals => match &c.value {
            ConditionValue::Scalar(w) => same_value(w, &v),
            ConditionValue::List(_) => false,
        },
        ConditionOperator::NotEquals => match &c.value {
            ConditionValue::Scalar(w) => !same_value(w, &v),
            ConditionValue::List(_) => true,
        },
        ConditionOperator::GreaterThan => match (&v, &c.value) {
            (FieldValue::Number(a), ConditionValue::Scalar(FieldValue::Number(b))) => *a > *b,
            _ => false,
        },
        ConditionOperator::LessThan => match (&v, &c.value) {
            (FieldValue::Number(a), ConditionValue::Scalar(FieldValue::Number(b))) => *a < *b,
            _ => false,
        },
        ConditionOperator::Contains => match (&v, &c.value) {
            (FieldValue::Text(a), ConditionValue::Scalar(FieldValue::Text(b))) => str_contains(a.as_str(), b.as_str()),
            _ => false,
        },
        ConditionOperator::NotContains => match (&v, &c.value) {
            (FieldValue::Text(a), ConditionValue::Scalar(FieldValue::Text(b))) => !str_contains(a.as_str(), b.as_str()),
            _ => false,
        },
        ConditionOperator::Regex => match (&v, &c.value) {
            (FieldValue::Text(a), ConditionValue::Scalar(FieldValue::Text(b))) => match regex_is_match(b.as_str(), a.as_str()) {
                Some(m) => m,
                None => false,
            },
            _ => false,
        },
        ConditionOperator::In => match &c.value {
            ConditionValue::List(ws) => list_contains(ws, &v),
            ConditionValue::Scalar(_) => false,
        },
        ConditionOperator::NotIn => match &c.value {
            ConditionValue::List(ws) => !list_contains(ws, &v),
            ConditionValue::Scalar(_) => false,
        },
    }
}

/// Whether rule `r` fires on event `e`.
pub fn evaluate_rule(r: &ThreatRule, e: &SecurityEvent) -> (b: bool)
    ensures
        b == rule_fires(*r, *e),
{
    let mut count: u64 = 0;
    let mut i: usize = 0;
    while i < r.conditions.len()
        invariant
            i <= r.conditions@.len(),
            count == matching_count(r.conditions@.take(i as int), *e),
            count <= i,
        decreases r.conditions@.len() - i,
    {
        proof {
            assert(r.conditions@.take(i + 1).drop_last() =~= r.conditions@.take(i as int));
        }
        if evaluate_condition(&r.conditions[i], e) {
            count = count + 1;
        }
        i = i + 1;
    }
    assert(r.conditions@.take(i as int) =~= r.conditions@);
    count >= r.threshold as u64
}

} // verus!

verus! {

/// Position of a severity among the severities.
pub open spec fn severity_index(s: ThreatSeverity) -> int {
    match s {
        ThreatSeverity::Low => 0,
        ThreatSeverity::Medium => 1,
        ThreatSeverity::High => 2,
        ThreatSeverity::Critical => 3,
    }
}

/// Position of a threat type among the threat types.
pub open spec fn type_index(t: ThreatType) -> int {
    match t {
        ThreatType::DDoS => 0,
        ThreatType::BruteForce => 1,
        ThreatType::UnauthorizedAccess => 2,
        ThreatType::MaliciousTransaction => 3,
        ThreatType::DataBreach => 4,
        ThreatType::NetworkIntrusion => 5,
        ThreatType::Malware => 6,
        ThreatType::InsiderThreat => 7,
        ThreatType::ConfigurationBreach => 8,
        ThreatType::ConsensusAttack => 9,
        ThreatType::StorageAttack => 10,
        ThreatType::CrossChainAttack => 11,
    }
}

fn severity_pos(s: ThreatSeverity) -> (i: usize)
    ensures
        i == severity_index(s),
{
    match s {
        ThreatSeverity::Low => 0,
        ThreatSeverity::Medium => 1,
        ThreatSeverity::High => 2,
        ThreatSeverity::Critical => 3,
    }
}

fn type_pos(t: ThreatType) -> (i: usize)
    ensures
        i == type_index(t),
{
    match t {
        ThreatType::DDoS => 0,
        ThreatType::BruteForce => 1,
        ThreatType::UnauthorizedAccess => 2,
        ThreatType::MaliciousTransaction => 3,
        ThreatType::DataBreach => 4,
        ThreatType::NetworkIntrusion => 5,
        ThreatType::Malware => 6,
        ThreatType::InsiderThreat => 7,
        ThreatType::ConfigurationBreach => 8,
        ThreatType::ConsensusAttack => 9,
        ThreatType::StorageAttack => 10,
        ThreatType::CrossChainAttack => 11,
    }
}

/// How long a rate limit set by a rule lasts.
pub const RATE_LIMIT_MS: i64 = 300000;

/// The ids of a list of rules.
pub open spec fn rule_ids(rs: Seq<ThreatRule>) -> Seq<Seq<char>> {
    rs.map_values(|r: ThreatRule| r.id@)
}

/// The ids of a list of threats.
pub open spec fn threat_ids(ts: Seq<DetectedThreat>) -> Seq<Seq<char>> {
    ts.map_values(|t: DetectedThreat| t.id@)
}

/// The id given to threats raised at `now`.
pub open spec fn threat_id_at(now: i64) -> Seq<char> {
    "threat_"@ + signed_decimal(now as int)
}

/// `t` is the threat rule `r` raises on `e` at `now`.
pub open spec fn raised_by(t: DetectedThreat, r: ThreatRule, e: SecurityEvent, now: i64) -> bool {
    &&& t.id@ == threat_id_at(now)
    &&& t.timestamp_ms == now
    &&& t.threat_type == r.threat_type
    &&& t.severity == r.severity
    &&& t.source.ip_address@ == e.ip_address@
    &&& t.rule_id@ == r.id@
    &&& t.description@ == r.description@
    &&& t.status == ThreatStatus::Active
    &&& !t.false_positive
    &&& !t.resolved
    &&& t.resolution_time_ms is None
}

/// The positions of the enabled rules among `rs` that fire on `e`.
pub open spec fn firing(rs: Seq<ThreatRule>, e: SecurityEvent) -> Seq<int>
    decreases rs.len(),
{
    if rs.len() == 0 {
        Seq::empty()
    } else {
        let prev = firing(rs.drop_last(), e);
        if rs.last().enabled && rule_fires(rs.last(), e) {
            prev.push(rs.len() - 1)
        } else {
            prev
        }
    }
}

/// The rule engine's state.
pub struct ThreatDetectionEngine {
    rules: Vec<ThreatRule>,
    detected_threats: Vec<DetectedThreat>,
    blacklisted_ips: Vec<String>,
    rate_limits: Vec<(String, i64)>,
    stats: ThreatStats,
    enabled: bool,
}

impl ThreatDetectionEngine {
    pub closed spec fn rules(&self) -> Seq<ThreatRule> {
        self.rules@
    }

    pub closed spec fn threats(&self) -> Seq<DetectedThreat> {
        self.detected_threats@
    }

    pub closed spec fn blacklist(&self) -> Seq<Seq<char>> {
        views(self.blacklisted_ips@)
    }

    /// Addresses and the time their rate limit ends.
    pub closed spec fn limits(&self) -> Seq<(String, i64)> {
        self.rate_limits@
    }

    pub closed spec fn stats_view(&self) -> ThreatStats {
        self.stats
    }

    pub closed spec fn is_enabled(&self) -> bool {
        self.enabled
    }

    /// Rule and threat ids are distinct.
    pub open spec fn wf(&self) -> bool {
        &&& rule_ids(self.rules()).no_duplicates()
        &&& threat_ids(self.threats()).no_duplicates()
    }

    /// No rules, threats, blacklist or limits; zero statistics; enabled.
    pub fn new() -> (e: Self)
        ensures
            e.wf(),
            e.rules().len() == 0,
            e.threats().len() == 0,
            e.blacklist().len() == 0,
            e.limits().len() == 0,
            e.stats_view().total_threats == 0,
            e.stats_view().active_threats == 0,
            e.stats_view().resolved_threats == 0,
            e.stats_view().false_positives == 0,
            e.stats_view().blocked_ips == 0,
            e.stats_view().rate_limited_requests == 0,
            forall|i: int| 0 <= i < 4 ==> e.stats_view().threats_by_severity@[i] == 0,
            forall|i: int| 0 <= i < 12 ==> e.stats_view().threats_by_type@[i] == 0,
            e.is_enabled(),
    {
        let e = ThreatDetectionEngine {
            rules: Vec::new(),
            detected_threats: Vec::new(),
            blacklisted_ips: Vec::new(),
            rate_limits: Vec::new(),
            stats: ThreatStats {
                total_threats: 0,
                threats_by_severity: [0u64; 4],
                threats_by_type: [0u64; 12],
                active_threats: 0,
                resolved_threats: 0,
                false_positives: 0,
                average_response_time_ms: 0,
                blocked_ips: 0,
                rate_limited_requests: 0,
            },
            enabled: true,
        };
        assert(rule_ids(e.rules@) =~= Seq::<Seq<char>>::empty());
        assert(threat_ids(e.detected_threats@) =~= Seq::<Seq<char>>::empty());
        assert(views(e.blacklisted_ips@) =~= Seq::<Seq<char>>::empty());
        e
    }

    /// Whether detection is on.
    pub fn enabled(&self) -> (b: bool)
        ensures
            b == self.is_enabled(),
    {
        self.enabled
    }

    /// Turns detection on.
    pub fn enable(&mut self)
        ensures
            final(self).is_enabled(),
            final(self).rules() == old(self).rules(),
            final(self).threats() == old(self).threats(),
            final(self).blacklist() == old(self).blacklist(),
            final(self).limits() == old(self).limits(),
            final(self).stats_view() == old(self).stats_view(),
    {
        self.enabled = true;
    }

    /// Turns detection off.
    pub fn disable(&mut self)
        ensures
            !final(self).is_enabled(),
            final(self).rules() == old(self).rules(),
            final(self).threats() == old(self).threats(),
            final(self).blacklist() == old(self).blacklist(),
            final(self).limits() == old(self).limits(),
            final(self).stats_view() == old(self).stats_view(),
    {
        self.enabled = false;
    }

    /// Position of the rule with id `id`.
    fn find_rule(&self, id: &String) -> (r: Option<usize>)
        ensures
            match r {
                Some(i) => i < self.rules().len() && rule_ids(self.rules()).index_of_first(id@) == Some(i as int),
                None => rule_ids(self.rules()).index_of_first(id@) is None && !rule_ids(self.rules()).contains(id@),
            },
    {
        let mut i: usize = 0;
        while i < self.rules.len()
            invariant
                i <= self.rules@.len(),
                forall|j: int| 0 <= j < i ==> self.rules@[j].id@ != id@,
            decreases self.rules@.len() - i,
        {
            if self.rules[i].id == *id {
                proof {
                    let ks = rule_ids(self.rules@);
                    ks.index_of_first_ensures(id@);
                    assert(ks[i as int] == id@);
                    let f = ks.index_of_first(id@)->0;
                    if f < i {
                        assert(ks[f] == self.rules@[f].id@);
                    }
                }
                return Some(i);
            }
            i = i + 1;
        }
        proof {
            let ks = rule_ids(self.rules@);
            ks.index_of_first_ensures(id@);
            if ks.contains(id@) {
                let j = choose|j: int| 0 <= j < ks.len() && ks[j] == id@;
                assert(self.rules@[j].id@ == id@);
            }
        }
        None
    }

    /// Adds `rule`, replacing the rule with its id in place.
    pub fn add_rule(&mut self, rule: ThreatRule)
        requires
            old(self).wf(),
        ensures
            final(self).wf(),
            match rule_ids(old(self).rules()).index_of_first(rule.id@) {
                Some(i) => final(self).rules() == old(self).rules().update(i, rule),
                None => final(self).rules() == old(self).rules().push(rule),
            },
            final(self).threats() == old(self).threats(),
            final(self).blacklist() == old(self).blacklist(),
            final(self).limits() == old(self).limits(),
            final(self).stats_view() == old(self).stats_view(),
            final(self).is_enabled() == old(self).is_enabled(),
    {
        let ghost before = self.rules@;
        match self.find_rule(&rule.id) {
            Some(i) => {
                proof {
                    rule_ids(before).index_of_first_ensures(rule.id@);
                    assert(rule_ids(before)[i as int] == before[i as int].id@);
                }
                let _ = self.rules.remove(i);
                self.rules.insert(i, rule);
                proof {
                    assert(self.rules@ =~= before.update(i as int, rule));
                    assert(rule_ids(self.rules@) =~= rule_ids(before));
                }
            },
            None => {
                self.rules.push(rule);
                proof {
                    let ks = rule_ids(before);
                    let nks = rule_ids(self.rules@);
                    assert(nks =~= ks.push(rule.id@));
                    assert forall|a: int, b: int| 0 <= a < nks.len() && 0 <= b < nks.len() && a != b implies nks[a] != nks[b] by {
                        if a < ks.len() && b < ks.len() {
                            assert(nks[a] == ks[a] && nks[b] == ks[b]);
                        } else if a < ks.len() {
                            assert(nks[a] == ks[a]);
                        } else if b < ks.len() {
                            assert(nks[b] == ks[b]);
                        }
                    }
                }
            },
        }
    }

    /// Removes the rule with id `rule_id`, if any.
    pub fn remove_rule(&mut self, rule_id: &str)
        requires
            old(self).wf(),
        ensures
            final(self).wf(),
            match rule_ids(old(self).rules()).index_of_first(rule_id@) {
                Some(i) => final(self).rules() == old(self).rules().remove(i),
                None => final(self).rules() == old(self).rules(),
            },
            !rule_ids(final(self).rules()).contains(rule_id@),
            final(self).threats() == old(self).threats(),
            final(self).blacklist() == old(self).blacklist(),
            final(self).limits() == old(self).limits(),
            final(self).stats_view() == old(self).stats_view(),
            final(self).is_enabled() == old(self).is_enabled(),
    {
        let id = owned(rule_id);
        let ghost before = self.rules@;
        match self.find_rule(&id) {
            Some(i) => {
                let _ = self.rules.remove(i);
                proof {
                    let ks = rule_ids(before);
                    let nks = rule_ids(self.rules@);
                    assert(nks =~= ks.remove(i as int));
                    crate::cache_system::lemma_no_dup_remove(ks, i as int);
                    ks.index_of_first_ensures(rule_id@);
                    if nks.contains(rule_id@) {
                        let j = choose|j: int| 0 <= j < nks.len() && nks[j] == rule_id@;
                        let j2 = if j < i { j } else { j + 1 };
                        assert(nks[j] == ks[j2]);
                    }
                }
            },
            None => {},
        }
    }

    /// The rules, in the order they were added.
    pub fn get_rules(&self) -> (r: &Vec<ThreatRule>)
        ensures
            r@ == self.rules(),
    {
        &self.rules
    }

    /// Whether `ip` is blacklisted.
    pub fn is_ip_blacklisted(&self, ip: &str) -> (b: bool)
        ensures
            b == self.blacklist().contains(ip@),
    {
        let k = owned(ip);
        crate::strvec::contains_string(&self.blacklisted_ips, &k)
    }

    /// Whether `ip` is rate limited at `now`: its first limit has not ended.
    pub fn is_ip_rate_limited(&self, ip: &str, now_ms: i64) -> (b: bool)
        ensures
            b == (match limit_index(self.limits(), ip@) {
                Some(i) => now_ms < self.limits()[i].1,
                None => false,
            }),
    {
        let k = owned(ip);
        let mut i: usize = 0;
        while i < self.rate_limits.len()
            invariant
                i <= self.rate_limits@.len(),
                k@ == ip@,
                forall|j: int| 0 <= j < i ==> self.rate_limits@[j].0@ != ip@,
            decreases self.rate_limits@.len() - i,
        {
            if self.rate_limits[i].0 == k {
                proof {
                    let ks = limit_owners(self.rate_limits@);
                    ks.index_of_first_ensures(ip@);
                    assert(ks[i as int] == ip@);
                    let f = ks.index_of_first(ip@)->0;
                    if f < i {
                        assert(ks[f] == self.rate_limits@[f].0@);
                    }
                }
                return now_ms < self.rate_limits[i].1;
            }
            i = i + 1;
        }
        proof {
            let ks = limit_owners(self.rate_limits@);
            ks.index_of_first_ensures(ip@);
            if ks.contains(ip@) {
                let j = choose|j: int| 0 <= j < ks.len() && ks[j] == ip@;
                assert(self.rate_limits@[j].0@ == ip@);
            }
        }
        false
    }

    /// The statistics.
    pub fn get_stats(&self) -> (s: ThreatStats)
        ensures
            s == self.stats_view(),
    {
        self.stats
    }

    /// The detected threats.
    pub fn get_detected_threats(&self) -> (r: &Vec<DetectedThreat>)
        ensures
            r@ == self.threats(),
    {
        &self.detected_threats
    }

    /// The detected threats that are still active.
    pub fn get_active_threats(&self) -> (r: Vec<&DetectedThreat>)
        ensures
            r@.len() <= self.threats().len(),
            forall|i: int| 0 <= i < r@.len() ==> (#[trigger] r@[i]).status == ThreatStatus::Active && self.threats().contains(*r@[i]),
            forall|i: int| 0 <= i < self.threats().len() && (#[trigger] self.threats()[i]).status == ThreatStatus::Active
                ==> exists|j: int| 0 <= j < r@.len() && *r@[j] == self.threats()[i],
    {
        let mut r: Vec<&DetectedThreat> = Vec::new();
        let mut i: usize = 0;
        while i < self.detected_threats.len()
            invariant
                i <= self.detected_threats@.len(),
                r@.len() <= i,
                forall|k: int| 0 <= k < r@.len() ==> (#[trigger] r@[k]).status == ThreatStatus::Active && self.detected_threats@.contains(*r@[k]),
                forall|k: int| 0 <= k < i && (#[trigger] self.detected_threats@[k]).status == ThreatStatus::Active
                    ==> exists|j: int| 0 <= j < r@.len() && *r@[j] == self.detected_threats@[k],
            decreases self.detected_threats@.len() - i,
        {
            let t = &self.detected_threats[i];
            let ghost before = r@;
            if t.status == ThreatStatus::Active {
                r.push(t);
            }
            proof {
                assert forall|k: int| 0 <= k < i + 1 && (#[trigger] self.detected_threats@[k]).status == ThreatStatus::Active
                    implies exists|j: int| 0 <= j < r@.len() && *r@[j] == self.detected_threats@[k] by {
                    if k < i {
                        let j = choose|j: int| 0 <= j < before.len() && *before[j] == self.detected_threats@[k];
                        assert(r@[j] == before[j]);
                    } else {
                        assert(*r@[r@.len() - 1] == self.detected_threats@[k]);
                    }
                }
            }
            i = i + 1;
        }
        r
    }
}

/// The addresses of a list of limits.
pub open spec fn limit_owners(ls: Seq<(String, i64)>) -> Seq<Seq<char>> {
    ls.map_values(|e: (String, i64)| e.0@)
}

/// Position of the first limit for `ip`.
pub open spec fn limit_index(ls: Seq<(String, i64)>, ip: Seq<char>) -> Option<int> {
    limit_owners(ls).index_of_first(ip)
}

} // verus!

verus! {

/// Number of the rules at positions `idx` with severity `s`.
pub open spec fn severity_count(rs: Seq<ThreatRule>, idx: Seq<int>, s: ThreatSeverity) -> nat
    decreases idx.len(),
{
    if idx.len() == 0 {
        0
    } else {
        severity_count(rs, idx.drop_last(), s) + if rs[idx.last()].severity == s { 1nat } else { 0nat }
    }
}

/// Number of the rules at positions `idx` with threat type `t`.
pub open spec fn type_count(rs: Seq<ThreatRule>, idx: Seq<int>, t: ThreatType) -> nat
    decreases idx.len(),
{
    if idx.len() == 0 {
        0
    } else {
        type_count(rs, idx.drop_last(), t) + if rs[idx.last()].threat_type == t { 1nat } else { 0nat }
    }
}

/// Number of actions of type `a` among `acts`.
pub open spec fn actions_of(acts: Seq<ThreatAction>, a: ActionType) -> nat
    decreases acts.len(),
{
    if acts.len() == 0 {
        0
    } else {
        actions_of(acts.drop_last(), a) + if acts.last().action_type == a { 1nat } else { 0nat }
    }
}

/// Number of actions of type `a` of the rules at positions `idx`.
pub open spec fn action_total(rs: Seq<ThreatRule>, idx: Seq<int>, a: ActionType) -> nat
    decreases idx.len(),
{
    if idx.len() == 0 {
        0
    } else {
        action_total(rs, idx.drop_last(), a) + actions_of(rs[idx.last()].actions@, a)
    }
}

impl ThreatDetectionEngine {
    /// The statistics have room for `n` more threats and actions.
    pub open spec fn room_for(&self, n: nat) -> bool {
        let s = self.stats_view();
        &&& s.total_threats + n <= u64::MAX
        &&& s.active_threats + n <= u64::MAX
        &&& forall|i: int| 0 <= i < 4 ==> s.threats_by_severity@[i] + n <= u64::MAX
        &&& forall|i: int| 0 <= i < 12 ==> s.threats_by_type@[i] + n <= u64::MAX
        &&& s.blocked_ips + n <= u64::MAX
        &&& s.rate_limited_requests + n <= u64::MAX
    }

    /// Adds `ip` to the blacklist unless it is there.
    fn blacklist_ip(&mut self, ip: &String)
        ensures
            forall|x: Seq<char>| #[trigger] final(self).blacklist().contains(x) <==> old(self).blacklist().contains(x) || x == ip@,
            final(self).rules() == old(self).rules(),
            final(self).threats() == old(self).threats(),
            final(self).limits() == old(self).limits(),
            final(self).stats_view() == old(self).stats_view(),
            final(self).is_enabled() == old(self).is_enabled(),
    {
        if !crate::strvec::contains_string(&self.blacklisted_ips, ip) {
            let ghost before = self.blacklisted_ips@;
            self.blacklisted_ips.push(ip.clone());
            proof {
                assert(views(self.blacklisted_ips@) =~= views(before).push(ip@));
                assert forall|x: Seq<char>| #[trigger] views(self.blacklisted_ips@).contains(x) <==> views(before).contains(x) || x == ip@ by {
                    if views(self.blacklisted_ips@).contains(x) {
                        let j = choose|j: int| 0 <= j < views(self.blacklisted_ips@).len() && views(self.blacklisted_ips@)[j] == x;
                        if j < before.len() {
                            assert(views(before)[j] == x);
                        }
                    }
                    if views(before).contains(x) {
                        let j = choose|j: int| 0 <= j < views(before).len() && views(before)[j] == x;
                        assert(views(self.blacklisted_ips@)[j] == x);
                    }
                    if x == ip@ {
                        assert(views(self.blacklisted_ips@)[before.len() as int] == x);
                    }
                }
            }
        }
    }

    /// Sets the rate limit of `ip` to end at `until` (the first entry for
    /// `ip` is replaced, else one is added).
    fn limit_ip(&mut self, ip: &String, until: i64)
        ensures
            limit_index(final(self).limits(), ip@) matches Some(i) && final(self).limits()[i].1 == until,
            forall|x: Seq<char>| x != ip@ ==> #[trigger] limit_index(final(self).limits(), x) == limit_index(old(self).limits(), x)
                && (limit_index(old(self).limits(), x) matches Some(j) ==> final(self).limits()[j] == old(self).limits()[j]),
            final(self).rules() == old(self).rules(),
            final(self).threats() == old(self).threats(),
            final(self).blacklist() == old(self).blacklist(),
            final(self).stats_view() == old(self).stats_view(),
            final(self).is_enabled() == old(self).is_enabled(),
    {
        let ghost before = self.rate_limits@;
        let mut i: usize = 0;
        while i < self.rate_limits.len()
            invariant
                i <= self.rate_limits@.len(),
                self.rate_limits@ == before,
                *self == *old(self),
                forall|j: int| 0 <= j < i ==> self.rate_limits@[j].0@ != ip@,
            decreases self.rate_limits@.len() - i,
        {
            if self.rate_limits[i].0 == *ip {
                proof {
                    let ks = limit_owners(before);
                    ks.index_of_first_ensures(ip@);
                    assert(ks[i as int] == ip@);
                    let f = ks.index_of_first(ip@)->0;
                    if f < i {
                        assert(ks[f] == before[f].0@);
                    }
                }
                let (k, _) = self.rate_limits.remove(i);
                self.rate_limits.insert(i, (k, until));
                proof {
                    let ks = limit_owners(before);
                    let nks = limit_owners(self.rate_limits@);
                    assert(self.rate_limits@ =~= before.update(i as int, (k, until)));
                    assert(nks =~= ks);
                    assert forall|x: Seq<char>| x != ip@ implies #[trigger] limit_index(self.rate_limits@, x) == limit_index(before, x)
                        && (limit_index(before, x) matches Some(j) ==> self.rate_limits@[j] == before[j]) by {
                        ks.index_of_first_ensures(x);
                        if let Some(j) = ks.index_of_first(x) {
                            assert(ks[j] == x);
                            assert(j != i);
                        }
                    }
                }
                return;
            }
            i = i + 1;
        }
        self.rate_limits.push((ip.clone(), until));
        proof {
            let ks = limit_owners(before);
            let nks = limit_owners(self.rate_limits@);
            assert(nks =~= ks.push(ip@));
            ks.index_of_first_ensures(ip@);
            if ks.contains(ip@) {
                let j = choose|j: int| 0 <= j < ks.len() && ks[j] == ip@;
                assert(before[j].0@ == ip@);
            }
            assert(nks[ks.len() as int] == ip@);
            nks.index_of_first_ensures(ip@);
            let f = nks.index_of_first(ip@)->0;
            if f < ks.len() {
                assert(ks[f] == nks[f]);
            }
            assert forall|x: Seq<char>| x != ip@ implies #[trigger] limit_index(self.rate_limits@, x) == limit_index(before, x)
                && (limit_index(before, x) matches Some(j) ==> self.rate_limits@[j] == before[j]) by {
                ks.index_of_first_ensures(x);
                nks.index_of_first_ensures(x);
                if let Some(j) = ks.index_of_first(x) {
                    let g = nks.index_of_first(x)->0;
                    assert(nks[j] == x);
                    if g < j {
                        assert(ks[g] == nks[g]);
                    }
                } else if nks.contains(x) {
                    let g = nks.index_of_first(x)->0;
                    assert(g < ks.len());
                    assert(ks[g] == x);
                }
            }
        }
    }
}

} // verus!

verus! {

/// One threat and one action per action for every rule: the most the
/// statistics can grow in one analysis.
pub open spec fn rule_budget(rs: Seq<ThreatRule>) -> nat
    decreases rs.len(),
{
    if rs.len() == 0 {
        0
    } else {
        rule_budget(rs.drop_last()) + 1 + rs.last().actions@.len()
    }
}

/// Counting actions of one type gives at most all of them.
pub proof fn lemma_actions_of_bound(acts: Seq<ThreatAction>, a: ActionType)
    ensures
        actions_of(acts, a) <= acts.len(),
    decreases acts.len(),
{
    if acts.len() > 0 {
        lemma_actions_of_bound(acts.drop_last(), a);
    }
}

/// Counting rules of one severity gives at most all of them.
pub proof fn lemma_severity_count_bound(rs: Seq<ThreatRule>, idx: Seq<int>, s: ThreatSeverity)
    ensures
        severity_count(rs, idx, s) <= idx.len(),
    decreases idx.len(),
{
    if idx.len() > 0 {
        lemma_severity_count_bound(rs, idx.drop_last(), s);
    }
}

/// Counting rules of one type gives at most all of them.
pub proof fn lemma_type_count_bound(rs: Seq<ThreatRule>, idx: Seq<int>, t: ThreatType)
    ensures
        type_count(rs, idx, t) <= idx.len(),
    decreases idx.len(),
{
    if idx.len() > 0 {
        lemma_type_count_bound(rs, idx.drop_last(), t);
    }
}

/// The threat rule `r` raises on `e` at `now`.
fn create_threat(r: &ThreatRule, e: &SecurityEvent, now_ms: i64) -> (t: DetectedThreat)
    ensures
        raised_by(t, *r, *e, now_ms),
{
    let stamp = i64_to_string(now_ms);
    let mut evidence: Vec<(String, FieldValue)> = Vec::new();
    evidence.push((owned("ip_address"), FieldValue::Text(e.ip_address.clone())));
    evidence.push((owned("endpoint"), FieldValue::Text(e.endpoint.clone())));
    evidence.push((owned("method"), FieldValue::Text(e.method.clone())));
    evidence.push((owned("request_count"), FieldValue::Number(e.request_count as i128)));
    evidence.push((owned("error_count"), FieldValue::Number(e.error_count as i128)));
    DetectedThreat {
        id: concat("threat_", stamp.as_str()),
        timestamp_ms: now_ms,
        threat_type: r.threat_type,
        severity: r.severity,
        source: ThreatSource {
            ip_address: e.ip_address.clone(),
            user_agent: match &e.user_agent {
                Some(u) => Some(u.clone()),
                None => None,
            },
            node_id: None,
            location: None,
            previous_incidents: 0,
        },
        rule_id: r.id.clone(),
        description: r.description.clone(),
        evidence,
        status: ThreatStatus::Active,
        false_positive: false,
        resolved: false,
        resolution_time_ms: None,
    }
}

impl ThreatDetectionEngine {
    /// Stores `t`, replacing the threat with its id in place.
    fn store_threat(&mut self, t: DetectedThreat)
        requires
            old(self).wf(),
        ensures
            final(self).wf(),
            match threat_ids(old(self).threats()).index_of_first(t.id@) {
                Some(i) => final(self).threats() == old(self).threats().update(i, t),
                None => final(self).threats() == old(self).threats().push(t),
            },
            final(self).rules() == old(self).rules(),
            final(self).blacklist() == old(self).blacklist(),
            final(self).limits() == old(self).limits(),
            final(self).stats_view() == old(self).stats_view(),
            final(self).is_enabled() == old(self).is_enabled(),
    {
        let ghost before = self.detected_threats@;
        let mut i: usize = 0;
        while i < self.detected_threats.len()
            invariant
                i <= before.len(),
                old(self).wf(),
                *self == *old(self),
                self.detected_threats@ == before,
                forall|j: int| 0 <= j < i ==> before[j].id@ != t.id@,
            decreases before.len() - i,
        {
            if self.detected_threats[i].id == t.id {
                proof {
                    let ks = threat_ids(before);
                    ks.index_of_first_ensures(t.id@);
                    assert(ks[i as int] == t.id@);
                    let f = ks.index_of_first(t.id@)->0;
                    if f < i {
                        assert(ks[f] == before[f].id@);
                    }
                }
                let _ = self.detected_threats.remove(i);
                self.detected_threats.insert(i, t);
                proof {
                    assert(self.detected_threats@ =~= before.update(i as int, t));
                    assert(threat_ids(self.detected_threats@) =~= threat_ids(before).update(i as int, t.id@));
                    assert(threat_ids(before)[i as int] == t.id@);
                    assert(threat_ids(self.detected_threats@) =~= threat_ids(before));
                    assert(self.rules@ == old(self).rules@);
                    assert(threat_ids(old(self).detected_threats@).no_duplicates());
                    assert(before == old(self).detected_threats@);
                }
                return;
            }
            i = i + 1;
        }
        proof {
            let ks = threat_ids(before);
            ks.index_of_first_ensures(t.id@);
            if ks.contains(t.id@) {
                let j = choose|j: int| 0 <= j < ks.len() && ks[j] == t.id@;
                assert(before[j].id@ == t.id@);
            }
        }
        self.detected_threats.push(t);
        proof {
            let ks = threat_ids(before);
            let nks = threat_ids(self.detected_threats@);
            assert(nks =~= ks.push(t.id@));
            assert forall|a: int, b: int| 0 <= a < nks.len() && 0 <= b < nks.len() && a != b implies nks[a] != nks[b] by {
                if a < ks.len() && b < ks.len() {
                    assert(nks[a] == ks[a] && nks[b] == ks[b]);
                } else if a < ks.len() {
                    assert(nks[a] == ks[a]);
                    assert(ks[a] == before[a].id@);
                } else if b < ks.len() {
                    assert(nks[b] == ks[b]);
                    assert(ks[b] == before[b].id@);
                }
            }
        }
    }
}

} // verus!

verus! {

/// The severity at position `i`.
pub open spec fn severity_at(i: int) -> ThreatSeverity {
    if i == 0 {
        ThreatSeverity::Low
    } else if i == 1 {
        ThreatSeverity::Medium
    } else if i == 2 {
        ThreatSeverity::High
    } else {
        ThreatSeverity::Critical
    }
}

/// The threat type at position `i`.
pub open spec fn type_at(i: int) -> ThreatType {
    if i == 0 {
        ThreatType::DDoS
    } else if i == 1 {
        ThreatType::BruteForce
    } else if i == 2 {
        ThreatType::UnauthorizedAccess
    } else if i == 3 {
        ThreatType::MaliciousTransaction
    } else if i == 4 {
        ThreatType::DataBreach
    } else if i == 5 {
        ThreatType::NetworkIntrusion
    } else if i == 6 {
        ThreatType::Malware
    } else if i == 7 {
        ThreatType::InsiderThreat
    } else if i == 8 {
        ThreatType::ConfigurationBreach
    } else if i == 9 {
        ThreatType::ConsensusAttack
    } else if i == 10 {
        ThreatType::StorageAttack
    } else {
        ThreatType::CrossChainAttack
    }
}

/// A prefix of the rules has no larger budget.
pub proof fn lemma_budget_prefix(rs: Seq<ThreatRule>, i: int)
    requires
        0 <= i <= rs.len(),
    ensures
        rule_budget(rs.take(i)) <= rule_budget(rs),
    decreases rs.len(),
{
    if i < rs.len() {
        assert(rs.drop_last().take(i) =~= rs.take(i));
        lemma_budget_prefix(rs.drop_last(), i);
    } else {
        assert(rs.take(i) =~= rs);
    }
}

/// `new` is `old` with the statistics of the rules at positions `idx`
/// (threat counts and action counts) added.
pub open spec fn stats_added(old: ThreatStats, new: ThreatStats, rs: Seq<ThreatRule>, idx: Seq<int>) -> bool {
    &&& new.total_threats == old.total_threats + idx.len()
    &&& new.active_threats == old.active_threats + idx.len()
    &&& forall|i: int| 0 <= i < 4 ==> #[trigger] new.threats_by_severity@[i] == old.threats_by_severity@[i] + severity_count(rs, idx, severity_at(i))
    &&& forall|i: int| 0 <= i < 12 ==> #[trigger] new.threats_by_type@[i] == old.threats_by_type@[i] + type_count(rs, idx, type_at(i))
    &&& new.blocked_ips == old.blocked_ips + action_total(rs, idx, ActionType::BlockIP)
    &&& new.rate_limited_requests == old.rate_limited_requests + action_total(rs, idx, ActionType::RateLimit)
    &&& new.resolved_threats == old.resolved_threats
    &&& new.false_positives == old.false_positives
    &&& new.average_response_time_ms == old.average_response_time_ms
}

impl ThreatDetectionEngine {
    /// Runs every enabled rule on `event` at `now`. Each rule that fires
    /// raises a threat (returned, in rule order), runs its actions (BlockIP
    /// blacklists the address, RateLimit limits it for five minutes; the
    /// others only report), is stored under its id and counted.
    pub fn analyze_event(&mut self, event: &SecurityEvent, now_ms: i64) -> (r: Vec<DetectedThreat>)
        requires
            old(self).wf(),
            old(self).room_for(rule_budget(old(self).rules())),
            now_ms <= i64::MAX - RATE_LIMIT_MS,
        ensures
            final(self).wf(),
            final(self).rules() == old(self).rules(),
            final(self).is_enabled() == old(self).is_enabled(),
            !old(self).is_enabled() ==> r@.len() == 0 && final(self).threats() == old(self).threats()
                && final(self).blacklist() == old(self).blacklist() && final(self).limits() == old(self).limits()
                && final(self).stats_view() == old(self).stats_view(),
            old(self).is_enabled() ==> ({
                let f = firing(old(self).rules(), *event);
                let rs = old(self).rules();
                &&& r@.len() == f.len()
                &&& forall|k: int| 0 <= k < f.len() ==> raised_by(#[trigger] r@[k], rs[f[k]], *event, now_ms)
                &&& stats_added(old(self).stats_view(), final(self).stats_view(), rs, f)
                &&& forall|x: Seq<char>| #[trigger] final(self).blacklist().contains(x) <==> old(self).blacklist().contains(x)
                    || (x == event.ip_address@ && action_total(rs, f, ActionType::BlockIP) > 0)
                &&& action_total(rs, f, ActionType::RateLimit) > 0 ==> (limit_index(final(self).limits(), event.ip_address@)
                    matches Some(i) && final(self).limits()[i].1 == now_ms + RATE_LIMIT_MS)
                &&& action_total(rs, f, ActionType::RateLimit) == 0 ==> final(self).limits() == old(self).limits()
                &&& forall|x: Seq<char>| x != event.ip_address@ ==> #[trigger] limit_index(final(self).limits(), x)
                    == limit_index(old(self).limits(), x)
                &&& f.len() > 0 ==> exists|i: int| 0 <= i < final(self).threats().len()
                    && raised_by(#[trigger] final(self).threats()[i], rs[f.last()], *event, now_ms)
                &&& forall|i: int| 0 <= i < final(self).threats().len() ==> (#[trigger] final(self).threats()[i]).id@
                    == threat_id_at(now_ms) || old(self).threats().contains(final(self).threats()[i])
                &&& forall|i: int| 0 <= i < old(self).threats().len() && (#[trigger] old(self).threats()[i]).id@
                    != threat_id_at(now_ms) ==> final(self).threats().contains(old(self).threats()[i])
            }),
    {
        let mut r: Vec<DetectedThreat> = Vec::new();
        if !self.enabled {
            return r;
        }
        let ghost start = *self;
        let ghost rs = self.rules@;
        let ghost mut fired: Seq<int> = Seq::empty();
        let ghost mut last_threat: Option<DetectedThreat> = None;
        let mut i: usize = 0;
        proof {
            assert(rs.take(0) =~= Seq::<ThreatRule>::empty());
            lemma_budget_prefix(rs, 0);
        }
        while i < self.rules.len()
            invariant
                i <= rs.len(),
                rs == self.rules@,
                rs == start.rules(),
                self.wf(),
                self.is_enabled() == start.is_enabled(),
                start.room_for(rule_budget(rs)),
                now_ms <= i64::MAX - RATE_LIMIT_MS,
                fired == firing(rs.take(i as int), *event),
                forall|k: int| 0 <= k < fired.len() ==> 0 <= #[trigger] fired[k] < i,
                fired.len() + action_total(rs, fired, ActionType::BlockIP) <= rule_budget(rs.take(i as int)),
                fired.len() + action_total(rs, fired, ActionType::RateLimit) <= rule_budget(rs.take(i as int)),
                rule_budget(rs.take(i as int)) <= rule_budget(rs),
                r@.len() == fired.len(),
                forall|k: int| 0 <= k < fired.len() ==> raised_by(#[trigger] r@[k], rs[fired[k]], *event, now_ms),
                stats_added(start.stats_view(), self.stats_view(), rs, fired),
                forall|x: Seq<char>| #[trigger] self.blacklist().contains(x) <==> start.blacklist().contains(x)
                    || (x == event.ip_address@ && action_total(rs, fired, ActionType::BlockIP) > 0),
                action_total(rs, fired, ActionType::RateLimit) > 0 ==> (limit_index(self.limits(), event.ip_address@)
                    matches Some(q) && self.limits()[q].1 == now_ms + RATE_LIMIT_MS),
                action_total(rs, fired, ActionType::RateLimit) == 0 ==> self.limits() == start.limits(),
                forall|x: Seq<char>| x != event.ip_address@ ==> #[trigger] limit_index(self.limits(), x)
                    == limit_index(start.limits(), x),
                fired.len() > 0 ==> exists|q: int| 0 <= q < self.threats().len()
                    && raised_by(#[trigger] self.threats()[q], rs[fired.last()], *event, now_ms),
                forall|q: int| 0 <= q < self.threats().len() ==> (#[trigger] self.threats()[q]).id@
                    == threat_id_at(now_ms) || start.threats().contains(self.threats()[q]),
                forall|q: int| 0 <= q < start.threats().len() && (#[trigger] start.threats()[q]).id@
                    != threat_id_at(now_ms) ==> self.threats().contains(start.threats()[q]),
            decreases rs.len() - i,
        {
            proof {
                assert(rs.take(i + 1).drop_last() =~= rs.take(i as int));
                assert(rs.take(i + 1).last() == rs[i as int]);
                lemma_budget_prefix(rs, i + 1);
            }
            let rule = &self.rules[i];
            if rule.enabled && evaluate_rule(rule, event) {
                let threat = create_threat(rule, event, now_ms);
                let ghost acts = rule.actions@;
                let ghost pre = *self;
                let ghost nf = fired.push(i as int);
                proof {
                    lemma_actions_of_bound(acts, ActionType::BlockIP);
                    lemma_actions_of_bound(acts, ActionType::RateLimit);
                    assert(nf.drop_last() =~= fired);
                }
                let n_actions = rule.actions.len();
                let mut j: usize = 0;
                while j < n_actions
                    invariant
                        j <= n_actions,
                        n_actions == acts.len(),
                        rs == self.rules@,
                        acts == rs[i as int].actions@,
                        i < rs.len(),
                        self.wf(),
                        self.rules() == pre.rules(),
                        self.threats() == pre.threats(),
                        self.is_enabled() == pre.is_enabled(),
                        now_ms <= i64::MAX - RATE_LIMIT_MS,
                        start.room_for(rule_budget(rs)),
                        fired.len() + action_total(rs, fired, ActionType::BlockIP) <= rule_budget(rs.take(i as int)),
                        fired.len() + action_total(rs, fired, ActionType::RateLimit) <= rule_budget(rs.take(i as int)),
                        rule_budget(rs.take(i + 1)) == rule_budget(rs.take(i as int)) + 1 + acts.len(),
                        rule_budget(rs.take(i + 1)) <= rule_budget(rs),
                        self.stats_view().total_threats == pre.stats_view().total_threats,
                        self.stats_view().active_threats == pre.stats_view().active_threats,
                        self.stats_view().threats_by_severity == pre.stats_view().threats_by_severity,
                        self.stats_view().threats_by_type == pre.stats_view().threats_by_type,
                        self.stats_view().resolved_threats == pre.stats_view().resolved_threats,
                        self.stats_view().false_positives == pre.stats_view().false_positives,
                        self.stats_view().average_response_time_ms == pre.stats_view().average_response_time_ms,
                        self.stats_view().blocked_ips == pre.stats_view().blocked_ips + actions_of(acts.take(j as int), ActionType::BlockIP),
                        self.stats_view().rate_limited_requests == pre.stats_view().rate_limited_requests
                            + actions_of(acts.take(j as int), ActionType::RateLimit),
                        pre.stats_view().blocked_ips == start.stats_view().blocked_ips + action_total(rs, fired, ActionType::BlockIP),
                        pre.stats_view().rate_limited_requests == start.stats_view().rate_limited_requests
                            + action_total(rs, fired, ActionType::RateLimit),
                        forall|x: Seq<char>| #[trigger] self.blacklist().contains(x) <==> pre.blacklist().contains(x)
                            || (x == event.ip_address@ && actions_of(acts.take(j as int), ActionType::BlockIP) > 0),
                        actions_of(acts.take(j as int), ActionType::RateLimit) > 0 ==> (limit_index(self.limits(), event.ip_address@)
                            matches Some(q) && self.limits()[q].1 == now_ms + RATE_LIMIT_MS),
                        actions_of(acts.take(j as int), ActionType::RateLimit) == 0 ==> self.limits() == pre.limits(),
                        forall|x: Seq<char>| x != event.ip_address@ ==> #[trigger] limit_index(self.limits(), x)
                            == limit_index(pre.limits(), x),
                    decreases n_actions - j,
                {
                    proof {
                        assert(acts.take(j + 1).drop_last() =~= acts.take(j as int));
                        assert(acts.take(j + 1).last() == acts[j as int]);
                        lemma_actions_of_bound(acts.take(j as int), ActionType::BlockIP);
                        lemma_actions_of_bound(acts.take(j as int), ActionType::RateLimit);
                    }
                    let kind = self.rules[i].actions[j].action_type;
                    let ghost pa = *self;
                    let ghost bprev = actions_of(acts.take(j as int), ActionType::BlockIP);
                    match kind {
                        ActionType::BlockIP => {
                            self.blacklist_ip(&event.ip_address);
                            let ghost mid = *self;
                            self.stats.blocked_ips = self.stats.blocked_ips + 1;
                            proof {
                                assert(actions_of(acts.take(j + 1), ActionType::BlockIP) == bprev + 1);
                                assert(self.blacklist() == mid.blacklist());
                                assert forall|x: Seq<char>| #[trigger] self.blacklist().contains(x) <==> pre.blacklist().contains(x)
                                    || (x == event.ip_address@ && actions_of(acts.take(j + 1), ActionType::BlockIP) > 0) by {
                                    assert(mid.blacklist().contains(x) <==> pa.blacklist().contains(x) || x == event.ip_address@);
                                }
                            }
                        },
                        ActionType::RateLimit => {
                            self.limit_ip(&event.ip_address, now_ms + RATE_LIMIT_MS);
                            self.stats.rate_limited_requests = self.stats.rate_limited_requests + 1;
                            proof {
                                assert(actions_of(acts.take(j + 1), ActionType::BlockIP) == bprev);
                                assert forall|x: Seq<char>| #[trigger] self.blacklist().contains(x) <==> pre.blacklist().contains(x)
                                    || (x == event.ip_address@ && actions_of(acts.take(j + 1), ActionType::BlockIP) > 0) by {
                                    assert(self.blacklist().contains(x) == pa.blacklist().contains(x));
                                }
                            }
                        },
                        _ => {
                            proof {
                                assert(actions_of(acts.take(j + 1), ActionType::BlockIP) == bprev);
                            }
                        },
                    }
                    j = j + 1;
                }
                proof {
                    assert(acts.take(j as int) =~= acts);
                }
                let sev = severity_pos(threat.severity);
                let ty = type_pos(threat.threat_type);
                proof {
                    lemma_severity_count_bound(rs, fired, threat.severity);
                    lemma_type_count_bound(rs, fired, threat.threat_type);
                    assert(severity_at(sev as int) == threat.severity);
                    assert(type_at(ty as int) == threat.threat_type);
                    assert(self.stats_view().threats_by_severity@[sev as int] == start.stats_view().threats_by_severity@[sev as int]
                        + severity_count(rs, fired, severity_at(sev as int)));
                    assert(self.stats_view().threats_by_type@[ty as int] == start.stats_view().threats_by_type@[ty as int]
                        + type_count(rs, fired, type_at(ty as int)));
                    assert(start.stats_view().threats_by_severity@[sev as int] + rule_budget(rs) <= u64::MAX);
                    assert(start.stats_view().threats_by_type@[ty as int] + rule_budget(rs) <= u64::MAX);
                }
                let ghost tid = threat.id@;
                let ghost tcopy = threat;
                let ghost before_store = *self;
                self.store_threat(threat);
                r.push(create_threat(&self.rules[i], event, now_ms));
                self.stats.total_threats = self.stats.total_threats + 1;
                self.stats.threats_by_severity[sev] = self.stats.threats_by_severity[sev] + 1;
                self.stats.threats_by_type[ty] = self.stats.threats_by_type[ty] + 1;
                self.stats.active_threats = self.stats.active_threats + 1;
                proof {
                    fired = nf;
                    assert(firing(rs.take(i + 1), *event) == nf);
                    assert(action_total(rs, nf, ActionType::BlockIP) == action_total(rs, fired.drop_last(), ActionType::BlockIP) + actions_of(acts, ActionType::BlockIP));
                    lemma_severity_count_bound(rs, nf, threat.severity);
                    lemma_type_count_bound(rs, nf, threat.threat_type);
                    assert forall|q: int| 0 <= q < 4 implies #[trigger] self.stats_view().threats_by_severity@[q]
                        == start.stats_view().threats_by_severity@[q] + severity_count(rs, nf, severity_at(q)) by {
                        assert(severity_count(rs, nf, severity_at(q)) == severity_count(rs, nf.drop_last(), severity_at(q))
                            + if rs[i as int].severity == severity_at(q) { 1nat } else { 0nat });
                    }
                    assert forall|q: int| 0 <= q < 12 implies #[trigger] self.stats_view().threats_by_type@[q]
                        == start.stats_view().threats_by_type@[q] + type_count(rs, nf, type_at(q)) by {
                        assert(type_count(rs, nf, type_at(q)) == type_count(rs, nf.drop_last(), type_at(q))
                            + if rs[i as int].threat_type == type_at(q) { 1nat } else { 0nat });
                    }
                    let ts = self.threats();
                    threat_ids(before_store.threats()).index_of_first_ensures(tid);
                    let k = match threat_ids(before_store.threats()).index_of_first(tid) { Some(p) => p, None => before_store.threats().len() as int };
                    assert(ts[k] == tcopy);
                    assert forall|q: int| 0 <= q < ts.len() implies (#[trigger] ts[q]).id@ == threat_id_at(now_ms)
                        || start.threats().contains(ts[q]) by {
                        if q != k {
                            assert(ts[q] == before_store.threats()[q]);
                        }
                    }
                    assert forall|q: int| 0 <= q < start.threats().len() && (#[trigger] start.threats()[q]).id@
                        != threat_id_at(now_ms) implies ts.contains(start.threats()[q]) by {
                        let w = choose|w: int| 0 <= w < before_store.threats().len() && before_store.threats()[w] == start.threats()[q];
                        assert(w != k);
                        assert(ts[w] == before_store.threats()[w]);
                    }
                }
            } else {
                proof {
                    assert(firing(rs.take(i + 1), *event) == fired);
                }
            }
            i = i + 1;
        }
        proof {
            assert(rs.take(i as int) =~= rs);
        }
        r
    }
}

} // verus!

verus! {

/// `t` once resolved at `now`.
pub open spec fn resolved_at(t: DetectedThreat, now: i64) -> DetectedThreat {
    DetectedThreat { status: ThreatStatus::Resolved, resolved: true, resolution_time_ms: Some(now), ..t }
}

/// `t` once marked a false positive.
pub open spec fn marked_false(t: DetectedThreat) -> DetectedThreat {
    DetectedThreat { status: ThreatStatus::FalsePositive, false_positive: true, ..t }
}

impl ThreatDetectionEngine {
    /// Position of the threat with id `id`.
    fn find_threat(&self, id: &str) -> (r: Option<usize>)
        ensures
            match r {
                Some(i) => i < self.threats().len() && threat_ids(self.threats()).index_of_first(id@) == Some(i as int),
                None => threat_ids(self.threats()).index_of_first(id@) is None,
            },
    {
        let k = owned(id);
        let mut i: usize = 0;
        while i < self.detected_threats.len()
            invariant
                i <= self.detected_threats@.len(),
                k@ == id@,
                forall|j: int| 0 <= j < i ==> self.detected_threats@[j].id@ != id@,
            decreases self.detected_threats@.len() - i,
        {
            if self.detected_threats[i].id == k {
                proof {
                    let ks = threat_ids(self.detected_threats@);
                    ks.index_of_first_ensures(id@);
                    assert(ks[i as int] == id@);
                    let f = ks.index_of_first(id@)->0;
                    if f < i {
                        assert(ks[f] == self.detected_threats@[f].id@);
                    }
                }
                return Some(i);
            }
            i = i + 1;
        }
        proof {
            let ks = threat_ids(self.detected_threats@);
            ks.index_of_first_ensures(id@);
            if ks.contains(id@) {
                let j = choose|j: int| 0 <= j < ks.len() && ks[j] == id@;
                assert(self.detected_threats@[j].id@ == id@);
            }
        }
        None
    }

    /// Sets the status fields of the threat at `i`.
    fn set_threat_state(&mut self, i: usize, status: ThreatStatus, false_positive: bool, resolved: bool, resolution_time_ms: Option<i64>)
        requires
            old(self).wf(),
            i < old(self).threats().len(),
        ensures
            final(self).wf(),
            final(self).threats() == old(self).threats().update(i as int, DetectedThreat {
                status, false_positive, resolved, resolution_time_ms, ..old(self).threats()[i as int]
            }),
            final(self).rules() == old(self).rules(),
            final(self).blacklist() == old(self).blacklist(),
            final(self).limits() == old(self).limits(),
            final(self).stats_view() == old(self).stats_view(),
            final(self).is_enabled() == old(self).is_enabled(),
    {
        let ghost before = self.detected_threats@;
        let mut t = self.detected_threats.remove(i);
        t.status = status;
        t.false_positive = false_positive;
        t.resolved = resolved;
        t.resolution_time_ms = resolution_time_ms;
        self.detected_threats.insert(i, t);
        proof {
            assert(self.detected_threats@ =~= before.update(i as int, t));
            assert(threat_ids(self.detected_threats@) =~= threat_ids(before));
        }
    }

    /// Resolves the threat with id `threat_id` at `now`: its status becomes
    /// Resolved, it is marked resolved with that time, one more threat is
    /// counted resolved and one fewer active (not below zero). Unknown ids
    /// are an error and change nothing.
    pub fn resolve_threat(&mut self, threat_id: &str, now_ms: i64) -> (r: Result<(), String>)
        requires
            old(self).wf(),
            old(self).stats_view().resolved_threats < u64::MAX,
        ensures
            final(self).wf(),
            final(self).rules() == old(self).rules(),
            final(self).blacklist() == old(self).blacklist(),
            final(self).limits() == old(self).limits(),
            final(self).is_enabled() == old(self).is_enabled(),
            match threat_ids(old(self).threats()).index_of_first(threat_id@) {
                Some(i) => {
                    &&& r is Ok
                    &&& final(self).threats() == old(self).threats().update(i, resolved_at(old(self).threats()[i], now_ms))
                    &&& final(self).stats_view() == (ThreatStats {
                        resolved_threats: (old(self).stats_view().resolved_threats + 1) as u64,
                        active_threats: if old(self).stats_view().active_threats > 0 {
                            (old(self).stats_view().active_threats - 1) as u64
                        } else {
                            0
                        },
                        ..old(self).stats_view()
                    })
                },
                None => {
                    &&& r matches Err(e) && e@ == "Threat not found"@
                    &&& final(self).threats() == old(self).threats()
                    &&& final(self).stats_view() == old(self).stats_view()
                },
            },
    {
        match self.find_threat(threat_id) {
            Some(i) => {
                let fp = self.detected_threats[i].false_positive;
                self.set_threat_state(i, ThreatStatus::Resolved, fp, true, Some(now_ms));
                self.stats.resolved_threats = self.stats.resolved_threats + 1;
                self.stats.active_threats = self.stats.active_threats.saturating_sub(1);
                Ok(())
            },
            None => Err(owned("Threat not found")),
        }
    }

    /// Marks the threat with id `threat_id` a false positive: its status
    /// becomes FalsePositive and one more false positive is counted.
    /// Unknown ids are an error and change nothing.
    pub fn mark_false_positive(&mut self, threat_id: &str) -> (r: Result<(), String>)
        requires
            old(self).wf(),
            old(self).stats_view().false_positives < u64::MAX,
        ensures
            final(self).wf(),
            final(self).rules() == old(self).rules(),
            final(self).blacklist() == old(self).blacklist(),
            final(self).limits() == old(self).limits(),
            final(self).is_enabled() == old(self).is_enabled(),
            match threat_ids(old(self).threats()).index_of_first(threat_id@) {
                Some(i) => {
                    &&& r is Ok
                    &&& final(self).threats() == old(self).threats().update(i, marked_false(old(self).threats()[i]))
                    &&& final(self).stats_view() == (ThreatStats {
                        false_positives: (old(self).stats_view().false_positives + 1) as u64,
                        ..old(self).stats_view()
                    })
                },
                None => {
                    &&& r matches Err(e) && e@ == "Threat not found"@
                    &&& final(self).threats() == old(self).threats()
                    &&& final(self).stats_view() == old(self).stats_view()
                },
            },
    {
        match self.find_threat(threat_id) {
            Some(i) => {
                let resolved = self.detected_threats[i].resolved;
                let time = self.detected_threats[i].resolution_time_ms;
                self.set_threat_state(i, ThreatStatus::FalsePositive, true, resolved, time);
                self.stats.false_positives = self.stats.false_positives + 1;
                Ok(())
            },
            None => Err(owned("Threat not found")),
        }
    }

    /// Forgets every detected threat; no threat is counted active.
    pub fn clear_threats(&mut self)
        ensures
            final(self).wf() == rule_ids(old(self).rules()).no_duplicates(),
            final(self).threats().len() == 0,
            final(self).stats_view() == (ThreatStats { active_threats: 0, ..old(self).stats_view() }),
            final(self).rules() == old(self).rules(),
            final(self).blacklist() == old(self).blacklist(),
            final(self).limits() == old(self).limits(),
            final(self).is_enabled() == old(self).is_enabled(),
    {
        self.detected_threats = Vec::new();
        self.stats.active_threats = 0;
        assert(threat_ids(self.detected_threats@) =~= Seq::<Seq<char>>::empty());
    }

    /// Empties the blacklist; no address is counted blocked.
    pub fn clear_blacklist(&mut self)
        ensures
            final(self).blacklist().len() == 0,
            final(self).stats_view() == (ThreatStats { blocked_ips: 0, ..old(self).stats_view() }),
            final(self).rules() == old(self).rules(),
            final(self).threats() == old(self).threats(),
            final(self).limits() == old(self).limits(),
            final(self).is_enabled() == old(self).is_enabled(),
    {
        self.blacklisted_ips = Vec::new();
        self.stats.blocked_ips = 0;
    }
}

} // verus!

verus! {

impl Default for ThreatDetectionEngine {
    fn default() -> (e: Self)
        ensures
            e.wf(),
            e.rules().len() == 0,
            e.threats().len() == 0,
            e.blacklist().len() == 0,
            e.limits().len() == 0,
            e.is_enabled(),
    {
        Self::new()
    }
}

} // verus!

verus! {

/// Resolving a threat or marking it a false positive ends its activity and
/// keeps its id, so it leaves the active threats for good.
pub proof fn lemma_handled_threats_are_inactive(t: DetectedThreat, now: i64)
    ensures
        resolved_at(t, now).status != ThreatStatus::Active,
        marked_false(t).status != ThreatStatus::Active,
        resolved_at(t, now).id == t.id && marked_false(t).id == t.id,
        resolved_at(t, now).resolved && marked_false(t).false_positive,
{
}

} // verus!
