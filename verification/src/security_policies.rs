//! Security policies: named sets of pattern rules, kept by id, with
//! violations found by compliance scans and counted in the metrics.
//!
//! The compliance score is a whole percentage: 100 without violations,
//! otherwise 100 less 5 per open violation (at most 50 off), so no
//! precision is lost against a fractional score.

use vstd::prelude::*;
use crate::text::{owned, concat, has_substring, str_contains};
use crate::strvec::{views, clone_strings};

verus! {

/// How strictly violations are enforced.
#[derive(Debug, Clone, Copy, PartialEq, Eq, Structural)]
pub enum EnforcementMode {
    Strict,
    Moderate,
    Lenient,
    Advisory,
}

/// Settings of the policy manager; `policy_update_frequency` is in seconds.
#[derive(Debug, Clone, Copy)]
pub struct SecurityPolicyConfig {
    pub enable_policy_enforcement: bool,
    pub enable_automated_scanning: bool,
    pub enable_policy_violation_alerts: bool,
    pub policy_update_frequency: u64,
    pub violation_threshold: u32,
    pub enforcement_mode: EnforcementMode,
}

impl Default for SecurityPolicyConfig {
    /// Everything on, hourly updates, a threshold of 5, strict mode.
    fn default() -> (c: Self)
        ensures
            c.enable_policy_enforcement && c.enable_automated_scanning && c.enable_policy_violation_alerts,
            c.policy_update_frequency == 3600,
            c.violation_threshold == 5,
            c.enforcement_mode == EnforcementMode::Strict,
    {
        SecurityPolicyConfig {
            enable_policy_enforcement: true,
            enable_automated_scanning: true,
            enable_policy_violation_alerts: true,
            policy_update_frequency: 3600,
            violation_threshold: 5,
            enforcement_mode: EnforcementMode::Strict,
        }
    }
}

/// Areas a policy covers.
#[derive(Debug, Clone, Copy, PartialEq, Eq, Structural)]
pub enum SecurityCategory {
    Authentication,
    Authorization,
    Encryption,
    Network,
    Data,
    Code,
    Infrastructure,
    Compliance,
    BusinessLogic,
    Configuration,
}

/// How strictly one policy is enforced.
#[derive(Debug, Clone, Copy, PartialEq, Eq, Structural)]
pub enum EnforcementLevel {
    Strict,
    Moderate,
    Lenient,
    Advisory,
}

/// Severity of a rule or violation, most severe first.
#[derive(Debug, Clone, Copy, PartialEq, Eq, Structural, PartialOrd, Ord)]
pub enum SecuritySeverity {
    Critical,
    High,
    Medium,
    Low,
    Info,
}

/// What a rule does when it matches.
#[derive(Debug, Clone, Copy, PartialEq, Eq, Structural)]
pub enum RuleAction {
    Block,
    Warn,
    Log,
    Notify,
    Quarantine,
}

/// Comparison a condition makes.
#[derive(Debug, Clone, Copy, PartialEq, Eq, Structural)]
pub enum ConditionOperator {
    Equals,
    NotEquals,
    Contains,
    NotContains,
    StartsWith,
    EndsWith,
    GreaterThan,
    LessThan,
    In,
    NotIn,
}

/// A condition on a field.
#[derive(Debug)]
pub struct RuleCondition {
    pub field: String,
    pub operator: ConditionOperator,
    pub value: String,
}

/// One rule of a policy.
#[derive(Debug)]
pub struct SecurityRule {
    pub id: String,
    pub name: String,
    pub description: String,
    pub pattern: String,
    pub severity: SecuritySeverity,
    pub enabled: bool,
    pub action: RuleAction,
    pub conditions: Vec<RuleCondition>,
}

/// A policy; `created_at` and `updated_at` are in seconds since the Unix
/// epoch.
#[derive(Debug)]
pub struct SecurityPolicy {
    pub id: String,
    pub name: String,
    pub description: String,
    pub category: SecurityCategory,
    pub rules: Vec<SecurityRule>,
    pub enforcement_level: EnforcementLevel,
    pub created_at: u64,
    pub updated_at: u64,
    pub enabled: bool,
    pub version: String,
}

/// Kinds of violation.
#[derive(Debug, Clone, Copy, PartialEq, Eq, Structural)]
pub enum ViolationType {
    CodeViolation,
    ConfigurationViolation,
    NetworkViolation,
    DataViolation,
    AuthenticationViolation,
    AuthorizationViolation,
    EncryptionViolation,
    ComplianceViolation,
}

/// Where a violation stands.
#[derive(Debug, Clone, Copy, PartialEq, Eq, Structural)]
pub enum ViolationStatus {
    Open,
    InProgress,
    Resolved,
    FalsePositive,
    AcceptedRisk,
}

/// A rule broken; `timestamp` is in seconds since the Unix epoch.
#[derive(Debug)]
pub struct PolicyViolation {
    pub id: String,
    pub policy_id: String,
    pub rule_id: String,
    pub violation_type: ViolationType,
    pub severity: SecuritySeverity,
    pub component: String,
    pub file_path: Option<String>,
    pub line_number: Option<u32>,
    pub description: String,
    pub evidence: Vec<String>,
    pub timestamp: u64,
    pub status: ViolationStatus,
    pub remediation: String,
}

/// Counts kept by the manager; `compliance_score` is a percentage and
/// `last_scan_time` is in seconds since the Unix epoch.
#[derive(Debug, Clone, Copy)]
pub struct PolicyMetrics {
    pub total_policies: u32,
    pub active_policies: u32,
    pub total_violations: u64,
    pub open_violations: u64,
    pub resolved_violations: u64,
    pub false_positives: u64,
    pub compliance_score: u32,
    pub last_scan_time: u64,
}

/// Texts of rule `k` of default policy `p`: id, name, description,
/// pattern; then its severity and action.
pub open spec fn default_rule(p: int, k: int) -> (&'static str, &'static str, &'static str, &'static str, SecuritySeverity, RuleAction) {
    if p == 0 {
        if k == 0 {
            ("crypto-001-1", "AES-256-GCM Only", "Only use AES-256-GCM for encryption", "aes-256-gcm", SecuritySeverity::High, RuleAction::Block)
        } else {
            ("crypto-001-2", "Ed25519 Signatures", "Use Ed25519 for digital signatures", "ed25519", SecuritySeverity::High, RuleAction::Block)
        }
    } else if p == 1 {
        ("auth-001-1", "Strong Password Policy", "Enforce strong password requirements", "password.*length.*8", SecuritySeverity::Medium, RuleAction::Warn)
    } else if p == 2 {
        if k == 0 {
            ("network-001-1", "TLS Encryption Required", "All network communications must use TLS", "tls|ssl", SecuritySeverity::High, RuleAction::Block)
        } else {
            ("network-001-2", "Rate Limiting Required", "Implement rate limiting for API endpoints", "rate.*limit", SecuritySeverity::Medium, RuleAction::Warn)
        }
    } else if p == 3 {
        if k == 0 {
            ("code-001-1", "No Unsafe Code", "Minimize use of unsafe code", "unsafe", SecuritySeverity::High, RuleAction::Warn)
        } else {
            ("code-001-2", "Input Validation Required", "All user inputs must be validated", "validate|sanitize", SecuritySeverity::Medium, RuleAction::Warn)
        }
    } else {
        if k == 0 {
            ("data-001-1", "Data Encryption at Rest", "All sensitive data must be encrypted at rest", "encrypt.*rest", SecuritySeverity::High, RuleAction::Block)
        } else {
            ("data-001-2", "Data Encryption in Transit", "All data in transit must be encrypted", "encrypt.*transit", SecuritySeverity::High, RuleAction::Block)
        }
    }
}

/// Rule `k` of default policy `p`.
fn default_rule_row(p: usize, k: usize) -> (r: (&'static str, &'static str, &'static str, &'static str, SecuritySeverity, RuleAction))
    ensures
        r == default_rule(p as int, k as int),
{
    if p == 0 {
        if k == 0 {
            ("crypto-001-1", "AES-256-GCM Only", "Only use AES-256-GCM for encryption", "aes-256-gcm", SecuritySeverity::High, RuleAction::Block)
        } else {
            ("crypto-001-2", "Ed25519 Signatures", "Use Ed25519 for digital signatures", "ed25519", SecuritySeverity::High, RuleAction::Block)
        }
    } else if p == 1 {
        ("auth-001-1", "Strong Password Policy", "Enforce strong password requirements", "password.*length.*8", SecuritySeverity::Medium, RuleAction::Warn)
    } else if p == 2 {
        if k == 0 {
            ("network-001-1", "TLS Encryption Required", "All network communications must use TLS", "tls|ssl", SecuritySeverity::High, RuleAction::Block)
        } else {
            ("network-001-2", "Rate Limiting Required", "Implement rate limiting for API endpoints", "rate.*limit", SecuritySeverity::Medium, RuleAction::Warn)
        }
    } else if p == 3 {
        if k == 0 {
            ("code-001-1", "No Unsafe Code", "Minimize use of unsafe code", "unsafe", SecuritySeverity::High, RuleAction::Warn)
        } else {
            ("code-001-2", "Input Validation Required", "All user inputs must be validated", "validate|sanitize", SecuritySeverity::Medium, RuleAction::Warn)
        }
    } else {
        if k == 0 {
            ("data-001-1", "Data Encryption at Rest", "All sensitive data must be encrypted at rest", "encrypt.*rest", SecuritySeverity::High, RuleAction::Block)
        } else {
            ("data-001-2", "Data Encryption in Transit", "All data in transit must be encrypted", "encrypt.*transit", SecuritySeverity::High, RuleAction::Block)
        }
    }
}

/// Default policy `p`: id, name, description, category, enforcement level
/// and number of rules.
pub open spec fn default_policy(p: int) -> (&'static str, &'static str, &'static str, SecurityCategory, EnforcementLevel, nat) {
    if p == 0 {
        ("crypto-001", "Strong Encryption Policy", "Enforce strong encryption algorithms and key management", SecurityCategory::Encryption, EnforcementLevel::Strict, 2)
    } else if p == 1 {
        ("auth-001", "Authentication Policy", "Enforce strong authentication mechanisms", SecurityCategory::Authentication, EnforcementLevel::Strict, 1)
    } else if p == 2 {
        ("network-001", "Network Security Policy", "Enforce network security best practices", SecurityCategory::Network, EnforcementLevel::Strict, 2)
    } else if p == 3 {
        ("code-001", "Code Security Policy", "Enforce secure coding practices", SecurityCategory::Code, EnforcementLevel::Moderate, 2)
    } else {
        ("data-001", "Data Protection Policy", "Enforce data protection and privacy requirements", SecurityCategory::Data, EnforcementLevel::Strict, 2)
    }
}

/// Default policy `p`.
fn default_policy_row(p: usize) -> (r: (&'static str, &'static str, &'static str, SecurityCategory, EnforcementLevel, usize))
    ensures
        (r.0, r.1, r.2, r.3, r.4, r.5 as nat) == default_policy(p as int),
{
    if p == 0 {
        ("crypto-001", "Strong Encryption Policy", "Enforce strong encryption algorithms and key management", SecurityCategory::Encryption, EnforcementLevel::Strict, 2)
    } else if p == 1 {
        ("auth-001", "Authentication Policy", "Enforce strong authentication mechanisms", SecurityCategory::Authentication, EnforcementLevel::Strict, 1)
    } else if p == 2 {
        ("network-001", "Network Security Policy", "Enforce network security best practices", SecurityCategory::Network, EnforcementLevel::Strict, 2)
    } else if p == 3 {
        ("code-001", "Code Security Policy", "Enforce secure coding practices", SecurityCategory::Code, EnforcementLevel::Moderate, 2)
    } else {
        ("data-001", "Data Protection Policy", "Enforce data protection and privacy requirements", SecurityCategory::Data, EnforcementLevel::Strict, 2)
    }
}

/// `r` is rule `k` of default policy `p`: enabled and without conditions.
pub open spec fn is_default_rule(r: SecurityRule, p: int, k: int) -> bool {
    let (id, name, description, pattern, severity, action) = default_rule(p, k);
    &&& r.id@ == id@
    &&& r.name@ == name@
    &&& r.description@ == description@
    &&& r.pattern@ == pattern@
    &&& r.severity == severity
    &&& r.enabled
    &&& r.action == action
    &&& r.conditions@.len() == 0
}

/// `x` is default policy `p` as created at `now`: enabled, version 1.0.0.
pub open spec fn is_default_policy(x: SecurityPolicy, p: int, now: u64) -> bool {
    let (id, name, description, category, level, n) = default_policy(p);
    &&& x.id@ == id@
    &&& x.name@ == name@
    &&& x.description@ == description@
    &&& x.category == category
    &&& x.enforcement_level == level
    &&& x.created_at == now
    &&& x.updated_at == now
    &&& x.enabled
    &&& x.version@ == "1.0.0"@
    &&& x.rules@.len() == n
    &&& forall|k: int| 0 <= k < n ==> is_default_rule(#[trigger] x.rules@[k], p, k)
}

/// Default policy `p` as created at `now`.
fn make_default_policy(p: usize, now: u64) -> (x: SecurityPolicy)
    requires
        p < 5,
    ensures
        is_default_policy(x, p as int, now),
{
    let (id, name, description, category, level, n) = default_policy_row(p);
    let mut rules: Vec<SecurityRule> = Vec::new();
    let mut k: usize = 0;
    while k < n
        invariant
            k <= n,
            n == default_policy(p as int).5,
            rules@.len() == k,
            forall|j: int| 0 <= j < k ==> is_default_rule(#[trigger] rules@[j], p as int, j),
        decreases n - k,
    {
        let (rid, rname, rdesc, pattern, severity, action) = default_rule_row(p, k);
        rules.push(SecurityRule {
            id: owned(rid),
            name: owned(rname),
            description: owned(rdesc),
            pattern: owned(pattern),
            severity,
            enabled: true,
            action,
            conditions: Vec::new(),
        });
        k = k + 1;
    }
    SecurityPolicy {
        id: owned(id),
        name: owned(name),
        description: owned(description),
        category,
        rules,
        enforcement_level: level,
        created_at: now,
        updated_at: now,
        enabled: true,
        version: owned("1.0.0"),
    }
}

} // verus!

verus! {

/// The keys of a list of entries.
pub open spec fn keys_of<T>(s: Seq<(String, T)>) -> Seq<Seq<char>> {
    s.map_values(|e: (String, T)| e.0@)
}

/// Position of the first entry with key `k`.
fn find_key<T>(v: &Vec<(String, T)>, k: &str) -> (r: Option<usize>)
    ensures
        match r {
            Some(i) => i < v@.len() && keys_of(v@).index_of_first(k@) == Some(i as int),
            None => keys_of(v@).index_of_first(k@) is None,
        },
{
    let key = owned(k);
    let mut i: usize = 0;
    while i < v.len()
        invariant
            i <= v@.len(),
            key@ == k@,
            forall|j: int| 0 <= j < i ==> v@[j].0@ != k@,
        decreases v@.len() - i,
    {
        if v[i].0 == key {
            proof {
                let ks = keys_of(v@);
                ks.index_of_first_ensures(k@);
                assert(ks[i as int] == k@);
                let f = ks.index_of_first(k@)->0;
                if f < i {
                    assert(ks[f] == v@[f].0@);
                }
            }
            return Some(i);
        }
        i = i + 1;
    }
    proof {
        let ks = keys_of(v@);
        ks.index_of_first_ensures(k@);
        if ks.contains(k@) {
            let j = choose|j: int| 0 <= j < ks.len() && ks[j] == k@;
            assert(v@[j].0@ == k@);
        }
    }
    None
}

/// Policies kept by key, with the key as text.
pub open spec fn policy_entries(s: Seq<(String, SecurityPolicy)>) -> Seq<(Seq<char>, SecurityPolicy)> {
    s.map_values(|e: (String, SecurityPolicy)| (e.0@, e.1))
}

/// `s` with `x` stored under the key `k`: in place of the value of the
/// first entry with that key, or at the end.
pub open spec fn put_policy(s: Seq<(Seq<char>, SecurityPolicy)>, k: Seq<char>, x: SecurityPolicy) -> Seq<(Seq<char>, SecurityPolicy)> {
    match s.map_values(|e: (Seq<char>, SecurityPolicy)| e.0).index_of_first(k) {
        Some(i) => s.update(i, (k, x)),
        None => s.push((k, x)),
    }
}

/// `s` with each of `xs` stored under its own id, in turn.
pub open spec fn put_policies(s: Seq<(Seq<char>, SecurityPolicy)>, xs: Seq<SecurityPolicy>) -> Seq<(Seq<char>, SecurityPolicy)>
    decreases xs.len(),
{
    if xs.len() == 0 {
        s
    } else {
        put_policy(put_policies(s, xs.drop_last()), xs.last().id@, xs.last())
    }
}

/// Number of enabled policies among `s`.
pub open spec fn enabled_count(s: Seq<(Seq<char>, SecurityPolicy)>) -> nat
    decreases s.len(),
{
    if s.len() == 0 {
        0
    } else {
        enabled_count(s.drop_last()) + if s.last().1.enabled { 1nat } else { 0nat }
    }
}

/// Stores `x` under `k` in `v`.
fn put_policy_entry(v: &mut Vec<(String, SecurityPolicy)>, k: String, x: SecurityPolicy)
    ensures
        policy_entries(final(v)@) == put_policy(policy_entries(old(v)@), k@, x),
{
    let ghost before = policy_entries(v@);
    proof {
        assert(before.map_values(|e: (Seq<char>, SecurityPolicy)| e.0) =~= keys_of(v@));
    }
    match find_key(v, k.as_str()) {
        Some(i) => {
            let ghost kv = k@;
            let _ = v.remove(i);
            v.insert(i, (k, x));
            proof {
                assert(policy_entries(v@) =~= before.update(i as int, (kv, x)));
            }
        },
        None => {
            let ghost kv = k@;
            v.push((k, x));
            proof {
                assert(policy_entries(v@) =~= before.push((kv, x)));
            }
        },
    }
}

/// Counts the enabled policies of `v`.
fn count_enabled(v: &Vec<(String, SecurityPolicy)>) -> (n: usize)
    ensures
        n == enabled_count(policy_entries(v@)),
{
    let mut n: usize = 0;
    let mut i: usize = 0;
    while i < v.len()
        invariant
            i <= v@.len(),
            n <= i,
            n == enabled_count(policy_entries(v@.take(i as int))),
        decreases v@.len() - i,
    {
        proof {
            assert(policy_entries(v@.take(i + 1)).drop_last() =~= policy_entries(v@.take(i as int)));
        }
        if v[i].1.enabled {
            n = n + 1;
        }
        i = i + 1;
    }
    proof {
        assert(v@.take(i as int) =~= v@);
    }
    n
}

/// Keeps policies and violations by id and counts them.
pub struct SecurityPolicyManager {
    config: SecurityPolicyConfig,
    policies: Vec<(String, SecurityPolicy)>,
    violations: Vec<(String, PolicyViolation)>,
    metrics: PolicyMetrics,
}

impl SecurityPolicyManager {
    pub closed spec fn config_view(&self) -> SecurityPolicyConfig {
        self.config
    }

    /// The policies, by key.
    pub closed spec fn policies_view(&self) -> Seq<(Seq<char>, SecurityPolicy)> {
        policy_entries(self.policies@)
    }

    pub closed spec fn metrics_view(&self) -> PolicyMetrics {
        self.metrics
    }

    /// A manager with `config`, no policies or violations, zero counts and
    /// a compliance score of 100.
    pub fn new(config: SecurityPolicyConfig) -> (m: Self)
        ensures
            m.config_view() == config,
            m.policies_view().len() == 0,
            m.violations_view().len() == 0,
            m.metrics_view() == (PolicyMetrics {
                total_policies: 0,
                active_policies: 0,
                total_violations: 0,
                open_violations: 0,
                resolved_violations: 0,
                false_positives: 0,
                compliance_score: 100,
                last_scan_time: 0,
            }),
    {
        let m = SecurityPolicyManager {
            config,
            policies: Vec::new(),
            violations: Vec::new(),
            metrics: PolicyMetrics {
                total_policies: 0,
                active_policies: 0,
                total_violations: 0,
                open_violations: 0,
                resolved_violations: 0,
                false_positives: 0,
                compliance_score: 100,
                last_scan_time: 0,
            },
        };
        assert(policy_entries(m.policies@) =~= Seq::empty());
        assert(violation_entries(m.violations@) =~= Seq::empty());
        m
    }

    /// Loads the five default policies (encryption, authentication,
    /// network, code, data) as created at `now`, each under its id, and
    /// recounts the policies and the enabled ones.
    fn load_default_policies(&mut self, now: u64)
        ensures
            exists|xs: Seq<SecurityPolicy>| #![trigger put_policies(old(self).policies_view(), xs)]
                xs.len() == 5
                && (forall|p: int| 0 <= p < 5 ==> is_default_policy(#[trigger] xs[p], p, now))
                && final(self).policies_view() == put_policies(old(self).policies_view(), xs),
            final(self).metrics_view() == (PolicyMetrics {
                total_policies: final(self).policies_view().len() as u32,
                active_policies: enabled_count(final(self).policies_view()) as u32,
                ..old(self).metrics_view()
            }),
            final(self).violations_view() == old(self).violations_view(),
            final(self).config_view() == old(self).config_view(),
    {
        let ghost start = policy_entries(self.policies@);
        let ghost mut xs: Seq<SecurityPolicy> = Seq::empty();
        let mut p: usize = 0;
        while p < 5
            invariant
                p <= 5,
                xs.len() == p,
                forall|q: int| 0 <= q < p ==> is_default_policy(#[trigger] xs[q], q, now),
                policy_entries(self.policies@) == put_policies(start, xs),
                self.metrics == old(self).metrics,
                self.violations@ == old(self).violations@,
                self.config == old(self).config,
                start == old(self).policies_view(),
            decreases 5 - p,
        {
            let x = make_default_policy(p, now);
            let k = x.id.clone();
            let ghost prev = xs;
            let ghost xv = x;
            proof {
                xs = xs.push(x);
                assert(xs.drop_last() =~= prev);
                assert(xs.last() == xv);
            }
            put_policy_entry(&mut self.policies, k, x);
            p = p + 1;
        }
        let total = #[verifier::truncate] (self.policies.len() as u32);
        let active = #[verifier::truncate] (count_enabled(&self.policies) as u32);
        self.metrics.total_policies = total;
        self.metrics.active_policies = active;
    }

    /// Loads the default policies as created at `now`.
    pub fn init(&mut self, now: u64) -> (r: Result<(), String>)
        ensures
            r is Ok,
            exists|xs: Seq<SecurityPolicy>| #![trigger put_policies(old(self).policies_view(), xs)]
                xs.len() == 5
                && (forall|p: int| 0 <= p < 5 ==> is_default_policy(#[trigger] xs[p], p, now))
                && final(self).policies_view() == put_policies(old(self).policies_view(), xs),
            final(self).metrics_view() == (PolicyMetrics {
                total_policies: final(self).policies_view().len() as u32,
                active_policies: enabled_count(final(self).policies_view()) as u32,
                ..old(self).metrics_view()
            }),
            final(self).violations_view() == old(self).violations_view(),
            final(self).config_view() == old(self).config_view(),
    {
        self.load_default_policies(now);
        Ok(())
    }
}

} // verus!

verus! {

/// The text of an optional string.
pub open spec fn opt_text(s: Option<String>) -> Option<Seq<char>> {
    match s {
        Some(x) => Some(x@),
        None => None,
    }
}

/// What a violation says, with its strings as text.
#[verifier::ext_equal]
pub struct ViolationView {
    pub id: Seq<char>,
    pub policy_id: Seq<char>,
    pub rule_id: Seq<char>,
    pub violation_type: ViolationType,
    pub severity: SecuritySeverity,
    pub component: Seq<char>,
    pub file_path: Option<Seq<char>>,
    pub line_number: Option<u32>,
    pub description: Seq<char>,
    pub evidence: Seq<Seq<char>>,
    pub timestamp: u64,
    pub status: ViolationStatus,
    pub remediation: Seq<char>,
}

impl View for PolicyViolation {
    type V = ViolationView;

    open spec fn view(&self) -> ViolationView {
        ViolationView {
            id: self.id@,
            policy_id: self.policy_id@,
            rule_id: self.rule_id@,
            violation_type: self.violation_type,
            severity: self.severity,
            component: self.component@,
            file_path: opt_text(self.file_path),
            line_number: self.line_number,
            description: self.description@,
            evidence: views(self.evidence@),
            timestamp: self.timestamp,
            status: self.status,
            remediation: self.remediation@,
        }
    }
}

/// Violations kept by key, as text.
pub open spec fn violation_entries(s: Seq<(String, PolicyViolation)>) -> Seq<(Seq<char>, ViolationView)> {
    s.map_values(|e: (String, PolicyViolation)| (e.0@, e.1@))
}

/// The views of a list of violations.
pub open spec fn violation_views(s: Seq<PolicyViolation>) -> Seq<ViolationView> {
    s.map_values(|v: PolicyViolation| v@)
}

/// `s` with `v` stored under its id: in place of the first entry with
/// that key, or at the end.
pub open spec fn put_violation(s: Seq<(Seq<char>, ViolationView)>, v: ViolationView) -> Seq<(Seq<char>, ViolationView)> {
    match s.map_values(|e: (Seq<char>, ViolationView)| e.0).index_of_first(v.id) {
        Some(i) => s.update(i, (v.id, v)),
        None => s.push((v.id, v)),
    }
}

/// `s` with each of `vs` stored in turn.
pub open spec fn put_violations(s: Seq<(Seq<char>, ViolationView)>, vs: Seq<ViolationView>) -> Seq<(Seq<char>, ViolationView)>
    decreases vs.len(),
{
    if vs.len() == 0 {
        s
    } else {
        put_violation(put_violations(s, vs.drop_last()), vs.last())
    }
}

/// The violation rule `r` of policy `x` reports at `now`.
pub open spec fn violation_for(x: SecurityPolicy, r: SecurityRule, now: u64) -> ViolationView {
    ViolationView {
        id: "violation-"@ + x.id@ + "-"@ + r.id@,
        policy_id: x.id@,
        rule_id: r.id@,
        violation_type: ViolationType::CodeViolation,
        severity: r.severity,
        component: "crypto"@,
        file_path: Some("src/crypto/real_implementations.rs"@),
        line_number: Some(42),
        description: "Policy violation: "@ + r.name@,
        evidence: seq!["Static analysis detected unsafe code usage"@],
        timestamp: now,
        status: ViolationStatus::Open,
        remediation: r.description@,
    }
}

/// The violations the rules `rs` of policy `x` report at `now`: one per
/// enabled rule whose pattern mentions "unsafe".
pub open spec fn rule_violations(x: SecurityPolicy, rs: Seq<SecurityRule>, now: u64) -> Seq<ViolationView>
    decreases rs.len(),
{
    if rs.len() == 0 {
        Seq::empty()
    } else {
        rule_violations(x, rs.drop_last(), now) + if rs.last().enabled && has_substring(rs.last().pattern@, "unsafe"@) {
            seq![violation_for(x, rs.last(), now)]
        } else {
            Seq::empty()
        }
    }
}

/// The violations a scan of the policies `es` reports at `now`, enabled
/// policies only, in storage order.
pub open spec fn scan_results(es: Seq<(Seq<char>, SecurityPolicy)>, now: u64) -> Seq<ViolationView>
    decreases es.len(),
{
    if es.len() == 0 {
        Seq::empty()
    } else {
        scan_results(es.drop_last(), now) + if es.last().1.enabled {
            rule_violations(es.last().1, es.last().1.rules@, now)
        } else {
            Seq::empty()
        }
    }
}

/// Number of rules of the policies `es`.
pub open spec fn rule_total(es: Seq<(Seq<char>, SecurityPolicy)>) -> nat
    decreases es.len(),
{
    if es.len() == 0 {
        0
    } else {
        rule_total(es.drop_last()) + es.last().1.rules@.len()
    }
}

/// The compliance score for `total` violations of which `open` are open.
pub open spec fn compliance_for(total: u64, open: u64) -> u32 {
    if total == 0 {
        100
    } else if open >= 10 {
        50
    } else {
        (100 - 5 * open) as u32
    }
}

impl SecurityPolicyManager {
    /// The violations, by key.
    pub closed spec fn violations_view(&self) -> Seq<(Seq<char>, ViolationView)> {
        violation_entries(self.violations@)
    }
}

} // verus!

verus! {

/// `lead` followed by `id` and `rest`.
fn id_message(lead: &str, id: &str, rest: &str) -> (s: String)
    ensures
        s@ == lead@ + id@ + rest@,
{
    let mut s = concat(lead, id);
    s.append(rest);
    s
}

/// The policies among `es` in category `c`, in storage order.
pub open spec fn policies_in(es: Seq<(Seq<char>, SecurityPolicy)>, c: SecurityCategory) -> Seq<SecurityPolicy>
    decreases es.len(),
{
    if es.len() == 0 {
        Seq::empty()
    } else {
        policies_in(es.drop_last(), c) + if es.last().1.category == c { seq![es.last().1] } else { Seq::empty() }
    }
}

/// The violations among `es` of policy `id`, in storage order.
pub open spec fn violations_of(es: Seq<(Seq<char>, ViolationView)>, id: Seq<char>) -> Seq<ViolationView>
    decreases es.len(),
{
    if es.len() == 0 {
        Seq::empty()
    } else {
        violations_of(es.drop_last(), id) + if es.last().1.policy_id == id { seq![es.last().1] } else { Seq::empty() }
    }
}

impl SecurityPolicyManager {
    /// Adds `policy` under its id; an id already present is an error and
    /// changes nothing. Counts one more policy and one more active one.
    pub fn add_policy(&mut self, policy: SecurityPolicy) -> (r: Result<(), String>)
        requires
            !old(self).policies_view().map_values(|e: (Seq<char>, SecurityPolicy)| e.0).contains(policy.id@) ==> {
                &&& old(self).metrics_view().total_policies < u32::MAX
                &&& old(self).metrics_view().active_policies < u32::MAX
            },
        ensures
            final(self).config_view() == old(self).config_view(),
            final(self).violations_view() == old(self).violations_view(),
            if old(self).policies_view().map_values(|e: (Seq<char>, SecurityPolicy)| e.0).contains(policy.id@) {
                &&& r matches Err(e) && e@ == "Policy with ID "@ + policy.id@ + " already exists"@
                &&& final(self).policies_view() == old(self).policies_view()
                &&& final(self).metrics_view() == old(self).metrics_view()
            } else {
                &&& r is Ok
                &&& final(self).policies_view() == old(self).policies_view().push((policy.id@, policy))
                &&& final(self).metrics_view() == (PolicyMetrics {
                    total_policies: (old(self).metrics_view().total_policies + 1) as u32,
                    active_policies: (old(self).metrics_view().active_policies + 1) as u32,
                    ..old(self).metrics_view()
                })
            },
    {
        proof {
            assert(policy_entries(self.policies@).map_values(|e: (Seq<char>, SecurityPolicy)| e.0) =~= keys_of(self.policies@));
        }
        match find_key(&self.policies, policy.id.as_str()) {
            Some(i) => {
                proof {
                    keys_of(self.policies@).index_of_first_ensures(policy.id@);
                }
                Err(id_message("Policy with ID ", policy.id.as_str(), " already exists"))
            },
            None => {
                proof {
                    keys_of(self.policies@).index_of_first_ensures(policy.id@);
                }
                let ghost before = policy_entries(self.policies@);
                let k = policy.id.clone();
                let ghost pv = policy;
                self.policies.push((k, policy));
                self.metrics.total_policies = self.metrics.total_policies + 1;
                self.metrics.active_policies = self.metrics.active_policies + 1;
                proof {
                    assert(policy_entries(self.policies@) =~= before.push((pv.id@, pv)));
                }
                Ok(())
            },
        }
    }

    /// Replaces the policy under `policy_id` by `policy` (the key stays
    /// `policy_id`); an unknown key is an error. The counts are left as
    /// they are.
    pub fn update_policy(&mut self, policy_id: &str, policy: SecurityPolicy) -> (r: Result<(), String>)
        ensures
            final(self).config_view() == old(self).config_view(),
            final(self).violations_view() == old(self).violations_view(),
            final(self).metrics_view() == old(self).metrics_view(),
            match old(self).policies_view().map_values(|e: (Seq<char>, SecurityPolicy)| e.0).index_of_first(policy_id@) {
                Some(i) => r is Ok && final(self).policies_view() == old(self).policies_view().update(i, (policy_id@, policy)),
                None => (r matches Err(e) && e@ == "Policy with ID "@ + policy_id@ + " not found"@)
                    && final(self).policies_view() == old(self).policies_view(),
            },
    {
        proof {
            assert(policy_entries(self.policies@).map_values(|e: (Seq<char>, SecurityPolicy)| e.0) =~= keys_of(self.policies@));
        }
        match find_key(&self.policies, policy_id) {
            Some(i) => {
                let ghost before = policy_entries(self.policies@);
                let ghost pv = policy;
                let (k, _) = self.policies.remove(i);
                proof {
                    keys_of(old(self).policies@).index_of_first_ensures(policy_id@);
                    assert(k@ == policy_id@);
                }
                self.policies.insert(i, (k, policy));
                proof {
                    assert(policy_entries(self.policies@) =~= before.update(i as int, (policy_id@, pv)));
                }
                Ok(())
            },
            None => Err(id_message("Policy with ID ", policy_id, " not found")),
        }
    }

    /// Removes the policy under `policy_id`, counting one fewer policy and,
    /// if it was enabled, one fewer active one; an unknown key is an error.
    pub fn remove_policy(&mut self, policy_id: &str) -> (r: Result<(), String>)
        requires
            old(self).policies_view().map_values(|e: (Seq<char>, SecurityPolicy)| e.0).index_of_first(policy_id@) matches Some(i)
                ==> old(self).metrics_view().total_policies >= 1 && (old(self).policies_view()[i].1.enabled
                ==> old(self).metrics_view().active_policies >= 1),
        ensures
            final(self).config_view() == old(self).config_view(),
            final(self).violations_view() == old(self).violations_view(),
            match old(self).policies_view().map_values(|e: (Seq<char>, SecurityPolicy)| e.0).index_of_first(policy_id@) {
                Some(i) => {
                    &&& r is Ok
                    &&& final(self).policies_view() == old(self).policies_view().remove(i)
                    &&& final(self).metrics_view() == (PolicyMetrics {
                        total_policies: (old(self).metrics_view().total_policies - 1) as u32,
                        active_policies: if old(self).policies_view()[i].1.enabled {
                            (old(self).metrics_view().active_policies - 1) as u32
                        } else {
                            old(self).metrics_view().active_policies
                        },
                        ..old(self).metrics_view()
                    })
                },
                None => {
                    &&& r matches Err(e) && e@ == "Policy with ID "@ + policy_id@ + " not found"@
                    &&& final(self).policies_view() == old(self).policies_view()
                    &&& final(self).metrics_view() == old(self).metrics_view()
                },
            },
    {
        proof {
            assert(policy_entries(self.policies@).map_values(|e: (Seq<char>, SecurityPolicy)| e.0) =~= keys_of(self.policies@));
        }
        match find_key(&self.policies, policy_id) {
            Some(i) => {
                let ghost before = policy_entries(self.policies@);
                let (_, p) = self.policies.remove(i);
                proof {
                    assert(policy_entries(self.policies@) =~= before.remove(i as int));
                }
                self.metrics.total_policies = self.metrics.total_policies - 1;
                if p.enabled {
                    self.metrics.active_policies = self.metrics.active_policies - 1;
                }
                Ok(())
            },
            None => Err(id_message("Policy with ID ", policy_id, " not found")),
        }
    }

    /// Enables or disables the policy under `policy_id`, moving the active
    /// count when the flag changes; an unknown key is an error.
    pub fn toggle_policy(&mut self, policy_id: &str, enabled: bool) -> (r: Result<(), String>)
        requires
            old(self).policies_view().map_values(|e: (Seq<char>, SecurityPolicy)| e.0).index_of_first(policy_id@) matches Some(i)
                ==> (old(self).policies_view()[i].1.enabled && !enabled ==> old(self).metrics_view().active_policies >= 1)
                && (!old(self).policies_view()[i].1.enabled && enabled ==> old(self).metrics_view().active_policies < u32::MAX),
        ensures
            final(self).config_view() == old(self).config_view(),
            final(self).violations_view() == old(self).violations_view(),
            match old(self).policies_view().map_values(|e: (Seq<char>, SecurityPolicy)| e.0).index_of_first(policy_id@) {
                Some(i) => {
                    let was = old(self).policies_view()[i].1.enabled;
                    &&& r is Ok
                    &&& final(self).policies_view() == old(self).policies_view().update(i,
                        (old(self).policies_view()[i].0, SecurityPolicy { enabled, ..old(self).policies_view()[i].1 }))
                    &&& final(self).metrics_view() == (PolicyMetrics {
                        active_policies: if was && !enabled {
                            (old(self).metrics_view().active_policies - 1) as u32
                        } else if !was && enabled {
                            (old(self).metrics_view().active_policies + 1) as u32
                        } else {
                            old(self).metrics_view().active_policies
                        },
                        ..old(self).metrics_view()
                    })
                },
                None => {
                    &&& r matches Err(e) && e@ == "Policy with ID "@ + policy_id@ + " not found"@
                    &&& final(self).policies_view() == old(self).policies_view()
                    &&& final(self).metrics_view() == old(self).metrics_view()
                },
            },
    {
        proof {
            assert(policy_entries(self.policies@).map_values(|e: (Seq<char>, SecurityPolicy)| e.0) =~= keys_of(self.policies@));
        }
        match find_key(&self.policies, policy_id) {
            Some(i) => {
                let ghost before = policy_entries(self.policies@);
                let (k, mut p) = self.policies.remove(i);
                let was = p.enabled;
                p.enabled = enabled;
                let ghost pv = p;
                let ghost kv = k@;
                self.policies.insert(i, (k, p));
                proof {
                    assert(policy_entries(self.policies@) =~= before.update(i as int, (kv, pv)));
                }
                if was && !enabled {
                    self.metrics.active_policies = self.metrics.active_policies - 1;
                } else if !was && enabled {
                    self.metrics.active_policies = self.metrics.active_policies + 1;
                }
                Ok(())
            },
            None => Err(id_message("Policy with ID ", policy_id, " not found")),
        }
    }

    /// The policy under `policy_id`, if any.
    pub fn get_policy(&self, policy_id: &str) -> (r: Option<&SecurityPolicy>)
        ensures
            match self.policies_view().map_values(|e: (Seq<char>, SecurityPolicy)| e.0).index_of_first(policy_id@) {
                Some(i) => r == Some(&self.policies_view()[i].1),
                None => r is None,
            },
    {
        proof {
            assert(policy_entries(self.policies@).map_values(|e: (Seq<char>, SecurityPolicy)| e.0) =~= keys_of(self.policies@));
        }
        match find_key(&self.policies, policy_id) {
            Some(i) => Some(&self.policies[i].1),
            None => None,
        }
    }

    /// All policies, in storage order.
    pub fn get_all_policies(&self) -> (r: Vec<&SecurityPolicy>)
        ensures
            r@.map_values(|x: &SecurityPolicy| *x) == self.policies_view().map_values(|e: (Seq<char>, SecurityPolicy)| e.1),
    {
        let mut r: Vec<&SecurityPolicy> = Vec::new();
        let mut i: usize = 0;
        while i < self.policies.len()
            invariant
                i <= self.policies@.len(),
                r@.map_values(|x: &SecurityPolicy| *x) == self.policies_view().take(i as int).map_values(|e: (Seq<char>, SecurityPolicy)| e.1),
            decreases self.policies@.len() - i,
        {
            let ghost before = r@;
            r.push(&self.policies[i].1);
            proof {
                assert(r@.map_values(|x: &SecurityPolicy| *x) =~= before.map_values(|x: &SecurityPolicy| *x).push(self.policies@[i as int].1));
                assert(self.policies_view().take(i + 1).map_values(|e: (Seq<char>, SecurityPolicy)| e.1)
                    =~= self.policies_view().take(i as int).map_values(|e: (Seq<char>, SecurityPolicy)| e.1).push(self.policies@[i as int].1));
            }
            i = i + 1;
        }
        proof {
            assert(self.policies_view().take(i as int) =~= self.policies_view());
        }
        r
    }

    /// The policies in category `category`, in storage order.
    pub fn get_policies_by_category(&self, category: &SecurityCategory) -> (r: Vec<&SecurityPolicy>)
        ensures
            r@.map_values(|x: &SecurityPolicy| *x) == policies_in(self.policies_view(), *category),
    {
        let mut r: Vec<&SecurityPolicy> = Vec::new();
        let mut i: usize = 0;
        while i < self.policies.len()
            invariant
                i <= self.policies@.len(),
                r@.map_values(|x: &SecurityPolicy| *x) == policies_in(self.policies_view().take(i as int), *category),
            decreases self.policies@.len() - i,
        {
            let ghost before = r@;
            proof {
                assert(self.policies_view().take(i + 1).drop_last() =~= self.policies_view().take(i as int));
            }
            if self.policies[i].1.category == *category {
                r.push(&self.policies[i].1);
                proof {
                    assert(r@.map_values(|x: &SecurityPolicy| *x) =~= before.map_values(|x: &SecurityPolicy| *x).push(self.policies@[i as int].1));
                }
            }
            i = i + 1;
        }
        proof {
            assert(self.policies_view().take(i as int) =~= self.policies_view());
        }
        r
    }

    /// The violation under `violation_id`, if any.
    pub fn get_violation(&self, violation_id: &str) -> (r: Option<&PolicyViolation>)
        ensures
            match self.violations_view().map_values(|e: (Seq<char>, ViolationView)| e.0).index_of_first(violation_id@) {
                Some(i) => r matches Some(v) && v@ == self.violations_view()[i].1,
                None => r is None,
            },
    {
        proof {
            assert(violation_entries(self.violations@).map_values(|e: (Seq<char>, ViolationView)| e.0) =~= keys_of(self.violations@));
        }
        match find_key(&self.violations, violation_id) {
            Some(i) => Some(&self.violations[i].1),
            None => None,
        }
    }

    /// All violations, in storage order.
    pub fn get_all_violations(&self) -> (r: Vec<&PolicyViolation>)
        ensures
            r@.map_values(|x: &PolicyViolation| x@) == self.violations_view().map_values(|e: (Seq<char>, ViolationView)| e.1),
    {
        let mut r: Vec<&PolicyViolation> = Vec::new();
        let mut i: usize = 0;
        while i < self.violations.len()
            invariant
                i <= self.violations@.len(),
                r@.map_values(|x: &PolicyViolation| x@) == self.violations_view().take(i as int).map_values(|e: (Seq<char>, ViolationView)| e.1),
            decreases self.violations@.len() - i,
        {
            let ghost before = r@;
            r.push(&self.violations[i].1);
            proof {
                assert(r@.map_values(|x: &PolicyViolation| x@) =~= before.map_values(|x: &PolicyViolation| x@).push(self.violations@[i as int].1@));
                assert(self.violations_view().take(i + 1).map_values(|e: (Seq<char>, ViolationView)| e.1)
                    =~= self.violations_view().take(i as int).map_values(|e: (Seq<char>, ViolationView)| e.1).push(self.violations@[i as int].1@));
            }
            i = i + 1;
        }
        proof {
            assert(self.violations_view().take(i as int) =~= self.violations_view());
        }
        r
    }

    /// The violations of policy `policy_id`, in storage order.
    pub fn get_violations_by_policy(&self, policy_id: &str) -> (r: Vec<&PolicyViolation>)
        ensures
            r@.map_values(|x: &PolicyViolation| x@) == violations_of(self.violations_view(), policy_id@),
    {
        let key = owned(policy_id);
        let mut r: Vec<&PolicyViolation> = Vec::new();
        let mut i: usize = 0;
        while i < self.violations.len()
            invariant
                i <= self.violations@.len(),
                key@ == policy_id@,
                r@.map_values(|x: &PolicyViolation| x@) == violations_of(self.violations_view().take(i as int), policy_id@),
            decreases self.violations@.len() - i,
        {
            let ghost before = r@;
            proof {
                assert(self.violations_view().take(i + 1).drop_last() =~= self.violations_view().take(i as int));
            }
            if self.violations[i].1.policy_id == key {
                r.push(&self.violations[i].1);
                proof {
                    assert(r@.map_values(|x: &PolicyViolation| x@) =~= before.map_values(|x: &PolicyViolation| x@).push(self.violations@[i as int].1@));
                }
            }
            i = i + 1;
        }
        proof {
            assert(self.violations_view().take(i as int) =~= self.violations_view());
        }
        r
    }

    /// The counts.
    pub fn get_metrics(&self) -> (m: &PolicyMetrics)
        ensures
            *m == self.metrics_view(),
    {
        &self.metrics
    }

    /// Recomputes the compliance score from the violation counts.
    fn calculate_compliance_score(&mut self)
        ensures
            final(self).metrics_view() == (PolicyMetrics {
                compliance_score: compliance_for(old(self).metrics_view().total_violations, old(self).metrics_view().open_violations),
                ..old(self).metrics_view()
            }),
            final(self).policies_view() == old(self).policies_view(),
            final(self).violations_view() == old(self).violations_view(),
            final(self).config_view() == old(self).config_view(),
    {
        if self.metrics.total_violations == 0 {
            self.metrics.compliance_score = 100;
        } else if self.metrics.open_violations >= 10 {
            self.metrics.compliance_score = 50;
        } else {
            self.metrics.compliance_score = 100 - 5 * (self.metrics.open_violations as u32);
        }
    }
}

} // verus!

verus! {

/// `count` once a violation moves from status `from` to status `to`,
/// where `count` counts the violations in status `s`.
pub open spec fn moved(count: u64, s: ViolationStatus, from: ViolationStatus, to: ViolationStatus) -> int {
    count - (if from == s { 1int } else { 0int }) + (if to == s { 1int } else { 0int })
}

/// Moving `count` from `from` to `to` neither drops below zero nor
/// overflows.
pub open spec fn can_move(count: u64, s: ViolationStatus, from: ViolationStatus, to: ViolationStatus) -> bool {
    &&& count - (if from == s { 1int } else { 0int }) >= 0
    &&& moved(count, s, from, to) <= u64::MAX
}

/// A copy of a violation.
fn copy_violation(v: &PolicyViolation) -> (c: PolicyViolation)
    ensures
        c@ == v@,
{
    let c = PolicyViolation {
        id: v.id.clone(),
        policy_id: v.policy_id.clone(),
        rule_id: v.rule_id.clone(),
        violation_type: v.violation_type,
        severity: v.severity,
        component: v.component.clone(),
        file_path: match &v.file_path {
            Some(p) => Some(p.clone()),
            None => None,
        },
        line_number: v.line_number,
        description: v.description.clone(),
        evidence: clone_strings(&v.evidence),
        timestamp: v.timestamp,
        status: v.status,
        remediation: v.remediation.clone(),
    };
    assert(c@ =~= v@);
    c
}

/// Stores `v` in `vs` under its id.
fn put_violation_entry(vs: &mut Vec<(String, PolicyViolation)>, v: PolicyViolation)
    ensures
        violation_entries(final(vs)@) == put_violation(violation_entries(old(vs)@), v@),
{
    let ghost before = violation_entries(vs@);
    proof {
        assert(before.map_values(|e: (Seq<char>, ViolationView)| e.0) =~= keys_of(vs@));
    }
    let k = v.id.clone();
    let ghost vv = v@;
    match find_key(vs, k.as_str()) {
        Some(i) => {
            let _ = vs.remove(i);
            vs.insert(i, (k, v));
            proof {
                assert(violation_entries(vs@) =~= before.update(i as int, (vv.id, vv)));
            }
        },
        None => {
            vs.push((k, v));
            proof {
                assert(violation_entries(vs@) =~= before.push((vv.id, vv)));
            }
        },
    }
}

/// The violation rule `r` of policy `x` reports at `now`.
fn make_violation(x: &SecurityPolicy, r: &SecurityRule, now: u64) -> (v: PolicyViolation)
    ensures
        v@ == violation_for(*x, *r, now),
{
    let mut id = concat("violation-", x.id.as_str());
    id.append("-");
    id.append(r.id.as_str());
    let mut evidence: Vec<String> = Vec::new();
    evidence.push(owned("Static analysis detected unsafe code usage"));
    let v = PolicyViolation {
        id,
        policy_id: x.id.clone(),
        rule_id: r.id.clone(),
        violation_type: ViolationType::CodeViolation,
        severity: r.severity,
        component: owned("crypto"),
        file_path: Some(owned("src/crypto/real_implementations.rs")),
        line_number: Some(42),
        description: concat("Policy violation: ", r.name.as_str()),
        evidence,
        timestamp: now,
        status: ViolationStatus::Open,
        remediation: r.description.clone(),
    };
    assert(views(v.evidence@) =~= seq!["Static analysis detected unsafe code usage"@]);
    assert(v@ =~= violation_for(*x, *r, now));
    v
}

impl SecurityPolicyManager {
    /// Sets the status of the violation under `violation_id`, moving the
    /// open, resolved and false-positive counts with it, and recomputes the
    /// compliance score; an unknown key is an error.
    pub fn update_violation_status(&mut self, violation_id: &str, status: ViolationStatus) -> (r: Result<(), String>)
        requires
            old(self).violations_view().map_values(|e: (Seq<char>, ViolationView)| e.0).index_of_first(violation_id@) matches Some(i) ==> {
                let from = old(self).violations_view()[i].1.status;
                let m = old(self).metrics_view();
                &&& can_move(m.open_violations, ViolationStatus::Open, from, status)
                &&& can_move(m.resolved_violations, ViolationStatus::Resolved, from, status)
                &&& can_move(m.false_positives, ViolationStatus::FalsePositive, from, status)
            },
        ensures
            final(self).config_view() == old(self).config_view(),
            final(self).policies_view() == old(self).policies_view(),
            match old(self).violations_view().map_values(|e: (Seq<char>, ViolationView)| e.0).index_of_first(violation_id@) {
                Some(i) => {
                    let from = old(self).violations_view()[i].1.status;
                    let m = old(self).metrics_view();
                    let open = moved(m.open_violations, ViolationStatus::Open, from, status) as u64;
                    &&& r is Ok
                    &&& final(self).violations_view() == old(self).violations_view().update(i,
                        (old(self).violations_view()[i].0, ViolationView { status, ..old(self).violations_view()[i].1 }))
                    &&& final(self).metrics_view() == (PolicyMetrics {
                        open_violations: open,
                        resolved_violations: moved(m.resolved_violations, ViolationStatus::Resolved, from, status) as u64,
                        false_positives: moved(m.false_positives, ViolationStatus::FalsePositive, from, status) as u64,
                        compliance_score: compliance_for(m.total_violations, open),
                        ..m
                    })
                },
                None => {
                    &&& r matches Err(e) && e@ == "Violation with ID "@ + violation_id@ + " not found"@
                    &&& final(self).violations_view() == old(self).violations_view()
                    &&& final(self).metrics_view() == old(self).metrics_view()
                },
            },
    {
        proof {
            assert(violation_entries(self.violations@).map_values(|e: (Seq<char>, ViolationView)| e.0) =~= keys_of(self.violations@));
        }
        match find_key(&self.violations, violation_id) {
            Some(i) => {
                let ghost before = violation_entries(self.violations@);
                let (k, mut v) = self.violations.remove(i);
                let from = v.status;
                v.status = status;
                let ghost kv = k@;
                let ghost vv = v@;
                self.violations.insert(i, (k, v));
                proof {
                    assert(violation_entries(self.violations@) =~= before.update(i as int, (kv, vv)));
                    assert(vv =~= (ViolationView { status, ..before[i as int].1 }));
                }
                match from {
                    ViolationStatus::Open => self.metrics.open_violations = self.metrics.open_violations - 1,
                    ViolationStatus::Resolved => self.metrics.resolved_violations = self.metrics.resolved_violations - 1,
                    ViolationStatus::FalsePositive => self.metrics.false_positives = self.metrics.false_positives - 1,
                    _ => {},
                }
                match status {
                    ViolationStatus::Open => self.metrics.open_violations = self.metrics.open_violations + 1,
                    ViolationStatus::Resolved => self.metrics.resolved_violations = self.metrics.resolved_violations + 1,
                    ViolationStatus::FalsePositive => self.metrics.false_positives = self.metrics.false_positives + 1,
                    _ => {},
                }
                self.calculate_compliance_score();
                Ok(())
            },
            None => Err(id_message("Violation with ID ", violation_id, " not found")),
        }
    }
}

} // verus!

verus! {

/// A policy's rules report at most one violation each.
pub proof fn lemma_rule_violations_len(x: SecurityPolicy, rs: Seq<SecurityRule>, now: u64)
    ensures
        rule_violations(x, rs, now).len() <= rs.len(),
    decreases rs.len(),
{
    if rs.len() > 0 {
        lemma_rule_violations_len(x, rs.drop_last(), now);
    }
}

/// A scan reports at most one violation per rule.
pub proof fn lemma_scan_results_len(es: Seq<(Seq<char>, SecurityPolicy)>, now: u64)
    ensures
        scan_results(es, now).len() <= rule_total(es),
    decreases es.len(),
{
    if es.len() > 0 {
        lemma_scan_results_len(es.drop_last(), now);
        lemma_rule_violations_len(es.last().1, es.last().1.rules@, now);
    }
}

impl SecurityPolicyManager {
    /// Scans the enabled policies at `now`: every enabled rule whose
    /// pattern mentions "unsafe" reports a violation. The violations are
    /// returned in storage order, stored by id and counted as found and
    /// open; the scan time and compliance score are updated.
    pub fn run_compliance_scan(&mut self, now: u64) -> (r: Result<Vec<PolicyViolation>, String>)
        requires
            old(self).metrics_view().total_violations + rule_total(old(self).policies_view()) <= u64::MAX,
            old(self).metrics_view().open_violations + rule_total(old(self).policies_view()) <= u64::MAX,
        ensures
            final(self).config_view() == old(self).config_view(),
            final(self).policies_view() == old(self).policies_view(),
            r is Ok,
            ({
                let found = scan_results(old(self).policies_view(), now);
                let m = old(self).metrics_view();
                let total = (m.total_violations + found.len()) as u64;
                let open = (m.open_violations + found.len()) as u64;
                &&& violation_views(r->Ok_0@) == found
                &&& final(self).violations_view() == put_violations(old(self).violations_view(), found)
                &&& final(self).metrics_view() == (PolicyMetrics {
                    total_violations: total,
                    open_violations: open,
                    last_scan_time: now,
                    compliance_score: compliance_for(total, open),
                    ..m
                })
            }),
    {
        let ghost es = policy_entries(self.policies@);
        let mut out: Vec<PolicyViolation> = Vec::new();
        let mut i: usize = 0;
        proof {
            assert(es.take(0) =~= Seq::<(Seq<char>, SecurityPolicy)>::empty());
            assert(violation_views(out@) =~= Seq::<ViolationView>::empty());
        }
        while i < self.policies.len()
            invariant
                i <= es.len(),
                es == policy_entries(self.policies@),
                violation_views(out@) == scan_results(es.take(i as int), now),
            decreases es.len() - i,
        {
            proof {
                assert(es.take(i + 1).drop_last() =~= es.take(i as int));
            }
            let x = &self.policies[i].1;
            if x.enabled {
                let mut j: usize = 0;
                let ghost base = violation_views(out@);
                proof {
                    assert(x.rules@.take(0) =~= Seq::<SecurityRule>::empty());
                }
                while j < x.rules.len()
                    invariant
                        j <= x.rules@.len(),
                        violation_views(out@) == base + rule_violations(*x, x.rules@.take(j as int), now),
                    decreases x.rules@.len() - j,
                {
                    let rule = &x.rules[j];
                    let ghost prev = out@;
                    proof {
                        assert(x.rules@.take(j + 1).drop_last() =~= x.rules@.take(j as int));
                    }
                    if rule.enabled && str_contains(rule.pattern.as_str(), "unsafe") {
                        let v = make_violation(x, rule, now);
                        out.push(v);
                        proof {
                            assert(violation_views(out@) =~= violation_views(prev).push(violation_for(*x, *rule, now)));
                        }
                    }
                    proof {
                        assert(violation_views(out@) =~= base + rule_violations(*x, x.rules@.take(j + 1), now));
                    }
                    j = j + 1;
                }
                proof {
                    assert(x.rules@.take(j as int) =~= x.rules@);
                }
            }
            proof {
                assert(violation_views(out@) =~= scan_results(es.take(i + 1), now));
            }
            i = i + 1;
        }
        proof {
            assert(es.take(i as int) =~= es);
            lemma_scan_results_len(es, now);
        }
        let ghost found = violation_views(out@);
        let ghost start = violation_entries(self.violations@);
        let mut k: usize = 0;
        while k < out.len()
            invariant
                k <= out@.len(),
                found == violation_views(out@),
                violation_entries(self.violations@) == put_violations(start, found.take(k as int)),
                es == policy_entries(self.policies@),
                self.metrics == old(self).metrics,
                self.config == old(self).config,
            decreases out@.len() - k,
        {
            let c = copy_violation(&out[k]);
            put_violation_entry(&mut self.violations, c);
            proof {
                assert(found.take(k + 1).drop_last() =~= found.take(k as int));
            }
            k = k + 1;
        }
        proof {
            assert(found.take(k as int) =~= found);
        }
        let n = out.len() as u64;
        self.metrics.total_violations = self.metrics.total_violations + n;
        self.metrics.open_violations = self.metrics.open_violations + n;
        self.metrics.last_scan_time = now;
        self.calculate_compliance_score();
        Ok(out)
    }
}

} // verus!

verus! {

/// The compliance score runs from 50 to 100, is 100 without violations
/// and never rises with more open violations.
pub proof fn lemma_compliance_score_range(total: u64, open: u64, more_open: u64)
    requires
        open <= more_open,
    ensures
        50 <= compliance_for(total, open) <= 100,
        total == 0 ==> compliance_for(total, open) == 100,
        compliance_for(total, more_open) <= compliance_for(total, open),
{
}

} // verus!
