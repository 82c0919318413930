//! Whole-system security audits: fixed checklists per area (code,
//! architecture, cryptography, network, compliance) produce findings, which
//! are scored, ranked by risk, checked for compliance, summarised and turned
//! into recommendations.
//!
//! Scores are whole numbers from 0 to 100: every deduction is a whole
//! number, so no precision is lost against fractional scores.

use vstd::prelude::*;
use crate::text::{owned, concat, u64_to_string, decimal, chars_of, push_char};
use crate::strvec::{views, clone_strings};

verus! {

/// How deep an audit goes.
#[derive(Debug, Clone, Copy, PartialEq, Eq, Structural)]
pub enum AuditDepth {
    Basic,
    Standard,
    Comprehensive,
    Deep,
}

/// Report formats.
#[derive(Debug, Clone, Copy, PartialEq, Eq, Structural)]
pub enum ReportFormat {
    Json,
    Html,
    Pdf,
    Markdown,
}

/// Which areas an audit covers, and how it reports.
#[derive(Debug, Clone, Copy)]
pub struct SecurityAuditorConfig {
    pub enable_code_audit: bool,
    pub enable_architecture_audit: bool,
    pub enable_cryptographic_audit: bool,
    pub enable_network_audit: bool,
    pub enable_compliance_audit: bool,
    pub audit_depth: AuditDepth,
    pub report_format: ReportFormat,
}

impl Default for SecurityAuditorConfig {
    /// Every area on, comprehensive depth, JSON reports.
    fn default() -> (c: Self)
        ensures
            c.enable_code_audit && c.enable_architecture_audit && c.enable_cryptographic_audit,
            c.enable_network_audit && c.enable_compliance_audit,
            c.audit_depth == AuditDepth::Comprehensive,
            c.report_format == ReportFormat::Json,
    {
        SecurityAuditorConfig {
            enable_code_audit: true,
            enable_architecture_audit: true,
            enable_cryptographic_audit: true,
            enable_network_audit: true,
            enable_compliance_audit: true,
            audit_depth: AuditDepth::Comprehensive,
            report_format: ReportFormat::Json,
        }
    }
}

/// Kinds of audit.
#[derive(Debug, Clone, Copy, PartialEq, Eq, Structural)]
pub enum AuditType {
    CodeReview,
    ArchitectureReview,
    CryptographicReview,
    NetworkSecurityReview,
    ComplianceReview,
    PenetrationTest,
    VulnerabilityAssessment,
    FullSecurityAudit,
}

/// Risk levels, most severe first.
#[derive(Debug, Clone, Copy, PartialEq, Eq, Structural, PartialOrd, Ord)]
pub enum RiskLevel {
    Critical,
    High,
    Medium,
    Low,
    Minimal,
}

/// Areas a finding belongs to.
#[derive(Debug, Clone, Copy, PartialEq, Eq, Structural)]
pub enum SecurityCategory {
    Authentication,
    Authorization,
    Encryption,
    Network,
    Data,
    Code,
    Infrastructure,
    Architecture,
    Compliance,
    BusinessLogic,
    Configuration,
}

/// Severity of a finding, most severe first.
#[derive(Debug, Clone, Copy, PartialEq, Eq, Structural, PartialOrd, Ord)]
pub enum FindingSeverity {
    Critical,
    High,
    Medium,
    Low,
    Info,
}

/// How likely a finding is to be exploited.
#[derive(Debug, Clone, Copy, PartialEq, Eq, Structural)]
pub enum Likelihood {
    VeryHigh,
    High,
    Medium,
    Low,
    VeryLow,
}

/// Priority of a recommendation, most urgent first.
#[derive(Debug, Clone, Copy, PartialEq, Eq, Structural, PartialOrd, Ord)]
pub enum Priority {
    Critical,
    High,
    Medium,
    Low,
}

/// Effort a recommendation takes.
#[derive(Debug, Clone, Copy, PartialEq, Eq, Structural)]
pub enum Effort {
    Low,
    Medium,
    High,
    VeryHigh,
}

/// Impact of a recommendation.
#[derive(Debug, Clone, Copy, PartialEq, Eq, Structural)]
pub enum Impact {
    Low,
    Medium,
    High,
    Critical,
}

/// Compliance standards.
#[derive(Debug)]
pub enum ComplianceStandard {
    ISO27001,
    SOC2,
    PCI_DSS,
    GDPR,
    HIPAA,
    NIST,
    OWASP,
    Custom(String),
}

/// How far a requirement is met.
#[derive(Debug, Clone, Copy, PartialEq, Eq, Structural)]
pub enum ComplianceStatusType {
    Compliant,
    NonCompliant,
    PartiallyCompliant,
    NotApplicable,
}

/// One requirement of a standard and how far it is met.
#[derive(Debug)]
pub struct ComplianceItem {
    pub standard: ComplianceStandard,
    pub requirement: String,
    pub status: ComplianceStatusType,
    pub description: String,
    pub remediation: String,
}

/// Standards checked, percentage of compliance (0 to 100) and the items
/// that fail.
#[derive(Debug)]
pub struct ComplianceStatus {
    pub standards: Vec<ComplianceStandard>,
    pub overall_compliance: u32,
    pub non_compliant_items: Vec<ComplianceItem>,
}

/// One finding of an audit; `discovered_at` is in seconds since the Unix
/// epoch.
#[derive(Debug)]
pub struct SecurityFinding {
    pub id: String,
    pub title: String,
    pub description: String,
    pub category: SecurityCategory,
    pub severity: FindingSeverity,
    pub risk_level: RiskLevel,
    pub component: String,
    pub file_path: Option<String>,
    pub line_number: Option<u32>,
    pub evidence: Vec<String>,
    pub impact: String,
    pub likelihood: Likelihood,
    pub remediation: String,
    pub references: Vec<String>,
    pub discovered_at: u64,
}

/// The text of an optional string.
pub open spec fn opt_text(s: Option<String>) -> Option<Seq<char>> {
    match s {
        Some(x) => Some(x@),
        None => None,
    }
}

/// What a finding says, with its strings as text.
#[verifier::ext_equal]
pub struct FindingView {
    pub id: Seq<char>,
    pub title: Seq<char>,
    pub description: Seq<char>,
    pub category: SecurityCategory,
    pub severity: FindingSeverity,
    pub risk_level: RiskLevel,
    pub component: Seq<char>,
    pub file_path: Option<Seq<char>>,
    pub line_number: Option<u32>,
    pub evidence: Seq<Seq<char>>,
    pub impact: Seq<char>,
    pub likelihood: Likelihood,
    pub remediation: Seq<char>,
    pub references: Seq<Seq<char>>,
    pub discovered_at: u64,
}

impl View for SecurityFinding {
    type V = FindingView;

    open spec fn view(&self) -> FindingView {
        FindingView {
            id: self.id@,
            title: self.title@,
            description: self.description@,
            category: self.category,
            severity: self.severity,
            risk_level: self.risk_level,
            component: self.component@,
            file_path: opt_text(self.file_path),
            line_number: self.line_number,
            evidence: views(self.evidence@),
            impact: self.impact@,
            likelihood: self.likelihood,
            remediation: self.remediation@,
            references: views(self.references@),
            discovered_at: self.discovered_at,
        }
    }
}

/// The views of a list of findings.
pub open spec fn finding_views(fs: Seq<SecurityFinding>) -> Seq<FindingView> {
    fs.map_values(|f: SecurityFinding| f@)
}

/// A copy of an optional string.
fn copy_opt(s: &Option<String>) -> (r: Option<String>)
    ensures
        opt_text(r) == opt_text(*s),
{
    match s {
        Some(x) => Some(x.clone()),
        None => None,
    }
}

/// A copy of `f`.
fn copy_finding(f: &SecurityFinding) -> (r: SecurityFinding)
    ensures
        r@ == f@,
{
    let r = SecurityFinding {
        id: f.id.clone(),
        title: f.title.clone(),
        description: f.description.clone(),
        category: f.category,
        severity: f.severity,
        risk_level: f.risk_level,
        component: f.component.clone(),
        file_path: copy_opt(&f.file_path),
        line_number: f.line_number,
        evidence: clone_strings(&f.evidence),
        impact: f.impact.clone(),
        likelihood: f.likelihood,
        remediation: f.remediation.clone(),
        references: clone_strings(&f.references),
        discovered_at: f.discovered_at,
    };
    assert(r@ =~= f@);
    r
}

/// `s` in lower case with spaces as hyphens (ASCII letters only are
/// lowered).
pub open spec fn slug(s: Seq<char>) -> Seq<char> {
    s.map_values(|c: char| slug_char(c))
}

/// One character of a slug.
pub open spec fn slug_char(c: char) -> char {
    if c == ' ' {
        '-'
    } else if 'A' <= c <= 'Z' {
        ((c as u32) + 32) as char
    } else {
        c
    }
}

/// The slug of `s`.
fn make_slug(s: &str) -> (r: String)
    ensures
        r@ == slug(s@),
{
    let cs = chars_of(s);
    let mut r = String::new();
    let mut i: usize = 0;
    while i < cs.len()
        invariant
            i <= cs@.len(),
            cs@ == s@,
            r@ == slug(s@.subrange(0, i as int)),
        decreases cs@.len() - i,
    {
        let c = cs[i];
        let d = if c == ' ' {
            '-'
        } else if 'A' <= c && c <= 'Z' {
            let v: u8 = (c as u8) + 32;
            v as char
        } else {
            c
        };
        push_char(&mut r, d);
        proof {
            assert(s@.subrange(0, i + 1) =~= s@.subrange(0, i as int).push(c));
            assert(slug(s@.subrange(0, i + 1)) =~= slug(s@.subrange(0, i as int)).push(slug_char(c)));
        }
        i = i + 1;
    }
    proof {
        assert(s@.subrange(0, i as int) =~= s@);
    }
    r
}

} // verus!

verus! {

/// The areas an audit walks through, in order.
#[derive(Debug, Clone, Copy, PartialEq, Eq, Structural)]
pub enum AuditArea {
    Code,
    Architecture,
    Cryptography,
    Network,
    Compliance,
}

/// The fixed texts of the findings of one area.
pub struct AreaText {
    /// Start of the finding ids.
    pub prefix: &'static str,
    /// Start of the descriptions; the issue follows.
    pub label: &'static str,
    pub component: &'static str,
    pub file_path: Option<&'static str>,
    pub evidence: &'static str,
    pub impact: &'static str,
    pub likelihood: Likelihood,
    /// Start of the remediations; the issue follows.
    pub remediation: &'static str,
    pub reference: Option<&'static str>,
}

/// The texts of area `a`.
pub open spec fn area_spec(a: AuditArea) -> AreaText {
    match a {
        AuditArea::Code => AreaText {
            prefix: "code-",
            label: "Code security issue: ",
            component: "code",
            file_path: Some("src/"),
            evidence: "Static analysis detected potential issue",
            impact: "Potential security vulnerability",
            likelihood: Likelihood::Medium,
            remediation: "Review and fix: ",
            reference: Some("https://owasp.org/www-project-top-ten/"),
        },
        AuditArea::Architecture => AreaText {
            prefix: "arch-",
            label: "Architecture security issue: ",
            component: "architecture",
            file_path: None,
            evidence: "Architecture review identified issue",
            impact: "System reliability and security risk",
            likelihood: Likelihood::Low,
            remediation: "Address architectural issue: ",
            reference: None,
        },
        AuditArea::Cryptography => AreaText {
            prefix: "crypto-",
            label: "Cryptographic security issue: ",
            component: "cryptography",
            file_path: Some("src/crypto/"),
            evidence: "Cryptographic analysis identified issue",
            impact: "Data confidentiality and integrity risk",
            likelihood: Likelihood::High,
            remediation: "Implement secure cryptographic practices: ",
            reference: Some("https://nvlpubs.nist.gov/nistpubs/SpecialPublications/NIST.SP.800-57pt1r5.pdf"),
        },
        AuditArea::Network => AreaText {
            prefix: "network-",
            label: "Network security issue: ",
            component: "network",
            file_path: Some("src/network/"),
            evidence: "Network security analysis identified issue",
            impact: "Network security and data protection risk",
            likelihood: Likelihood::Medium,
            remediation: "Implement network security measures: ",
            reference: Some("https://owasp.org/www-project-top-ten/"),
        },
        AuditArea::Compliance => AreaText {
            prefix: "compliance-",
            label: "Compliance issue: ",
            component: "compliance",
            file_path: None,
            evidence: "Compliance review identified issue",
            impact: "Regulatory compliance risk",
            likelihood: Likelihood::Low,
            remediation: "Address compliance requirements: ",
            reference: None,
        },
    }
}

/// The texts of area `a`.
fn area_text(a: AuditArea) -> (t: AreaText)
    ensures
        t == area_spec(a),
{
    match a {
        AuditArea::Code => AreaText {
            prefix: "code-",
            label: "Code security issue: ",
            component: "code",
            file_path: Some("src/"),
            evidence: "Static analysis detected potential issue",
            impact: "Potential security vulnerability",
            likelihood: Likelihood::Medium,
            remediation: "Review and fix: ",
            reference: Some("https://owasp.org/www-project-top-ten/"),
        },
        AuditArea::Architecture => AreaText {
            prefix: "arch-",
            label: "Architecture security issue: ",
            component: "architecture",
            file_path: None,
            evidence: "Architecture review identified issue",
            impact: "System reliability and security risk",
            likelihood: Likelihood::Low,
            remediation: "Address architectural issue: ",
            reference: None,
        },
        AuditArea::Cryptography => AreaText {
            prefix: "crypto-",
            label: "Cryptographic security issue: ",
            component: "cryptography",
            file_path: Some("src/crypto/"),
            evidence: "Cryptographic analysis identified issue",
            impact: "Data confidentiality and integrity risk",
            likelihood: Likelihood::High,
            remediation: "Implement secure cryptographic practices: ",
            reference: Some("https://nvlpubs.nist.gov/nistpubs/SpecialPublications/NIST.SP.800-57pt1r5.pdf"),
        },
        AuditArea::Network => AreaText {
            prefix: "network-",
            label: "Network security issue: ",
            component: "network",
            file_path: Some("src/network/"),
            evidence: "Network security analysis identified issue",
            impact: "Network security and data protection risk",
            likelihood: Likelihood::Medium,
            remediation: "Implement network security measures: ",
            reference: Some("https://owasp.org/www-project-top-ten/"),
        },
        AuditArea::Compliance => AreaText {
            prefix: "compliance-",
            label: "Compliance issue: ",
            component: "compliance",
            file_path: None,
            evidence: "Compliance review identified issue",
            impact: "Regulatory compliance risk",
            likelihood: Likelihood::Low,
            remediation: "Address compliance requirements: ",
            reference: None,
        },
    }
}

/// Number of issues checked in area `a`.
pub open spec fn issue_count(a: AuditArea) -> nat {
    match a {
        AuditArea::Code => 4,
        AuditArea::Architecture => 3,
        AuditArea::Cryptography => 3,
        AuditArea::Network => 3,
        AuditArea::Compliance => 2,
    }
}

/// Issue `k` of area `a`: its title, category, severity and risk.
pub open spec fn issue(a: AuditArea, k: int) -> (&'static str, SecurityCategory, FindingSeverity, RiskLevel) {
    match a {
        AuditArea::Code => if k == 0 {
            ("Unsafe code usage", SecurityCategory::Code, FindingSeverity::High, RiskLevel::High)
        } else if k == 1 {
            ("Memory management issues", SecurityCategory::Code, FindingSeverity::Medium, RiskLevel::Medium)
        } else if k == 2 {
            ("Error handling vulnerabilities", SecurityCategory::Code, FindingSeverity::Medium, RiskLevel::Medium)
        } else {
            ("Input validation issues", SecurityCategory::Code, FindingSeverity::High, RiskLevel::High)
        },
        AuditArea::Architecture => if k == 0 {
            ("Single point of failure", SecurityCategory::Architecture, FindingSeverity::High, RiskLevel::High)
        } else if k == 1 {
            ("Insufficient redundancy", SecurityCategory::Architecture, FindingSeverity::Medium, RiskLevel::Medium)
        } else {
            ("Weak separation of concerns", SecurityCategory::Architecture, FindingSeverity::Medium, RiskLevel::Medium)
        },
        AuditArea::Cryptography => if k == 0 {
            ("Weak encryption algorithms", SecurityCategory::Encryption, FindingSeverity::Critical, RiskLevel::Critical)
        } else if k == 1 {
            ("Insecure key generation", SecurityCategory::Encryption, FindingSeverity::High, RiskLevel::High)
        } else {
            ("Key management issues", SecurityCategory::Encryption, FindingSeverity::High, RiskLevel::High)
        },
        AuditArea::Network => if k == 0 {
            ("Unencrypted communications", SecurityCategory::Network, FindingSeverity::High, RiskLevel::High)
        } else if k == 1 {
            ("Weak authentication", SecurityCategory::Authentication, FindingSeverity::High, RiskLevel::High)
        } else {
            ("Insufficient access controls", SecurityCategory::Authorization, FindingSeverity::Medium, RiskLevel::Medium)
        },
        AuditArea::Compliance => if k == 0 {
            ("Data protection compliance", SecurityCategory::Compliance, FindingSeverity::High, RiskLevel::High)
        } else {
            ("Security standard compliance", SecurityCategory::Compliance, FindingSeverity::Medium, RiskLevel::Medium)
        },
    }
}

/// Issue `k` of area `a`.
fn issue_row(a: AuditArea, k: usize) -> (r: (&'static str, SecurityCategory, FindingSeverity, RiskLevel))
    ensures
        r == issue(a, k as int),
{
    match a {
        AuditArea::Code => if k == 0 {
            ("Unsafe code usage", SecurityCategory::Code, FindingSeverity::High, RiskLevel::High)
        } else if k == 1 {
            ("Memory management issues", SecurityCategory::Code, FindingSeverity::Medium, RiskLevel::Medium)
        } else if k == 2 {
            ("Error handling vulnerabilities", SecurityCategory::Code, FindingSeverity::Medium, RiskLevel::Medium)
        } else {
            ("Input validation issues", SecurityCategory::Code, FindingSeverity::High, RiskLevel::High)
        },
        AuditArea::Architecture => if k == 0 {
            ("Single point of failure", SecurityCategory::Architecture, FindingSeverity::High, RiskLevel::High)
        } else if k == 1 {
            ("Insufficient redundancy", SecurityCategory::Architecture, FindingSeverity::Medium, RiskLevel::Medium)
        } else {
            ("Weak separation of concerns", SecurityCategory::Architecture, FindingSeverity::Medium, RiskLevel::Medium)
        },
        AuditArea::Cryptography => if k == 0 {
            ("Weak encryption algorithms", SecurityCategory::Encryption, FindingSeverity::Critical, RiskLevel::Critical)
        } else if k == 1 {
            ("Insecure key generation", SecurityCategory::Encryption, FindingSeverity::High, RiskLevel::High)
        } else {
            ("Key management issues", SecurityCategory::Encryption, FindingSeverity::High, RiskLevel::High)
        },
        AuditArea::Network => if k == 0 {
            ("Unencrypted communications", SecurityCategory::Network, FindingSeverity::High, RiskLevel::High)
        } else if k == 1 {
            ("Weak authentication", SecurityCategory::Authentication, FindingSeverity::High, RiskLevel::High)
        } else {
            ("Insufficient access controls", SecurityCategory::Authorization, FindingSeverity::Medium, RiskLevel::Medium)
        },
        AuditArea::Compliance => if k == 0 {
            ("Data protection compliance", SecurityCategory::Compliance, FindingSeverity::High, RiskLevel::High)
        } else {
            ("Security standard compliance", SecurityCategory::Compliance, FindingSeverity::Medium, RiskLevel::Medium)
        },
    }
}

/// Number of issues checked in area `a`.
fn issue_total(a: AuditArea) -> (n: usize)
    ensures
        n == issue_count(a),
{
    match a {
        AuditArea::Code => 4,
        AuditArea::Architecture => 3,
        AuditArea::Cryptography => 3,
        AuditArea::Network => 3,
        AuditArea::Compliance => 2,
    }
}

/// The text of an optional literal.
pub open spec fn lit_text(s: Option<&'static str>) -> Option<Seq<char>> {
    match s {
        Some(x) => Some(x@),
        None => None,
    }
}

/// The finding that issue `k` of area `a` gives at `now`.
pub open spec fn issue_finding(a: AuditArea, k: int, now: u64) -> FindingView {
    let t = area_spec(a);
    let (title, category, severity, risk_level) = issue(a, k);
    FindingView {
        id: t.prefix@ + slug(title@),
        title: title@,
        description: t.label@ + title@,
        category,
        severity,
        risk_level,
        component: t.component@,
        file_path: lit_text(t.file_path),
        line_number: None,
        evidence: seq![t.evidence@],
        impact: t.impact@,
        likelihood: t.likelihood,
        remediation: t.remediation@ + title@,
        references: match t.reference {
            Some(r) => seq![r@],
            None => Seq::empty(),
        },
        discovered_at: now,
    }
}

/// The findings of area `a` at `now`, in checklist order.
pub open spec fn area_findings(a: AuditArea, now: u64) -> Seq<FindingView> {
    Seq::new(issue_count(a), |k: int| issue_finding(a, k, now))
}

/// The finding for issue `k` of area `a` at `now`.
fn make_finding(a: AuditArea, k: usize, now: u64) -> (f: SecurityFinding)
    requires
        k < issue_count(a),
    ensures
        f@ == issue_finding(a, k as int, now),
{
    let t = area_text(a);
    let (title, category, severity, risk_level) = issue_row(a, k);
    let slugged = make_slug(title);
    let mut evidence: Vec<String> = Vec::new();
    evidence.push(owned(t.evidence));
    let mut references: Vec<String> = Vec::new();
    match t.reference {
        Some(r) => references.push(owned(r)),
        None => {},
    }
    let f = SecurityFinding {
        id: concat(t.prefix, slugged.as_str()),
        title: owned(title),
        description: concat(t.label, title),
        category,
        severity,
        risk_level,
        component: owned(t.component),
        file_path: match t.file_path {
            Some(p) => Some(owned(p)),
            None => None,
        },
        line_number: None,
        evidence,
        impact: owned(t.impact),
        likelihood: t.likelihood,
        remediation: concat(t.remediation, title),
        references,
        discovered_at: now,
    };
    assert(views(f.evidence@) =~= seq![t.evidence@]);
    assert(f.references@.len() == 0 ==> views(f.references@) =~= Seq::<Seq<char>>::empty());
    assert(f.references@.len() == 1 ==> views(f.references@) =~= seq![f.references@[0]@]);
    assert(f@ =~= issue_finding(a, k as int, now));
    f
}

/// Appends the findings of area `a` at `now` to `out`.
fn audit_area(a: AuditArea, now: u64, out: &mut Vec<SecurityFinding>)
    ensures
        finding_views(final(out)@) == finding_views(old(out)@) + area_findings(a, now),
{
    let n = issue_total(a);
    let ghost start = finding_views(out@);
    let mut k: usize = 0;
    while k < n
        invariant
            k <= n,
            n == issue_count(a),
            finding_views(out@) == start + area_findings(a, now).take(k as int),
        decreases n - k,
    {
        let f = make_finding(a, k, now);
        let ghost before = out@;
        out.push(f);
        proof {
            assert(finding_views(out@) =~= finding_views(before).push(f@));
            assert(area_findings(a, now).take(k + 1) =~= area_findings(a, now).take(k as int).push(f@));
        }
        k = k + 1;
    }
    proof {
        assert(area_findings(a, now).take(k as int) =~= area_findings(a, now));
    }
}

} // verus!

verus! {

/// A recommendation that follows from the findings.
#[derive(Debug)]
pub struct SecurityRecommendation {
    pub id: String,
    pub title: String,
    pub description: String,
    pub priority: Priority,
    pub effort: Effort,
    pub impact: Impact,
    pub category: SecurityCategory,
    pub implementation_guidance: String,
    pub references: Vec<String>,
}

/// What a recommendation says, with its strings as text.
#[verifier::ext_equal]
pub struct RecommendationView {
    pub id: Seq<char>,
    pub title: Seq<char>,
    pub description: Seq<char>,
    pub priority: Priority,
    pub effort: Effort,
    pub impact: Impact,
    pub category: SecurityCategory,
    pub implementation_guidance: Seq<char>,
    pub references: Seq<Seq<char>>,
}

impl View for SecurityRecommendation {
    type V = RecommendationView;

    open spec fn view(&self) -> RecommendationView {
        RecommendationView {
            id: self.id@,
            title: self.title@,
            description: self.description@,
            priority: self.priority,
            effort: self.effort,
            impact: self.impact,
            category: self.category,
            implementation_guidance: self.implementation_guidance@,
            references: views(self.references@),
        }
    }
}

/// The views of a list of recommendations.
pub open spec fn recommendation_views(rs: Seq<SecurityRecommendation>) -> Seq<RecommendationView> {
    rs.map_values(|r: SecurityRecommendation| r@)
}

/// Number of findings with severity `s`.
pub open spec fn severity_total(fs: Seq<FindingView>, s: FindingSeverity) -> nat
    decreases fs.len(),
{
    if fs.len() == 0 {
        0
    } else {
        severity_total(fs.drop_last(), s) + if fs.last().severity == s { 1nat } else { 0nat }
    }
}

/// Number of findings in category `c`.
pub open spec fn category_total(fs: Seq<FindingView>, c: SecurityCategory) -> nat
    decreases fs.len(),
{
    if fs.len() == 0 {
        0
    } else {
        category_total(fs.drop_last(), c) + if fs.last().category == c { 1nat } else { 0nat }
    }
}

/// Points a finding of severity `s` takes off the score.
pub open spec fn deduction(s: FindingSeverity) -> nat {
    match s {
        FindingSeverity::Critical => 25,
        FindingSeverity::High => 15,
        FindingSeverity::Medium => 10,
        FindingSeverity::Low => 5,
        FindingSeverity::Info => 1,
    }
}

/// Points all findings take off the score.
pub open spec fn total_deduction(fs: Seq<FindingView>) -> nat
    decreases fs.len(),
{
    if fs.len() == 0 {
        0
    } else {
        total_deduction(fs.drop_last()) + deduction(fs.last().severity)
    }
}

/// The security score: 100 less the deductions, at least 0.
pub open spec fn overall_score(fs: Seq<FindingView>) -> nat {
    if total_deduction(fs) >= 100 {
        0
    } else {
        (100 - total_deduction(fs)) as nat
    }
}

/// The points findings take off: 25 per critical, 15 per high, 10 per
/// medium, 5 per low and 1 per informational finding.
pub proof fn lemma_deduction_by_counts(fs: Seq<FindingView>)
    ensures
        total_deduction(fs) == 25 * severity_total(fs, FindingSeverity::Critical)
            + 15 * severity_total(fs, FindingSeverity::High) + 10 * severity_total(fs, FindingSeverity::Medium)
            + 5 * severity_total(fs, FindingSeverity::Low) + severity_total(fs, FindingSeverity::Info),
    decreases fs.len(),
{
    if fs.len() > 0 {
        lemma_deduction_by_counts(fs.drop_last());
    }
}

/// The security score is 100 less 25 per critical, 15 per high, 10 per
/// medium, 5 per low and 1 per informational finding, and never below 0; a
/// finding added never raises it, and a more severe finding added lowers it
/// at least as much as a less severe one.
pub proof fn lemma_score_by_severity(fs: Seq<FindingView>, f: FindingView, g: FindingView)
    ensures
        ({
            let d = 25 * severity_total(fs, FindingSeverity::Critical) + 15 * severity_total(fs, FindingSeverity::High)
                + 10 * severity_total(fs, FindingSeverity::Medium) + 5 * severity_total(fs, FindingSeverity::Low)
                + severity_total(fs, FindingSeverity::Info);
            overall_score(fs) == if d >= 100 { 0 } else { 100 - d }
        }),
        overall_score(fs.push(f)) <= overall_score(fs),
        f.severity == FindingSeverity::Critical ==> overall_score(fs.push(f)) <= overall_score(fs.push(g)),
        f.severity == FindingSeverity::High && g.severity != FindingSeverity::Critical ==> overall_score(fs.push(f)) <= overall_score(fs.push(g)),
        f.severity == FindingSeverity::Medium && (g.severity == FindingSeverity::Low || g.severity == FindingSeverity::Info)
            ==> overall_score(fs.push(f)) <= overall_score(fs.push(g)),
        f.severity == FindingSeverity::Low && g.severity == FindingSeverity::Info ==> overall_score(fs.push(f)) <= overall_score(fs.push(g)),
        fs.len() == 0 && f.severity == FindingSeverity::Critical ==> overall_score(fs.push(f)) == 75,
{
    lemma_deduction_by_counts(fs);
    assert(fs.push(f).drop_last() =~= fs);
    assert(fs.push(g).drop_last() =~= fs);
}

/// The risk a score stands for.
pub open spec fn risk_for(score: nat) -> RiskLevel {
    if score >= 90 {
        RiskLevel::Minimal
    } else if score >= 75 {
        RiskLevel::Low
    } else if score >= 60 {
        RiskLevel::Medium
    } else if score >= 40 {
        RiskLevel::High
    } else {
        RiskLevel::Critical
    }
}

/// Compliance percentage with `n` compliance findings: 10 points off
/// each, at least 0.
pub open spec fn compliance_percent(n: nat) -> nat {
    if 10 * n >= 100 {
        0
    } else {
        (100 - 10 * n) as nat
    }
}

/// Counts the findings of severity `s`.
fn count_severity(fs: &[SecurityFinding], s: FindingSeverity) -> (n: usize)
    ensures
        n == severity_total(finding_views(fs@), s),
{
    let mut n: usize = 0;
    let mut i: usize = 0;
    while i < fs.len()
        invariant
            i <= fs@.len(),
            n == severity_total(finding_views(fs@.take(i as int)), s),
            n <= i,
        decreases fs@.len() - i,
    {
        proof {
            assert(finding_views(fs@.take(i + 1)).drop_last() =~= finding_views(fs@.take(i as int)));
        }
        if fs[i].severity == s {
            n = n + 1;
        }
        i = i + 1;
    }
    proof {
        assert(fs@.take(i as int) =~= fs@);
    }
    n
}

/// Counts the findings in category `c`.
fn count_category(fs: &[SecurityFinding], c: SecurityCategory) -> (n: usize)
    ensures
        n == category_total(finding_views(fs@), c),
{
    let mut n: usize = 0;
    let mut i: usize = 0;
    while i < fs.len()
        invariant
            i <= fs@.len(),
            n == category_total(finding_views(fs@.take(i as int)), c),
            n <= i,
        decreases fs@.len() - i,
    {
        proof {
            assert(finding_views(fs@.take(i + 1)).drop_last() =~= finding_views(fs@.take(i as int)));
        }
        if fs[i].category == c {
            n = n + 1;
        }
        i = i + 1;
    }
    proof {
        assert(fs@.take(i as int) =~= fs@);
    }
    n
}

impl SecurityAuditor {
    /// The security score of `fs`: 100 less 25 per critical, 15 per high, 10
    /// per medium, 5 per low and 1 per informational finding, at least 0.
    pub fn calculate_overall_score(&self, fs: &[SecurityFinding]) -> (score: u32)
        ensures
            score == overall_score(finding_views(fs@)),
    {
        let mut taken: u32 = 0;
        let mut i: usize = 0;
        while i < fs.len()
            invariant
                i <= fs@.len(),
                taken <= 100,
                taken == (if total_deduction(finding_views(fs@.take(i as int))) >= 100 { 100 }
                    else { total_deduction(finding_views(fs@.take(i as int))) }),
            decreases fs@.len() - i,
        {
            proof {
                assert(finding_views(fs@.take(i + 1)).drop_last() =~= finding_views(fs@.take(i as int)));
            }
            let d: u32 = match fs[i].severity {
                FindingSeverity::Critical => 25,
                FindingSeverity::High => 15,
                FindingSeverity::Medium => 10,
                FindingSeverity::Low => 5,
                FindingSeverity::Info => 1,
            };
            taken = if taken + d >= 100 { 100 } else { taken + d };
            i = i + 1;
        }
        proof {
            assert(fs@.take(i as int) =~= fs@);
        }
        100 - taken
    }
}

impl SecurityAuditor {
    /// The risk level of a score: Minimal from 90, Low from 75, Medium from
    /// 60, High from 40, Critical below.
    pub fn determine_risk_level(&self, score: u32) -> (r: RiskLevel)
        ensures
            r == risk_for(score as nat),
    {
        if score >= 90 {
            RiskLevel::Minimal
        } else if score >= 75 {
            RiskLevel::Low
        } else if score >= 60 {
            RiskLevel::Medium
        } else if score >= 40 {
            RiskLevel::High
        } else {
            RiskLevel::Critical
        }
    }
}

impl SecurityAuditor {
    /// Compliance against OWASP, NIST and ISO 27001: 100 less 10 per
    /// compliance finding, at least 0; no failing items are listed.
    pub fn check_compliance_status(&self, fs: &[SecurityFinding]) -> (c: ComplianceStatus)
        ensures
            c.overall_compliance == compliance_percent(category_total(finding_views(fs@), SecurityCategory::Compliance)),
            c.standards@.len() == 3,
            c.standards@[0] is OWASP && c.standards@[1] is NIST && c.standards@[2] is ISO27001,
            c.non_compliant_items@.len() == 0,
    {
        let n = count_category(fs, SecurityCategory::Compliance);
        let overall: u32 = if n >= 10 { 0 } else { 100 - 10 * (n as u32) };
        let mut standards: Vec<ComplianceStandard> = Vec::new();
        standards.push(ComplianceStandard::OWASP);
        standards.push(ComplianceStandard::NIST);
        standards.push(ComplianceStandard::ISO27001);
        ComplianceStatus { standards, overall_compliance: overall, non_compliant_items: Vec::new() }
    }
}

} // verus!

verus! {

/// A recommendation without references.
pub open spec fn rec_view(id: &'static str, title: &'static str, description: Seq<char>, priority: Priority, effort: Effort,
    impact: Impact, category: SecurityCategory, guidance: &'static str) -> RecommendationView {
    RecommendationView {
        id: id@,
        title: title@,
        description,
        priority,
        effort,
        impact,
        category,
        implementation_guidance: guidance@,
        references: Seq::empty(),
    }
}

/// The recommendation to fix `c` critical findings.
pub open spec fn critical_rec(c: nat) -> RecommendationView {
    rec_view("rec-critical-001", "Address Critical Security Issues",
        "Fix "@ + decimal(c) + " critical security findings immediately"@, Priority::Critical, Effort::High,
        Impact::Critical, SecurityCategory::Code, "Prioritize critical security fixes in next sprint")
}

/// The recommendation to fix `h` high-severity findings.
pub open spec fn high_rec(h: nat) -> RecommendationView {
    rec_view("rec-high-001", "Address High Priority Security Issues",
        "Fix "@ + decimal(h) + " high priority security findings"@, Priority::High, Effort::Medium,
        Impact::High, SecurityCategory::Code, "Schedule high priority security fixes in upcoming releases")
}

/// The standing recommendation to train developers.
pub open spec fn training_rec() -> RecommendationView {
    rec_view("rec-training-001", "Security Training Program",
        "Implement comprehensive security training for development team"@, Priority::Medium, Effort::Medium,
        Impact::Medium, SecurityCategory::Compliance, "Develop and deliver security awareness training")
}

/// The standing recommendation to adopt a secure development process.
pub open spec fn process_rec() -> RecommendationView {
    rec_view("rec-process-001", "Security Development Lifecycle",
        "Implement security-first development process"@, Priority::High, Effort::High,
        Impact::High, SecurityCategory::Compliance, "Integrate security practices into development workflow")
}

/// The recommendations for `c` critical and `h` high-severity findings:
/// one for each kind present, then training and process.
pub open spec fn recommendations_for(c: nat, h: nat) -> Seq<RecommendationView> {
    (if c > 0 { seq![critical_rec(c)] } else { Seq::empty() })
        + (if h > 0 { seq![high_rec(h)] } else { Seq::empty() })
        + seq![training_rec(), process_rec()]
}

/// Builds a recommendation without references.
fn make_rec(id: &'static str, title: &'static str, description: String, priority: Priority, effort: Effort,
    impact: Impact, category: SecurityCategory, guidance: &'static str) -> (r: SecurityRecommendation)
    ensures
        r@ == rec_view(id, title, description@, priority, effort, impact, category, guidance),
{
    let r = SecurityRecommendation {
        id: owned(id),
        title: owned(title),
        description,
        priority,
        effort,
        impact,
        category,
        implementation_guidance: owned(guidance),
        references: Vec::new(),
    };
    assert(views(r.references@) =~= Seq::<Seq<char>>::empty());
    assert(r@ =~= rec_view(id, title, r.description@, priority, effort, impact, category, guidance));
    r
}

/// "Fix <n><rest>".
fn fix_text(n: usize, rest: &str) -> (s: String)
    ensures
        s@ == "Fix "@ + decimal(n as nat) + rest@,
{
    let num = u64_to_string(n as u64);
    let mut s = concat("Fix ", num.as_str());
    s.append(rest);
    s
}

impl SecurityAuditor {
    /// The recommendations that follow from `fs`: fix the critical findings
    /// (if any), fix the high-severity ones (if any), train developers, adopt
    /// a secure development process.
    pub fn generate_recommendations(&self, fs: &[SecurityFinding]) -> (r: Vec<SecurityRecommendation>)
        ensures
            recommendation_views(r@) == recommendations_for(
                severity_total(finding_views(fs@), FindingSeverity::Critical),
                severity_total(finding_views(fs@), FindingSeverity::High),
            ),
    {
        let c = count_severity(fs, FindingSeverity::Critical);
        let h = count_severity(fs, FindingSeverity::High);
        let mut r: Vec<SecurityRecommendation> = Vec::new();
        if c > 0 {
            r.push(make_rec("rec-critical-001", "Address Critical Security Issues",
                fix_text(c, " critical security findings immediately"), Priority::Critical, Effort::High,
                Impact::Critical, SecurityCategory::Code, "Prioritize critical security fixes in next sprint"));
        }
        if h > 0 {
            r.push(make_rec("rec-high-001", "Address High Priority Security Issues",
                fix_text(h, " high priority security findings"), Priority::High, Effort::Medium,
                Impact::High, SecurityCategory::Code, "Schedule high priority security fixes in upcoming releases"));
        }
        r.push(make_rec("rec-training-001", "Security Training Program",
            owned("Implement comprehensive security training for development team"), Priority::Medium, Effort::Medium,
            Impact::Medium, SecurityCategory::Compliance, "Develop and deliver security awareness training"));
        r.push(make_rec("rec-process-001", "Security Development Lifecycle",
            owned("Implement security-first development process"), Priority::High, Effort::High,
            Impact::High, SecurityCategory::Compliance, "Integrate security practices into development workflow"));
        assert(recommendation_views(r@) =~= recommendations_for(c as nat, h as nat));
        r
    }
}

/// The name of a risk level.
pub open spec fn risk_name(r: RiskLevel) -> Seq<char> {
    match r {
        RiskLevel::Critical => "Critical"@,
        RiskLevel::High => "High"@,
        RiskLevel::Medium => "Medium"@,
        RiskLevel::Low => "Low"@,
        RiskLevel::Minimal => "Minimal"@,
    }
}

/// The name of a risk level.
fn risk_label(r: RiskLevel) -> (s: &'static str)
    ensures
        s@ == risk_name(r),
{
    match r {
        RiskLevel::Critical => "Critical",
        RiskLevel::High => "High",
        RiskLevel::Medium => "Medium",
        RiskLevel::Low => "Low",
        RiskLevel::Minimal => "Minimal",
    }
}

/// The executive summary of an audit with `total` findings, `c` critical
/// and `h` high, scoring `score` at risk `risk`.
pub open spec fn summary_text(total: nat, c: nat, h: nat, score: nat, risk: RiskLevel) -> Seq<char> {
    "Security Audit Executive Summary:\n\nOverall Security Score: "@ + decimal(score) + ".0/100\nRisk Level: "@
        + risk_name(risk) + "\nTotal Findings: "@ + decimal(total) + "\nCritical Issues: "@ + decimal(c)
        + "\nHigh Priority Issues: "@ + decimal(h) + "\n\nThe security audit identified "@ + decimal(total)
        + " total findings, with "@ + decimal(c) + " critical and "@ + decimal(h)
        + " high priority issues. The overall security score of "@ + decimal(score) + ".0/100 indicates a "@
        + risk_name(risk)
        + " risk level. Immediate attention is required for critical and high priority findings to improve the security posture."@
}

impl SecurityAuditor {
    /// The executive summary of the findings `fs`, scored `score` at `risk`.
    pub fn generate_executive_summary(&self, fs: &[SecurityFinding], score: u32, risk: RiskLevel) -> (s: String)
        ensures
            s@ == summary_text(fs@.len(), severity_total(finding_views(fs@), FindingSeverity::Critical),
                severity_total(finding_views(fs@), FindingSeverity::High), score as nat, risk),
    {
        let c = u64_to_string(count_severity(fs, FindingSeverity::Critical) as u64);
        let h = u64_to_string(count_severity(fs, FindingSeverity::High) as u64);
        let n = u64_to_string(fs.len() as u64);
        let sc = u64_to_string(score as u64);
        let rk = risk_label(risk);
        let mut s = owned("Security Audit Executive Summary:\n\nOverall Security Score: ");
        s.append(sc.as_str());
        s.append(".0/100\nRisk Level: ");
        s.append(rk);
        s.append("\nTotal Findings: ");
        s.append(n.as_str());
        s.append("\nCritical Issues: ");
        s.append(c.as_str());
        s.append("\nHigh Priority Issues: ");
        s.append(h.as_str());
        s.append("\n\nThe security audit identified ");
        s.append(n.as_str());
        s.append(" total findings, with ");
        s.append(c.as_str());
        s.append(" critical and ");
        s.append(h.as_str());
        s.append(" high priority issues. The overall security score of ");
        s.append(sc.as_str());
        s.append(".0/100 indicates a ");
        s.append(rk);
        s.append(" risk level. Immediate attention is required for critical and high priority findings to improve the security posture.");
        s
    }
}

} // verus!

verus! {

/// The outcome of a full audit. `timestamp` is in seconds since the Unix
/// epoch; `overall_score` runs from 0 to 100.
#[derive(Debug)]
pub struct SecurityAuditResult {
    pub audit_id: String,
    pub timestamp: u64,
    pub audit_type: AuditType,
    pub overall_score: u32,
    pub risk_level: RiskLevel,
    pub findings: Vec<SecurityFinding>,
    pub recommendations: Vec<SecurityRecommendation>,
    pub compliance_status: ComplianceStatus,
    pub executive_summary: String,
}

/// `s` with `f` stored under its id: in place of the first finding with
/// that id, or at the end.
pub open spec fn put_finding(s: Seq<FindingView>, f: FindingView) -> Seq<FindingView> {
    match s.map_values(|x: FindingView| x.id).index_of_first(f.id) {
        Some(i) => s.update(i, f),
        None => s.push(f),
    }
}

/// `s` with each of `fs` stored in turn.
pub open spec fn put_findings(s: Seq<FindingView>, fs: Seq<FindingView>) -> Seq<FindingView>
    decreases fs.len(),
{
    if fs.len() == 0 {
        s
    } else {
        put_finding(put_findings(s, fs.drop_last()), fs.last())
    }
}

/// `s` with `r` stored under its id: in place of the first recommendation
/// with that id, or at the end.
pub open spec fn put_rec(s: Seq<RecommendationView>, r: RecommendationView) -> Seq<RecommendationView> {
    match s.map_values(|x: RecommendationView| x.id).index_of_first(r.id) {
        Some(i) => s.update(i, r),
        None => s.push(r),
    }
}

/// `s` with each of `rs` stored in turn.
pub open spec fn put_recs(s: Seq<RecommendationView>, rs: Seq<RecommendationView>) -> Seq<RecommendationView>
    decreases rs.len(),
{
    if rs.len() == 0 {
        s
    } else {
        put_rec(put_recs(s, rs.drop_last()), rs.last())
    }
}

/// Stores `f` in `v` under its id.
fn store_finding(v: &mut Vec<SecurityFinding>, f: SecurityFinding)
    ensures
        finding_views(final(v)@) == put_finding(finding_views(old(v)@), f@),
{
    let ghost before = finding_views(v@);
    let ghost ids = before.map_values(|x: FindingView| x.id);
    let mut i: usize = 0;
    while i < v.len()
        invariant
            i <= v@.len(),
            before == finding_views(v@),
            v@ == old(v)@,
            ids == before.map_values(|x: FindingView| x.id),
            forall|j: int| 0 <= j < i ==> ids[j] != f.id@,
        decreases v@.len() - i,
    {
        if v[i].id == f.id {
            proof {
                ids.index_of_first_ensures(f.id@);
                assert(ids[i as int] == f.id@);
                let k = ids.index_of_first(f.id@)->0;
                assert(k == i);
            }
            let ghost fv = f@;
            let _ = v.remove(i);
            v.insert(i, f);
            proof {
                assert(finding_views(v@) =~= before.update(i as int, fv));
            }
            return;
        }
        i = i + 1;
    }
    proof {
        ids.index_of_first_ensures(f.id@);
        if ids.contains(f.id@) {
            let j = choose|j: int| 0 <= j < ids.len() && ids[j] == f.id@;
            assert(ids[j] == f.id@);
        }
    }
    let ghost fv = f@;
    v.push(f);
    proof {
        assert(finding_views(v@) =~= before.push(fv));
    }
}

/// Stores `r` in `v` under its id.
fn store_rec(v: &mut Vec<SecurityRecommendation>, r: SecurityRecommendation)
    ensures
        recommendation_views(final(v)@) == put_rec(recommendation_views(old(v)@), r@),
{
    let ghost before = recommendation_views(v@);
    let ghost ids = before.map_values(|x: RecommendationView| x.id);
    let mut i: usize = 0;
    while i < v.len()
        invariant
            i <= v@.len(),
            before == recommendation_views(v@),
            v@ == old(v)@,
            ids == before.map_values(|x: RecommendationView| x.id),
            forall|j: int| 0 <= j < i ==> ids[j] != r.id@,
        decreases v@.len() - i,
    {
        if v[i].id == r.id {
            proof {
                ids.index_of_first_ensures(r.id@);
                assert(ids[i as int] == r.id@);
                let k = ids.index_of_first(r.id@)->0;
                assert(k == i);
            }
            let ghost rv = r@;
            let _ = v.remove(i);
            v.insert(i, r);
            proof {
                assert(recommendation_views(v@) =~= before.update(i as int, rv));
            }
            return;
        }
        i = i + 1;
    }
    proof {
        ids.index_of_first_ensures(r.id@);
        if ids.contains(r.id@) {
            let j = choose|j: int| 0 <= j < ids.len() && ids[j] == r.id@;
            assert(ids[j] == r.id@);
        }
    }
    let ghost rv = r@;
    v.push(r);
    proof {
        assert(recommendation_views(v@) =~= before.push(rv));
    }
}

} // verus!

verus! {

/// Runs audits and keeps their findings and recommendations by id.
pub struct SecurityAuditor {
    config: SecurityAuditorConfig,
    findings: Vec<SecurityFinding>,
    recommendations: Vec<SecurityRecommendation>,
}

/// The findings an audit under `c` gives at `now`: those of each enabled
/// area, in the order code, architecture, cryptography, network,
/// compliance.
pub open spec fn audit_plan(c: SecurityAuditorConfig, now: u64) -> Seq<FindingView> {
    (if c.enable_code_audit { area_findings(AuditArea::Code, now) } else { Seq::empty() })
        + (if c.enable_architecture_audit { area_findings(AuditArea::Architecture, now) } else { Seq::empty() })
        + (if c.enable_cryptographic_audit { area_findings(AuditArea::Cryptography, now) } else { Seq::empty() })
        + (if c.enable_network_audit { area_findings(AuditArea::Network, now) } else { Seq::empty() })
        + (if c.enable_compliance_audit { area_findings(AuditArea::Compliance, now) } else { Seq::empty() })
}

impl SecurityAuditor {
    pub closed spec fn config_view(&self) -> SecurityAuditorConfig {
        self.config
    }

    /// The stored findings, one per id, in the order their ids first came.
    pub closed spec fn findings_view(&self) -> Seq<FindingView> {
        finding_views(self.findings@)
    }

    /// The stored recommendations, one per id.
    pub closed spec fn recommendations_view(&self) -> Seq<RecommendationView> {
        recommendation_views(self.recommendations@)
    }

    /// An auditor with `config` and nothing stored.
    pub fn new(config: SecurityAuditorConfig) -> (a: Self)
        ensures
            a.config_view() == config,
            a.findings_view().len() == 0,
            a.recommendations_view().len() == 0,
    {
        SecurityAuditor { config, findings: Vec::new(), recommendations: Vec::new() }
    }

    /// The configuration.
    pub fn config(&self) -> (c: SecurityAuditorConfig)
        ensures
            c == self.config_view(),
    {
        self.config
    }

    /// The code checklist's findings at `now`.
    fn audit_code_security(&self, now: u64, out: &mut Vec<SecurityFinding>)
        ensures
            finding_views(final(out)@) == finding_views(old(out)@) + area_findings(AuditArea::Code, now),
    {
        audit_area(AuditArea::Code, now, out);
    }

    /// The architecture checklist's findings at `now`.
    fn audit_architecture_security(&self, now: u64, out: &mut Vec<SecurityFinding>)
        ensures
            finding_views(final(out)@) == finding_views(old(out)@) + area_findings(AuditArea::Architecture, now),
    {
        audit_area(AuditArea::Architecture, now, out);
    }

    /// The cryptography checklist's findings at `now`.
    fn audit_cryptographic_security(&self, now: u64, out: &mut Vec<SecurityFinding>)
        ensures
            finding_views(final(out)@) == finding_views(old(out)@) + area_findings(AuditArea::Cryptography, now),
    {
        audit_area(AuditArea::Cryptography, now, out);
    }

    /// The network checklist's findings at `now`.
    fn audit_network_security(&self, now: u64, out: &mut Vec<SecurityFinding>)
        ensures
            finding_views(final(out)@) == finding_views(old(out)@) + area_findings(AuditArea::Network, now),
    {
        audit_area(AuditArea::Network, now, out);
    }

    /// The compliance checklist's findings at `now`.
    fn audit_compliance(&self, now: u64, out: &mut Vec<SecurityFinding>)
        ensures
            finding_views(final(out)@) == finding_views(old(out)@) + area_findings(AuditArea::Compliance, now),
    {
        audit_area(AuditArea::Compliance, now, out);
    }

    /// The stored findings.
    pub fn get_findings(&self) -> (r: Vec<&SecurityFinding>)
        ensures
            r@.map_values(|f: &SecurityFinding| f@) == self.findings_view(),
    {
        let mut r: Vec<&SecurityFinding> = Vec::new();
        let mut i: usize = 0;
        while i < self.findings.len()
            invariant
                i <= self.findings@.len(),
                r@.map_values(|f: &SecurityFinding| f@) == finding_views(self.findings@).take(i as int),
            decreases self.findings@.len() - i,
        {
            let ghost before = r@;
            r.push(&self.findings[i]);
            proof {
                assert(r@.map_values(|f: &SecurityFinding| f@) =~= before.map_values(|f: &SecurityFinding| f@).push(self.findings@[i as int]@));
                assert(finding_views(self.findings@).take(i + 1) =~= finding_views(self.findings@).take(i as int).push(self.findings@[i as int]@));
            }
            i = i + 1;
        }
        proof {
            assert(finding_views(self.findings@).take(i as int) =~= finding_views(self.findings@));
        }
        r
    }

    /// The stored recommendations.
    pub fn get_recommendations(&self) -> (r: Vec<&SecurityRecommendation>)
        ensures
            r@.map_values(|x: &SecurityRecommendation| x@) == self.recommendations_view(),
    {
        let mut r: Vec<&SecurityRecommendation> = Vec::new();
        let mut i: usize = 0;
        while i < self.recommendations.len()
            invariant
                i <= self.recommendations@.len(),
                r@.map_values(|x: &SecurityRecommendation| x@) == recommendation_views(self.recommendations@).take(i as int),
            decreases self.recommendations@.len() - i,
        {
            let ghost before = r@;
            r.push(&self.recommendations[i]);
            proof {
                assert(r@.map_values(|x: &SecurityRecommendation| x@) =~= before.map_values(|x: &SecurityRecommendation| x@).push(self.recommendations@[i as int]@));
                assert(recommendation_views(self.recommendations@).take(i + 1) =~= recommendation_views(self.recommendations@).take(i as int).push(self.recommendations@[i as int]@));
            }
            i = i + 1;
        }
        proof {
            assert(recommendation_views(self.recommendations@).take(i as int) =~= recommendation_views(self.recommendations@));
        }
        r
    }
}

} // verus!

verus! {

/// A copy of `r`.
fn copy_rec(r: &SecurityRecommendation) -> (c: SecurityRecommendation)
    ensures
        c@ == r@,
{
    let c = SecurityRecommendation {
        id: r.id.clone(),
        title: r.title.clone(),
        description: r.description.clone(),
        priority: r.priority,
        effort: r.effort,
        impact: r.impact,
        category: r.category,
        implementation_guidance: r.implementation_guidance.clone(),
        references: clone_strings(&r.references),
    };
    assert(c@ =~= r@);
    c
}

impl SecurityAuditor {
    /// Runs every enabled area's checklist at `now` (seconds since the Unix
    /// epoch), then scores, ranks, checks compliance, summarises and
    /// recommends; stores the findings and recommendations by id.
    pub fn run_audit(&mut self, now_secs: u64) -> (r: Result<SecurityAuditResult, String>)
        ensures
            final(self).config_view() == old(self).config_view(),
            r is Ok,
            ({
                let res = r->Ok_0;
                let plan = audit_plan(old(self).config_view(), now_secs);
                let c = severity_total(plan, FindingSeverity::Critical);
                let h = severity_total(plan, FindingSeverity::High);
                let score = overall_score(plan);
                &&& res.audit_id@ == "audit-"@ + decimal(now_secs as nat)
                &&& res.timestamp == now_secs
                &&& res.audit_type == AuditType::FullSecurityAudit
                &&& finding_views(res.findings@) == plan
                &&& recommendation_views(res.recommendations@) == recommendations_for(c, h)
                &&& res.overall_score == score
                &&& res.risk_level == risk_for(score)
                &&& res.compliance_status.overall_compliance == compliance_percent(category_total(plan, SecurityCategory::Compliance))
                &&& res.compliance_status.standards@.len() == 3
                &&& res.compliance_status.standards@[0] is OWASP
                &&& res.compliance_status.standards@[1] is NIST
                &&& res.compliance_status.standards@[2] is ISO27001
                &&& res.compliance_status.non_compliant_items@.len() == 0
                &&& res.executive_summary@ == summary_text(plan.len(), c, h, score, risk_for(score))
                &&& final(self).findings_view() == put_findings(old(self).findings_view(), plan)
                &&& final(self).recommendations_view() == put_recs(old(self).recommendations_view(), recommendations_for(c, h))
            }),
    {
        let ghost cfg = self.config;
        let mut all: Vec<SecurityFinding> = Vec::new();
        let ghost e = Seq::<FindingView>::empty();
        assert(finding_views(all@) =~= e);
        if self.config.enable_code_audit {
            self.audit_code_security(now_secs, &mut all);
        }
        if self.config.enable_architecture_audit {
            self.audit_architecture_security(now_secs, &mut all);
        }
        if self.config.enable_cryptographic_audit {
            self.audit_cryptographic_security(now_secs, &mut all);
        }
        if self.config.enable_network_audit {
            self.audit_network_security(now_secs, &mut all);
        }
        if self.config.enable_compliance_audit {
            self.audit_compliance(now_secs, &mut all);
        }
        let ghost plan = audit_plan(cfg, now_secs);
        assert(finding_views(all@) =~= plan);
        let recs = self.generate_recommendations(all.as_slice());
        let score = self.calculate_overall_score(all.as_slice());
        let risk = self.determine_risk_level(score);
        let compliance = self.check_compliance_status(all.as_slice());
        let summary = self.generate_executive_summary(all.as_slice(), score, risk);
        let ghost old_findings = finding_views(self.findings@);
        let mut i: usize = 0;
        while i < all.len()
            invariant
                i <= all@.len(),
                finding_views(all@) == plan,
                finding_views(self.findings@) == put_findings(old_findings, plan.take(i as int)),
                self.config == cfg,
                recommendation_views(self.recommendations@) == recommendation_views(old(self).recommendations@),
            decreases all@.len() - i,
        {
            let f = copy_finding(&all[i]);
            store_finding(&mut self.findings, f);
            proof {
                assert(plan.take(i + 1).drop_last() =~= plan.take(i as int));
                assert(plan[i as int] == all@[i as int]@);
            }
            i = i + 1;
        }
        proof {
            assert(plan.take(i as int) =~= plan);
        }
        let ghost rplan = recommendation_views(recs@);
        let ghost old_recs = recommendation_views(self.recommendations@);
        let mut j: usize = 0;
        while j < recs.len()
            invariant
                j <= recs@.len(),
                rplan == recommendation_views(recs@),
                recommendation_views(self.recommendations@) == put_recs(old_recs, rplan.take(j as int)),
                finding_views(self.findings@) == put_findings(old_findings, plan),
                self.config == cfg,
            decreases recs@.len() - j,
        {
            let x = copy_rec(&recs[j]);
            store_rec(&mut self.recommendations, x);
            proof {
                assert(rplan.take(j + 1).drop_last() =~= rplan.take(j as int));
            }
            j = j + 1;
        }
        proof {
            assert(rplan.take(j as int) =~= rplan);
        }
        let stamp = u64_to_string(now_secs);
        Ok(SecurityAuditResult {
            audit_id: concat("audit-", stamp.as_str()),
            timestamp: now_secs,
            audit_type: AuditType::FullSecurityAudit,
            overall_score: score,
            risk_level: risk,
            findings: all,
            recommendations: recs,
            compliance_status: compliance,
            executive_summary: summary,
        })
    }
}

} // verus!

verus! {

/// Another finding never raises the security score.
pub proof fn lemma_score_never_rises(fs: Seq<FindingView>, f: FindingView)
    ensures
        overall_score(fs.push(f)) <= overall_score(fs),
{
    assert(fs.push(f).drop_last() =~= fs);
}

/// A higher score never means a higher risk: risk levels only fall (in
/// severity) as the score grows.
pub proof fn lemma_risk_follows_score(a: nat, b: nat)
    requires
        a <= b,
    ensures
        risk_rank(risk_for(b)) <= risk_rank(risk_for(a)),
{
}

/// Severity rank of a risk level: Minimal 0 up to Critical 4.
pub open spec fn risk_rank(r: RiskLevel) -> nat {
    match r {
        RiskLevel::Minimal => 0,
        RiskLevel::Low => 1,
        RiskLevel::Medium => 2,
        RiskLevel::High => 3,
        RiskLevel::Critical => 4,
    }
}

/// The score stays within 0 to 100, and is 100 exactly when nothing is
/// deducted.
pub proof fn lemma_score_range(fs: Seq<FindingView>)
    ensures
        overall_score(fs) <= 100,
        overall_score(fs) == 100 <==> total_deduction(fs) == 0,
{
}

/// The ids of some findings.
pub open spec fn finding_ids(s: Seq<FindingView>) -> Seq<Seq<char>> {
    s.map_values(|x: FindingView| x.id)
}

/// Storing findings by id never loses an id: every id stored before, and
/// every id stored now, is present afterwards.
pub proof fn lemma_put_findings_keeps_ids(s: Seq<FindingView>, fs: Seq<FindingView>, id: Seq<char>)
    ensures
        (finding_ids(s).contains(id) || finding_ids(fs).contains(id)) ==> finding_ids(put_findings(s, fs)).contains(id),
    decreases fs.len(),
{
    if fs.len() > 0 {
        let prev = put_findings(s, fs.drop_last());
        lemma_put_findings_keeps_ids(s, fs.drop_last(), id);
        let f = fs.last();
        let ids = finding_ids(prev);
        assert(ids =~= prev.map_values(|x: FindingView| x.id));
        ids.index_of_first_ensures(f.id);
        let next = put_finding(prev, f);
        let nids = finding_ids(next);
        let fids = finding_ids(fs);
        if fids.contains(id) {
            let j = choose|j: int| 0 <= j < fids.len() && #[trigger] fids[j] == id;
            if j < fs.len() - 1 {
                assert(finding_ids(fs.drop_last())[j] == id);
            }
        }
        if ids.contains(id) {
            let j = choose|j: int| 0 <= j < ids.len() && #[trigger] ids[j] == id;
            match ids.index_of_first(f.id) {
                Some(i) => {
                    if i == j {
                        assert(nids[j] == f.id);
                    } else {
                        assert(nids[j] == ids[j]);
                    }
                },
                None => {
                    assert(nids[j] == ids[j]);
                },
            }
        }
        if id == f.id {
            match ids.index_of_first(f.id) {
                Some(i) => assert(nids[i] == f.id),
                None => assert(nids[ids.len() as int] == f.id),
            }
        }
    }
}

} // verus!
