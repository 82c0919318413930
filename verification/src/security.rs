//! The security manager: its settings and its summary audit.
//!
//! Scores are whole percentages: the audit takes 15 points off per
//! vulnerability, so no precision is lost against fractional scores.

use vstd::prelude::*;
use crate::text::owned;

verus! {

/// Severity levels, most severe first.
#[derive(Debug, Clone, Copy, PartialEq, Eq, Structural, PartialOrd, Ord)]
pub enum SecuritySeverity {
    Critical,
    High,
    Medium,
    Low,
    Info,
}

/// Which scans run and how often; `scan_frequency` is in seconds.
#[derive(Debug, Clone, Copy)]
pub struct SecurityConfig {
    pub enable_vulnerability_scanning: bool,
    pub enable_static_analysis: bool,
    pub enable_dynamic_analysis: bool,
    pub enable_dependency_scanning: bool,
    pub enable_network_scanning: bool,
    pub enable_penetration_testing: bool,
    pub scan_frequency: u64,
    pub severity_threshold: SecuritySeverity,
}

impl Default for SecurityConfig {
    /// Every scan but penetration testing, hourly, from medium severity.
    fn default() -> (c: Self)
        ensures
            c.enable_vulnerability_scanning && c.enable_static_analysis && c.enable_dynamic_analysis,
            c.enable_dependency_scanning && c.enable_network_scanning,
            !c.enable_penetration_testing,
            c.scan_frequency == 3600,
            c.severity_threshold == SecuritySeverity::Medium,
    {
        SecurityConfig {
            enable_vulnerability_scanning: true,
            enable_static_analysis: true,
            enable_dynamic_analysis: true,
            enable_dependency_scanning: true,
            enable_network_scanning: true,
            enable_penetration_testing: false,
            scan_frequency: 3600,
            severity_threshold: SecuritySeverity::Medium,
        }
    }
}

/// A vulnerability found by the summary audit.
#[derive(Debug)]
pub struct SecurityVulnerability {
    pub id: String,
    pub title: String,
    pub description: String,
    pub severity: SecuritySeverity,
    pub component: String,
    pub remediation: String,
}

/// Outcome of the summary audit; both scores run from 0 to 100.
#[derive(Debug)]
pub struct SecurityAuditResult {
    pub audit_id: String,
    pub total_vulnerabilities: usize,
    pub critical_count: usize,
    pub high_count: usize,
    pub medium_count: usize,
    pub low_count: usize,
    pub info_count: usize,
    pub vulnerabilities: Vec<SecurityVulnerability>,
    pub security_score: u32,
    pub recommendations: Vec<String>,
    pub compliance_score: u32,
}

/// Runs the summary audit.
pub struct SecurityManager {
    config: SecurityConfig,
}

/// The texts of known vulnerability `k`: id, title, description,
/// component, remediation; then its severity.
pub open spec fn known_vulnerability(k: int) -> (&'static str, &'static str, &'static str, &'static str, &'static str, SecuritySeverity) {
    if k == 0 {
        ("vuln-001", "Use of unsafe code detected", "Unsafe code usage found in cryptographic implementation", "crypto",
            "Review and secure unsafe code usage", SecuritySeverity::High)
    } else {
        ("vuln-002", "Vulnerable dependency detected", "Dependency has known security vulnerabilities", "dependencies",
            "Update dependency to latest secure version", SecuritySeverity::Medium)
    }
}

/// `v` is known vulnerability `k`.
pub open spec fn is_known(v: SecurityVulnerability, k: int) -> bool {
    let (id, title, description, component, remediation, severity) = known_vulnerability(k);
    &&& v.id@ == id@
    &&& v.title@ == title@
    &&& v.description@ == description@
    &&& v.component@ == component@
    &&& v.remediation@ == remediation@
    &&& v.severity == severity
}

/// The audit's recommendation `k`.
pub open spec fn audit_advice(k: int) -> &'static str {
    if k == 0 {
        "⚠️ HIGH: Address 1 high-severity vulnerabilities"
    } else if k == 1 {
        "🔐 Use strong encryption algorithms (AES-256-GCM, ChaCha20-Poly1305)"
    } else if k == 2 {
        "🌐 Enable TLS/SSL encryption for all network communications"
    } else if k == 3 {
        "💻 Review and fix code security violations"
    } else if k == 4 {
        "📚 Regular security training for development team"
    } else if k == 5 {
        "🔄 Implement automated security testing in CI/CD pipeline"
    } else if k == 6 {
        "📊 Regular security audits and penetration testing"
    } else {
        "🛡️ Implement security monitoring and alerting"
    }
}

/// The audit's recommendation `k`.
fn advice(k: usize) -> (s: &'static str)
    ensures
        s == audit_advice(k as int),
{
    if k == 0 {
        "⚠️ HIGH: Address 1 high-severity vulnerabilities"
    } else if k == 1 {
        "🔐 Use strong encryption algorithms (AES-256-GCM, ChaCha20-Poly1305)"
    } else if k == 2 {
        "🌐 Enable TLS/SSL encryption for all network communications"
    } else if k == 3 {
        "💻 Review and fix code security violations"
    } else if k == 4 {
        "📚 Regular security training for development team"
    } else if k == 5 {
        "🔄 Implement automated security testing in CI/CD pipeline"
    } else if k == 6 {
        "📊 Regular security audits and penetration testing"
    } else {
        "🛡️ Implement security monitoring and alerting"
    }
}

/// Number of vulnerabilities among `vs` with severity `s`.
pub open spec fn with_severity(vs: Seq<SecurityVulnerability>, s: SecuritySeverity) -> nat
    decreases vs.len(),
{
    if vs.len() == 0 {
        0
    } else {
        with_severity(vs.drop_last(), s) + if vs.last().severity == s { 1nat } else { 0nat }
    }
}

/// Counts the vulnerabilities of severity `s`.
fn count_with(vs: &Vec<SecurityVulnerability>, s: SecuritySeverity) -> (n: usize)
    ensures
        n == with_severity(vs@, s),
{
    let mut n: usize = 0;
    let mut i: usize = 0;
    while i < vs.len()
        invariant
            i <= vs@.len(),
            n <= i,
            n == with_severity(vs@.take(i as int), s),
        decreases vs@.len() - i,
    {
        proof {
            assert(vs@.take(i + 1).drop_last() =~= vs@.take(i as int));
        }
        if vs[i].severity == s {
            n = n + 1;
        }
        i = i + 1;
    }
    proof {
        assert(vs@.take(i as int) =~= vs@);
    }
    n
}

/// Known vulnerability `k`.
fn known(k: usize) -> (v: SecurityVulnerability)
    ensures
        is_known(v, k as int),
{
    if k == 0 {
        SecurityVulnerability {
            id: owned("vuln-001"),
            title: owned("Use of unsafe code detected"),
            description: owned("Unsafe code usage found in cryptographic implementation"),
            severity: SecuritySeverity::High,
            component: owned("crypto"),
            remediation: owned("Review and secure unsafe code usage"),
        }
    } else {
        SecurityVulnerability {
            id: owned("vuln-002"),
            title: owned("Vulnerable dependency detected"),
            description: owned("Dependency has known security vulnerabilities"),
            severity: SecuritySeverity::Medium,
            component: owned("dependencies"),
            remediation: owned("Update dependency to latest secure version"),
        }
    }
}

impl SecurityManager {
    pub closed spec fn config_view(&self) -> SecurityConfig {
        self.config
    }

    /// A manager with `config`.
    pub fn new(config: SecurityConfig) -> (m: Self)
        ensures
            m.config_view() == config,
    {
        SecurityManager { config }
    }

    /// The configuration.
    pub fn config(&self) -> (c: SecurityConfig)
        ensures
            c == self.config_view(),
    {
        self.config
    }

    /// The summary audit: the two known vulnerabilities (unsafe code, a
    /// vulnerable dependency) counted by severity, a score of 100 less 15
    /// per vulnerability, eight standing recommendations and a compliance
    /// score of 85.
    pub fn run_security_audit(&mut self) -> (r: Result<SecurityAuditResult, String>)
        ensures
            final(self).config_view() == old(self).config_view(),
            r is Ok,
            ({
                let a = r->Ok_0;
                let vs = a.vulnerabilities@;
                &&& a.audit_id@ == "audit-001"@
                &&& vs.len() == 2
                &&& is_known(vs[0], 0) && is_known(vs[1], 1)
                &&& a.total_vulnerabilities == vs.len()
                &&& a.critical_count == with_severity(vs, SecuritySeverity::Critical)
                &&& a.high_count == with_severity(vs, SecuritySeverity::High)
                &&& a.medium_count == with_severity(vs, SecuritySeverity::Medium)
                &&& a.low_count == with_severity(vs, SecuritySeverity::Low)
                &&& a.info_count == with_severity(vs, SecuritySeverity::Info)
                &&& a.security_score == 100 - 15 * vs.len()
                &&& a.recommendations@.len() == 8
                &&& forall|k: int| 0 <= k < 8 ==> (#[trigger] a.recommendations@[k])@ == audit_advice(k)@
                &&& a.compliance_score == 85
            }),
    {
        let mut vulnerabilities: Vec<SecurityVulnerability> = Vec::new();
        vulnerabilities.push(known(0));
        vulnerabilities.push(known(1));
        let security_score: u32 = 100 - 15 * (vulnerabilities.len() as u32);
        let mut recommendations: Vec<String> = Vec::new();
        let mut k: usize = 0;
        while k < 8
            invariant
                k <= 8,
                recommendations@.len() == k,
                forall|j: int| 0 <= j < k ==> (#[trigger] recommendations@[j])@ == audit_advice(j)@,
            decreases 8 - k,
        {
            recommendations.push(owned(advice(k)));
            k = k + 1;
        }
        let critical_count = count_with(&vulnerabilities, SecuritySeverity::Critical);
        let high_count = count_with(&vulnerabilities, SecuritySeverity::High);
        let medium_count = count_with(&vulnerabilities, SecuritySeverity::Medium);
        let low_count = count_with(&vulnerabilities, SecuritySeverity::Low);
        let info_count = count_with(&vulnerabilities, SecuritySeverity::Info);
        Ok(SecurityAuditResult {
            audit_id: owned("audit-001"),
            total_vulnerabilities: vulnerabilities.len(),
            critical_count,
            high_count,
            medium_count,
            low_count,
            info_count,
            vulnerabilities,
            security_score,
            recommendations,
            compliance_score: 85,
        })
    }
}

} // verus!
