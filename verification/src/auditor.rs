//! Source auditing by fixed text patterns: each line of a file is checked
//! against the patterns of a set of rules, and every match becomes a
//! finding. Findings are then counted by level and turned into
//! recommendations, and the results render as an HTML page.

use vstd::prelude::*;
use crate::text::{owned, concat, u64_to_string, decimal, chars_of, has_substring, contains_in, str_contains,
    line_ranges, lines_of, trim_range, trimmed};
use crate::strvec::views;
use vstd::string::StrSliceExecFns;

verus! {

/// Severity of a finding.
#[derive(Debug, Clone, Copy, PartialEq, Eq, Structural)]
pub enum VulnerabilityLevel {
    Critical,
    High,
    Medium,
    Low,
    Info,
}

/// Kind of a finding.
#[derive(Debug, Clone, Copy, PartialEq, Eq, Structural)]
pub enum VulnerabilityType {
    MemorySafety,
    CryptographicWeakness,
    InputValidation,
    AccessControl,
    DataExposure,
    NetworkSecurity,
    ConfigurationIssue,
    DependencyVulnerability,
    CodeInjection,
    DenialOfService,
}

/// A finding. Its CVSS score follows from its level (`cvss_tenths`).
#[derive(Debug)]
pub struct Vulnerability {
    pub id: String,
    pub title: String,
    pub description: String,
    pub vulnerability_type: VulnerabilityType,
    pub level: VulnerabilityLevel,
    pub file_path: Option<String>,
    pub line_number: Option<u32>,
    pub code_snippet: Option<String>,
    pub remediation: String,
    pub cwe_id: Option<String>,
    /// When it was found, in milliseconds since the Unix epoch.
    pub discovered_at_ms: i64,
}

/// Counts of findings. The security score is `100 - weighted_score /
/// total_vulnerabilities` (at least 0), or 100 without findings.
#[derive(Debug, Clone, Copy)]
pub struct AuditSummary {
    pub total_vulnerabilities: usize,
    pub critical_count: usize,
    pub high_count: usize,
    pub medium_count: usize,
    pub low_count: usize,
    pub info_count: usize,
    pub files_scanned: usize,
    pub lines_of_code: usize,
    /// 10 per critical, 7 per high, 4 per medium and 1 per low finding.
    pub weighted_score: usize,
}

/// Auditor settings.
#[derive(Debug)]
pub struct AuditorConfig {
    pub scan_dependencies: bool,
    pub scan_config_files: bool,
    pub scan_documentation: bool,
    pub max_file_size: usize,
    pub excluded_paths: Vec<String>,
    pub severity_threshold: VulnerabilityLevel,
}

impl Default for AuditorConfig {
    /// Everything scanned, files up to 1 MiB, build, VCS and package
    /// directories excluded, threshold Medium.
    fn default() -> (c: Self)
        ensures
            c.scan_dependencies && c.scan_config_files && c.scan_documentation,
            c.max_file_size == 1048576,
            views(c.excluded_paths@) == seq!["target/"@, ".git/"@, "node_modules/"@],
            c.severity_threshold == VulnerabilityLevel::Medium,
    {
        let mut excluded_paths: Vec<String> = Vec::new();
        excluded_paths.push(owned("target/"));
        excluded_paths.push(owned(".git/"));
        excluded_paths.push(owned("node_modules/"));
        assert(views(excluded_paths@) =~= seq!["target/"@, ".git/"@, "node_modules/"@]);
        AuditorConfig {
            scan_dependencies: true,
            scan_config_files: true,
            scan_documentation: true,
            max_file_size: 1048576,
            excluded_paths,
            severity_threshold: VulnerabilityLevel::Medium,
        }
    }
}

/// A rule: literal text patterns and what a match means.
#[derive(Debug)]
pub struct SecurityRule {
    pub id: String,
    pub name: String,
    pub description: String,
    pub patterns: Vec<String>,
    pub vulnerability_type: VulnerabilityType,
    pub level: VulnerabilityLevel,
    pub cwe_id: Option<String>,
    pub remediation: String,
}

/// The view of an optional string.
pub open spec fn opt_view(o: Option<String>) -> Option<Seq<char>> {
    match o {
        Some(s) => Some(s@),
        None => None,
    }
}

/// A copy of an optional string.
pub fn clone_opt(o: &Option<String>) -> (r: Option<String>)
    ensures
        opt_view(r) == opt_view(*o),
{
    match o {
        Some(s) => Some(s.clone()),
        None => None,
    }
}

/// The ids of the rules.
pub open spec fn rule_ids(rules: Seq<SecurityRule>) -> Seq<Seq<char>> {
    rules.map_values(|r: SecurityRule| r.id@)
}

/// CVSS score of a level, in tenths.
pub open spec fn cvss_tenths_of(level: VulnerabilityLevel) -> u8 {
    match level {
        VulnerabilityLevel::Critical => 90,
        VulnerabilityLevel::High => 75,
        VulnerabilityLevel::Medium => 50,
        VulnerabilityLevel::Low => 20,
        VulnerabilityLevel::Info => 0,
    }
}

/// CVSS score of a level, in tenths (9.0, 7.5, 5.0, 2.0, 0.0).
pub fn cvss_tenths(level: VulnerabilityLevel) -> (t: u8)
    ensures
        t == cvss_tenths_of(level),
{
    match level {
        VulnerabilityLevel::Critical => 90,
        VulnerabilityLevel::High => 75,
        VulnerabilityLevel::Medium => 50,
        VulnerabilityLevel::Low => 20,
        VulnerabilityLevel::Info => 0,
    }
}

// ---------------------------------------------------------------------------
// Where patterns match

/// Matches of the first `upto` patterns on one line: (line, rule, pattern).
pub open spec fn pattern_hits(pats: Seq<Seq<char>>, line: Seq<char>, k: int, ri: int, upto: nat) -> Seq<(int, int, int)>
    decreases upto,
{
    if upto == 0 {
        Seq::empty()
    } else {
        let prev = pattern_hits(pats, line, k, ri, (upto - 1) as nat);
        if has_substring(line, pats[upto - 1]) {
            prev.push((k, ri, upto - 1))
        } else {
            prev
        }
    }
}

/// Matches of the first `upto` rules on line `k`.
pub open spec fn line_hits(rules: Seq<SecurityRule>, line: Seq<char>, k: int, upto: nat) -> Seq<(int, int, int)>
    decreases upto,
{
    if upto == 0 {
        Seq::empty()
    } else {
        let ri = upto - 1;
        line_hits(rules, line, k, (upto - 1) as nat) + pattern_hits(
            views(rules[ri].patterns@),
            line,
            k,
            ri,
            rules[ri].patterns@.len(),
        )
    }
}

/// Matches on the first `upto` lines, in line, rule, pattern order.
pub open spec fn file_hits(rules: Seq<SecurityRule>, lines: Seq<Seq<char>>, upto: nat) -> Seq<(int, int, int)>
    decreases upto,
{
    if upto == 0 {
        Seq::empty()
    } else {
        file_hits(rules, lines, (upto - 1) as nat) + line_hits(rules, lines[upto - 1], upto - 1, rules.len())
    }
}

/// `v` is the finding for a match of rule `rule` on line `k` (0-based),
/// whose text is `line`, of the file at `path`, found at `now`.
pub open spec fn describes(v: Vulnerability, rule: SecurityRule, path: Seq<char>, k: int, line: Seq<char>, now: i64) -> bool {
    &&& v.id@ == rule.id@
    &&& v.title@ == rule.name@
    &&& v.description@ == rule.description@
    &&& v.vulnerability_type == rule.vulnerability_type
    &&& v.level == rule.level
    &&& opt_view(v.file_path) == Some(path)
    &&& v.line_number == Some((k + 1) as u32)
    &&& opt_view(v.code_snippet) == Some(trimmed(line))
    &&& v.remediation@ == rule.remediation@
    &&& opt_view(v.cwe_id) == opt_view(rule.cwe_id)
    &&& v.discovered_at_ms == now
}

/// Number of findings of a level.
pub open spec fn count_level(vs: Seq<Vulnerability>, level: VulnerabilityLevel) -> nat
    decreases vs.len(),
{
    if vs.len() == 0 {
        0
    } else {
        count_level(vs.drop_last(), level) + if vs.last().level == level { 1nat } else { 0nat }
    }
}

/// Number of findings of a kind.
pub open spec fn count_type(vs: Seq<Vulnerability>, t: VulnerabilityType) -> nat
    decreases vs.len(),
{
    if vs.len() == 0 {
        0
    } else {
        count_type(vs.drop_last(), t) + if vs.last().vulnerability_type == t { 1nat } else { 0nat }
    }
}

/// Counts of a level never exceed the number of findings.
pub proof fn lemma_count_level_bound(vs: Seq<Vulnerability>, level: VulnerabilityLevel)
    ensures
        count_level(vs, level) <= vs.len(),
    decreases vs.len(),
{
    if vs.len() > 0 {
        lemma_count_level_bound(vs.drop_last(), level);
    }
}

/// The recommendations for a list of findings.
pub open spec fn recommendations_for(vs: Seq<Vulnerability>) -> Seq<Seq<char>> {
    let critical = count_level(vs, VulnerabilityLevel::Critical);
    let high = count_level(vs, VulnerabilityLevel::High);
    let a: Seq<Seq<char>> = if critical > 0 {
        seq!["CRITICAL: Address "@ + decimal(critical) + " critical vulnerabilities immediately"@]
    } else {
        Seq::empty()
    };
    let b: Seq<Seq<char>> = if high > 0 {
        seq!["HIGH: Fix "@ + decimal(high) + " high-severity vulnerabilities as soon as possible"@]
    } else {
        Seq::empty()
    };
    let c: Seq<Seq<char>> = if count_type(vs, VulnerabilityType::CryptographicWeakness) > 0 {
        seq!["CRYPTO: Review and update cryptographic implementations"@]
    } else {
        Seq::empty()
    };
    let d: Seq<Seq<char>> = if count_type(vs, VulnerabilityType::MemorySafety) > 0 {
        seq!["MEMORY: Review unsafe code blocks and memory operations"@]
    } else {
        Seq::empty()
    };
    let e: Seq<Seq<char>> = if count_type(vs, VulnerabilityType::InputValidation) > 0 {
        seq!["INPUT: Implement proper input validation and error handling"@]
    } else {
        Seq::empty()
    };
    a + b + c + d + e + seq![
        "SECURITY: Implement regular security audits and penetration testing"@,
        "DEPENDENCIES: Keep dependencies updated and monitor for vulnerabilities"@,
        "CONFIGURATION: Use secure configuration for production environments"@,
    ]
}

/// The findings `vs` are, one for one, the matches `hits` of `rules` on
/// `lines` of the file at `path`, found at `now`.
pub open spec fn reports(
    vs: Seq<Vulnerability>,
    hits: Seq<(int, int, int)>,
    rules: Seq<SecurityRule>,
    path: Seq<char>,
    lines: Seq<Seq<char>>,
    now: i64,
) -> bool {
    &&& vs.len() == hits.len()
    &&& forall|i: int| 0 <= i < vs.len() ==> describes(#[trigger] vs[i], rules[hits[i].1], path, hits[i].0, lines[hits[i].0], now)
}

/// The auditor and its rules.
pub struct SecurityAuditor {
    pub rules: Vec<SecurityRule>,
    pub config: AuditorConfig,
}

/// Builds a rule.
fn rule(
    id: &str,
    name: &str,
    description: &str,
    patterns: &[&str],
    vulnerability_type: VulnerabilityType,
    level: VulnerabilityLevel,
    cwe_id: &str,
    remediation: &str,
) -> (r: SecurityRule)
    ensures
        r.id@ == id@,
        r.name@ == name@,
        r.description@ == description@,
        r.patterns@.len() == patterns@.len(),
        forall|i: int| 0 <= i < patterns@.len() ==> #[trigger] r.patterns@[i]@ == patterns@[i]@,
        r.vulnerability_type == vulnerability_type,
        r.level == level,
        opt_view(r.cwe_id) == Some(cwe_id@),
        r.remediation@ == remediation@,
{
    let mut ps: Vec<String> = Vec::new();
    let mut i: usize = 0;
    while i < patterns.len()
        invariant
            i <= patterns@.len(),
            ps@.len() == i,
            forall|j: int| 0 <= j < i ==> #[trigger] ps@[j]@ == patterns@[j]@,
        decreases patterns@.len() - i,
    {
        ps.push(owned(patterns[i]));
        i = i + 1;
    }
    SecurityRule {
        id: owned(id),
        name: owned(name),
        description: owned(description),
        patterns: ps,
        vulnerability_type,
        level,
        cwe_id: Some(owned(cwe_id)),
        remediation: owned(remediation),
    }
}

impl SecurityAuditor {
    /// An auditor with the standard nine rules (memory safety, weak crypto,
    /// input validation, access control, data exposure, network security,
    /// configuration, code injection, denial of service).
    pub fn new(config: AuditorConfig) -> (a: Self)
        ensures
            rule_ids(a.rules@) == seq!["MEM001"@, "CRY001"@, "INP001"@, "ACC001"@, "EXP001"@, "NET001"@, "CFG001"@, "INJ001"@, "DOS001"@],
            views(a.rules@[0].patterns@) == seq!["unsafe\\s*\\{"@, "std::ptr::"@, "std::mem::"@],
            views(a.rules@[1].patterns@) == seq!["MD5"@, "SHA1"@, "DES"@, "RC4"@],
            views(a.rules@[2].patterns@) == seq!["unwrap\\(\\)"@, "expect\\("@, "panic!"@],
            views(a.rules@[3].patterns@) == seq!["pub\\s+fn"@, "pub\\s+struct"@],
            views(a.rules@[4].patterns@) == seq!["password"@, "secret"@, "private_key"@, "api_key"@],
            views(a.rules@[5].patterns@) == seq!["http://"@, "ws://"@],
            views(a.rules@[6].patterns@) == seq!["debug\\s*=\\s*true"@, "production\\s*=\\s*false"@],
            views(a.rules@[7].patterns@) == seq!["eval\\("@, "exec\\("@, "system\\("@],
            views(a.rules@[8].patterns@) == seq!["loop\\s*\\{"@, "while\\s+true"@, "recursive"@],
            a.rules@.map_values(|r: SecurityRule| r.level) == seq![
                VulnerabilityLevel::High, VulnerabilityLevel::Critical, VulnerabilityLevel::Medium,
                VulnerabilityLevel::Medium, VulnerabilityLevel::High, VulnerabilityLevel::High,
                VulnerabilityLevel::Medium, VulnerabilityLevel::Critical, VulnerabilityLevel::Medium,
            ],
            a.rules@.map_values(|r: SecurityRule| r.vulnerability_type) == seq![
                VulnerabilityType::MemorySafety, VulnerabilityType::CryptographicWeakness,
                VulnerabilityType::InputValidation, VulnerabilityType::AccessControl,
                VulnerabilityType::DataExposure, VulnerabilityType::NetworkSecurity,
                VulnerabilityType::ConfigurationIssue, VulnerabilityType::CodeInjection,
                VulnerabilityType::DenialOfService,
            ],
            a.rules@.map_values(|r: SecurityRule| r.name@) == seq!["Unsafe Memory Access"@, "Weak Cryptographic Algorithm"@, "Missing Input Validation"@, "Insufficient Access Control"@, "Sensitive Data Exposure"@, "Insecure Network Communication"@, "Insecure Configuration"@, "Potential Code Injection"@, "Potential Denial of Service"@],
            a.rules@.map_values(|r: SecurityRule| r.description@) == seq!["Detect unsafe memory operations"@, "Detect use of weak cryptographic algorithms"@, "Detect missing input validation"@, "Detect missing access control checks"@, "Detect potential sensitive data exposure"@, "Detect insecure network communication"@, "Detect insecure configuration patterns"@, "Detect potential code injection vulnerabilities"@, "Detect potential DoS vulnerabilities"@],
            a.rules@.map_values(|r: SecurityRule| opt_view(r.cwe_id)) == seq![Some("CWE-119"@), Some("CWE-327"@), Some("CWE-20"@), Some("CWE-284"@), Some("CWE-200"@), Some("CWE-319"@), Some("CWE-16"@), Some("CWE-94"@), Some("CWE-400"@)],
            a.rules@.map_values(|r: SecurityRule| r.remediation@) == seq!["Review unsafe blocks and ensure proper bounds checking"@, "Use strong cryptographic algorithms (SHA-256, AES-256)"@, "Add proper input validation and error handling"@, "Review public APIs and ensure proper access control"@, "Ensure sensitive data is properly encrypted and not logged"@, "Use HTTPS/WSS for secure communication"@, "Use secure configuration for production environments"@, "Avoid dynamic code execution, use safe alternatives"@, "Add proper termination conditions and resource limits"@],
            a.config == config,
    {
        let mut rules: Vec<SecurityRule> = Vec::new();
        rules.push(rule("MEM001", "Unsafe Memory Access", "Detect unsafe memory operations",
            &["unsafe\\s*\\{", "std::ptr::", "std::mem::"], VulnerabilityType::MemorySafety,
            VulnerabilityLevel::High, "CWE-119", "Review unsafe blocks and ensure proper bounds checking"));
        rules.push(rule("CRY001", "Weak Cryptographic Algorithm", "Detect use of weak cryptographic algorithms",
            &["MD5", "SHA1", "DES", "RC4"], VulnerabilityType::CryptographicWeakness,
            VulnerabilityLevel::Critical, "CWE-327", "Use strong cryptographic algorithms (SHA-256, AES-256)"));
        rules.push(rule("INP001", "Missing Input Validation", "Detect missing input validation",
            &["unwrap\\(\\)", "expect\\(", "panic!"], VulnerabilityType::InputValidation,
            VulnerabilityLevel::Medium, "CWE-20", "Add proper input validation and error handling"));
        rules.push(rule("ACC001", "Insufficient Access Control", "Detect missing access control checks",
            &["pub\\s+fn", "pub\\s+struct"], VulnerabilityType::AccessControl,
            VulnerabilityLevel::Medium, "CWE-284", "Review public APIs and ensure proper access control"));
        rules.push(rule("EXP001", "Sensitive Data Exposure", "Detect potential sensitive data exposure",
            &["password", "secret", "private_key", "api_key"], VulnerabilityType::DataExposure,
            VulnerabilityLevel::High, "CWE-200", "Ensure sensitive data is properly encrypted and not logged"));
        rules.push(rule("NET001", "Insecure Network Communication", "Detect insecure network communication",
            &["http://", "ws://"], VulnerabilityType::NetworkSecurity,
            VulnerabilityLevel::High, "CWE-319", "Use HTTPS/WSS for secure communication"));
        rules.push(rule("CFG001", "Insecure Configuration", "Detect insecure configuration patterns",
            &["debug\\s*=\\s*true", "production\\s*=\\s*false"], VulnerabilityType::ConfigurationIssue,
            VulnerabilityLevel::Medium, "CWE-16", "Use secure configuration for production environments"));
        rules.push(rule("INJ001", "Potential Code Injection", "Detect potential code injection vulnerabilities",
            &["eval\\(", "exec\\(", "system\\("], VulnerabilityType::CodeInjection,
            VulnerabilityLevel::Critical, "CWE-94", "Avoid dynamic code execution, use safe alternatives"));
        rules.push(rule("DOS001", "Potential Denial of Service", "Detect potential DoS vulnerabilities",
            &["loop\\s*\\{", "while\\s+true", "recursive"], VulnerabilityType::DenialOfService,
            VulnerabilityLevel::Medium, "CWE-400", "Add proper termination conditions and resource limits"));
        let a = SecurityAuditor { rules, config };
        proof {
            assert(rule_ids(a.rules@) =~= seq!["MEM001"@, "CRY001"@, "INP001"@, "ACC001"@, "EXP001"@, "NET001"@, "CFG001"@, "INJ001"@, "DOS001"@]);
            assert(views(a.rules@[0].patterns@) =~= seq!["unsafe\\s*\\{"@, "std::ptr::"@, "std::mem::"@]);
            assert(views(a.rules@[1].patterns@) =~= seq!["MD5"@, "SHA1"@, "DES"@, "RC4"@]);
            assert(views(a.rules@[2].patterns@) =~= seq!["unwrap\\(\\)"@, "expect\\("@, "panic!"@]);
            assert(views(a.rules@[3].patterns@) =~= seq!["pub\\s+fn"@, "pub\\s+struct"@]);
            assert(views(a.rules@[4].patterns@) =~= seq!["password"@, "secret"@, "private_key"@, "api_key"@]);
            assert(views(a.rules@[5].patterns@) =~= seq!["http://"@, "ws://"@]);
            assert(views(a.rules@[6].patterns@) =~= seq!["debug\\s*=\\s*true"@, "production\\s*=\\s*false"@]);
            assert(views(a.rules@[7].patterns@) =~= seq!["eval\\("@, "exec\\("@, "system\\("@]);
            assert(views(a.rules@[8].patterns@) =~= seq!["loop\\s*\\{"@, "while\\s+true"@, "recursive"@]);
            assert(a.rules@.map_values(|r: SecurityRule| r.level) =~= seq![
                VulnerabilityLevel::High, VulnerabilityLevel::Critical, VulnerabilityLevel::Medium,
                VulnerabilityLevel::Medium, VulnerabilityLevel::High, VulnerabilityLevel::High,
                VulnerabilityLevel::Medium, VulnerabilityLevel::Critical, VulnerabilityLevel::Medium,
            ]);
            assert(a.rules@.map_values(|r: SecurityRule| r.vulnerability_type) =~= seq![
                VulnerabilityType::MemorySafety, VulnerabilityType::CryptographicWeakness,
                VulnerabilityType::InputValidation, VulnerabilityType::AccessControl,
                VulnerabilityType::DataExposure, VulnerabilityType::NetworkSecurity,
                VulnerabilityType::ConfigurationIssue, VulnerabilityType::CodeInjection,
                VulnerabilityType::DenialOfService,
            ]);
            assert(a.rules@.map_values(|r: SecurityRule| r.name@) =~= seq!["Unsafe Memory Access"@, "Weak Cryptographic Algorithm"@, "Missing Input Validation"@, "Insufficient Access Control"@, "Sensitive Data Exposure"@, "Insecure Network Communication"@, "Insecure Configuration"@, "Potential Code Injection"@, "Potential Denial of Service"@]);
            assert(a.rules@.map_values(|r: SecurityRule| r.description@) =~= seq!["Detect unsafe memory operations"@, "Detect use of weak cryptographic algorithms"@, "Detect missing input validation"@, "Detect missing access control checks"@, "Detect potential sensitive data exposure"@, "Detect insecure network communication"@, "Detect insecure configuration patterns"@, "Detect potential code injection vulnerabilities"@, "Detect potential DoS vulnerabilities"@]);
            assert(a.rules@.map_values(|r: SecurityRule| opt_view(r.cwe_id)) =~= seq![Some("CWE-119"@), Some("CWE-327"@), Some("CWE-20"@), Some("CWE-284"@), Some("CWE-200"@), Some("CWE-319"@), Some("CWE-16"@), Some("CWE-94"@), Some("CWE-400"@)]);
            assert(a.rules@.map_values(|r: SecurityRule| r.remediation@) =~= seq!["Review unsafe blocks and ensure proper bounds checking"@, "Use strong cryptographic algorithms (SHA-256, AES-256)"@, "Add proper input validation and error handling"@, "Review public APIs and ensure proper access control"@, "Ensure sensitive data is properly encrypted and not logged"@, "Use HTTPS/WSS for secure communication"@, "Use secure configuration for production environments"@, "Avoid dynamic code execution, use safe alternatives"@, "Add proper termination conditions and resource limits"@]);
        }
        a
    }

    /// Checks every line of `content` (the file at `file_path`) against
    /// every pattern of every rule; each match is a finding, in line, rule,
    /// pattern order.
    pub fn scan_file(&self, file_path: &str, content: &str, now_ms: i64) -> (r: Vec<Vulnerability>)
        ensures
            reports(
                r@,
                file_hits(self.rules@, lines_of(content@), lines_of(content@).len()),
                self.rules@,
                file_path@,
                lines_of(content@),
                now_ms,
            ),
    {
        let ghost rules = self.rules@;
        let ghost path = file_path@;
        let cs = chars_of(content);
        let ranges = line_ranges(&cs);
        let ghost lines = lines_of(content@);
        let mut r: Vec<Vulnerability> = Vec::new();
        let mut k: usize = 0;
        while k < ranges.len()
            invariant
                k <= ranges@.len(),
                cs@ == content@,
                lines == lines_of(cs@),
                rules == self.rules@,
                path == file_path@,
                ranges@.len() == lines.len(),
                forall|q: int| 0 <= q < ranges@.len() ==> #[trigger] ranges@[q].0 <= ranges@[q].1 <= cs@.len()
                    && cs@.subrange(ranges@[q].0 as int, ranges@[q].1 as int) == lines[q],
                reports(r@, file_hits(rules, lines, k as nat), rules, path, lines, now_ms),
            decreases ranges@.len() - k,
        {
            let (a, b) = ranges[k];
            let line_no = k + 1;
            let ghost line = lines[k as int];
            let ghost base = file_hits(rules, lines, k as nat);
            let mut ri: usize = 0;
            proof {
                assert(base + line_hits(rules, line, k as int, 0) =~= base);
            }
            while ri < self.rules.len()
                invariant
                    ri <= rules.len(),
                    k < ranges@.len(),
                    line_no == k + 1,
                    a <= b <= cs@.len(),
                    cs@.subrange(a as int, b as int) == line,
                    line == lines[k as int],
                    cs@ == content@,
                    rules == self.rules@,
                    path == file_path@,
                    base == file_hits(rules, lines, k as nat),
                    reports(r@, base + line_hits(rules, line, k as int, ri as nat), rules, path, lines, now_ms),
                decreases rules.len() - ri,
            {
                let rl = &self.rules[ri];
                let ghost pats = views(rl.patterns@);
                let ghost mid = base + line_hits(rules, line, k as int, ri as nat);
                let mut pi: usize = 0;
                proof {
                    assert(mid + pattern_hits(pats, line, k as int, ri as int, 0) =~= mid);
                }
                while pi < rl.patterns.len()
                    invariant
                        pi <= rl.patterns@.len(),
                        rl == self.rules@[ri as int],
                        ri < rules.len(),
                        k < ranges@.len(),
                        line_no == k + 1,
                        a <= b <= cs@.len(),
                        cs@.subrange(a as int, b as int) == line,
                        line == lines[k as int],
                        cs@ == content@,
                        rules == self.rules@,
                        path == file_path@,
                        pats == views(rl.patterns@),
                        reports(r@, mid + pattern_hits(pats, line, k as int, ri as int, pi as nat), rules, path, lines, now_ms),
                    decreases rl.patterns@.len() - pi,
                {
                    let pc = chars_of(rl.patterns[pi].as_str());
                    let hit = contains_in(&cs, a, b, &pc);
                    let ghost before = mid + pattern_hits(pats, line, k as int, ri as int, pi as nat);
                    proof {
                        assert(pats[pi as int] == rl.patterns@[pi as int]@);
                    }
                    if hit {
                        let (ta, tb) = trim_range(&cs, a, b);
                        let snippet = content.substring_char(ta, tb).to_owned();
                        let v = Vulnerability {
                            id: rl.id.clone(),
                            title: rl.name.clone(),
                            description: rl.description.clone(),
                            vulnerability_type: rl.vulnerability_type,
                            level: rl.level,
                            file_path: Some(owned(file_path)),
                            line_number: Some(line_no as u32),
                            code_snippet: Some(snippet),
                            remediation: rl.remediation.clone(),
                            cwe_id: clone_opt(&rl.cwe_id),
                            discovered_at_ms: now_ms,
                        };
                        r.push(v);
                        proof {
                            let nh = before.push((k as int, ri as int, pi as int));
                            assert(mid + pattern_hits(pats, line, k as int, ri as int, (pi + 1) as nat) =~= nh);
                            assert forall|i: int| 0 <= i < r@.len() implies describes(#[trigger] r@[i], rules[nh[i].1], path, nh[i].0, lines[nh[i].0], now_ms) by {
                                if i < r@.len() - 1 {
                                    assert(r@[i] == r@.drop_last()[i]);
                                    assert(nh[i] == before[i]);
                                }
                            }
                        }
                    } else {
                        proof {
                            assert(mid + pattern_hits(pats, line, k as int, ri as int, (pi + 1) as nat) =~= before);
                        }
                    }
                    pi = pi + 1;
                }
                proof {
                    assert(base + line_hits(rules, line, k as int, (ri + 1) as nat) =~= mid + pattern_hits(pats, line, k as int, ri as int, rl.patterns@.len()));
                }
                ri = ri + 1;
            }
            proof {
                assert(file_hits(rules, lines, (k + 1) as nat) =~= base + line_hits(rules, line, k as int, rules.len()));
            }
            k = k + 1;
        }
        r
    }

    /// The finding for a dependency lock file that mentions a vulnerability
    /// or a CVE (none otherwise, or without a lock file).
    pub fn dependency_findings(&self, cargo_lock: Option<&str>, now_ms: i64) -> (r: Vec<Vulnerability>)
        ensures
            r@.len() == (match cargo_lock {
                Some(c) => if has_substring(c@, "vulnerability"@) || has_substring(c@, "CVE"@) { 1int } else { 0int },
                None => 0int,
            }),
            r@.len() == 1 ==> {
                let v = r@[0];
                &&& v.id@ == "DEP001"@
                &&& v.title@ == "Known Dependency Vulnerability"@
                &&& v.description@ == "Dependency with known security vulnerability detected"@
                &&& v.vulnerability_type == VulnerabilityType::DependencyVulnerability
                &&& v.level == VulnerabilityLevel::High
                &&& opt_view(v.file_path) == Some("Cargo.lock"@)
                &&& v.line_number is None
                &&& v.code_snippet is None
                &&& v.remediation@ == "Update dependencies to latest secure versions"@
                &&& opt_view(v.cwe_id) == Some("CWE-400"@)
                &&& v.discovered_at_ms == now_ms
            },
    {
        let mut r: Vec<Vulnerability> = Vec::new();
        match cargo_lock {
            Some(c) => {
                if str_contains(c, "vulnerability") || str_contains(c, "CVE") {
                    r.push(Vulnerability {
                        id: owned("DEP001"),
                        title: owned("Known Dependency Vulnerability"),
                        description: owned("Dependency with known security vulnerability detected"),
                        vulnerability_type: VulnerabilityType::DependencyVulnerability,
                        level: VulnerabilityLevel::High,
                        file_path: Some(owned("Cargo.lock")),
                        line_number: None,
                        code_snippet: None,
                        remediation: owned("Update dependencies to latest secure versions"),
                        cwe_id: Some(owned("CWE-400")),
                        discovered_at_ms: now_ms,
                    });
                }
            },
            None => {},
        }
        r
    }

    /// Counts the findings by level.
    pub fn generate_summary(&self, vulnerabilities: &[Vulnerability], files_scanned: usize, lines_of_code: usize) -> (s: AuditSummary)
        requires
            vulnerabilities@.len() <= usize::MAX / 10,
        ensures
            s.total_vulnerabilities == vulnerabilities@.len(),
            s.critical_count == count_level(vulnerabilities@, VulnerabilityLevel::Critical),
            s.high_count == count_level(vulnerabilities@, VulnerabilityLevel::High),
            s.medium_count == count_level(vulnerabilities@, VulnerabilityLevel::Medium),
            s.low_count == count_level(vulnerabilities@, VulnerabilityLevel::Low),
            s.info_count == count_level(vulnerabilities@, VulnerabilityLevel::Info),
            s.files_scanned == files_scanned,
            s.lines_of_code == lines_of_code,
            s.weighted_score == s.critical_count * 10 + s.high_count * 7 + s.medium_count * 4 + s.low_count,
    {
        let ghost vs = vulnerabilities@;
        let mut c: usize = 0;
        let mut h: usize = 0;
        let mut m: usize = 0;
        let mut l: usize = 0;
        let mut n: usize = 0;
        let mut i: usize = 0;
        while i < vulnerabilities.len()
            invariant
                i <= vs.len(),
                vs == vulnerabilities@,
                vs.len() <= usize::MAX / 10,
                c == count_level(vs.take(i as int), VulnerabilityLevel::Critical),
                h == count_level(vs.take(i as int), VulnerabilityLevel::High),
                m == count_level(vs.take(i as int), VulnerabilityLevel::Medium),
                l == count_level(vs.take(i as int), VulnerabilityLevel::Low),
                n == count_level(vs.take(i as int), VulnerabilityLevel::Info),
                c + h + m + l + n == i,
            decreases vs.len() - i,
        {
            proof {
                assert(vs.take(i + 1).drop_last() =~= vs.take(i as int));
            }
            match vulnerabilities[i].level {
                VulnerabilityLevel::Critical => c = c + 1,
                VulnerabilityLevel::High => h = h + 1,
                VulnerabilityLevel::Medium => m = m + 1,
                VulnerabilityLevel::Low => l = l + 1,
                VulnerabilityLevel::Info => n = n + 1,
            }
            i = i + 1;
        }
        proof {
            assert(vs.take(i as int) =~= vs);
        }
        AuditSummary {
            total_vulnerabilities: vulnerabilities.len(),
            critical_count: c,
            high_count: h,
            medium_count: m,
            low_count: l,
            info_count: n,
            files_scanned,
            lines_of_code,
            weighted_score: c * 10 + h * 7 + m * 4 + l,
        }
    }

    /// Recommendations: one line each for critical and high findings (with
    /// their counts), for cryptographic, memory and input findings, then
    /// three general lines.
    pub fn generate_recommendations(&self, vulnerabilities: &[Vulnerability]) -> (r: Vec<String>)
        ensures
            views(r@) == recommendations_for(vulnerabilities@),
    {
        let ghost vs = vulnerabilities@;
        let mut critical: u64 = 0;
        let mut high: u64 = 0;
        let mut crypto = false;
        let mut memory = false;
        let mut input = false;
        let mut i: usize = 0;
        while i < vulnerabilities.len()
            invariant
                i <= vs.len(),
                vs == vulnerabilities@,
                critical == count_level(vs.take(i as int), VulnerabilityLevel::Critical),
                high == count_level(vs.take(i as int), VulnerabilityLevel::High),
                critical + high <= i,
                crypto == (count_type(vs.take(i as int), VulnerabilityType::CryptographicWeakness) > 0),
                memory == (count_type(vs.take(i as int), VulnerabilityType::MemorySafety) > 0),
                input == (count_type(vs.take(i as int), VulnerabilityType::InputValidation) > 0),
            decreases vs.len() - i,
        {
            proof {
                assert(vs.take(i + 1).drop_last() =~= vs.take(i as int));
            }
            let v = &vulnerabilities[i];
            match v.level {
                VulnerabilityLevel::Critical => critical = critical + 1,
                VulnerabilityLevel::High => high = high + 1,
                _ => {},
            }
            match v.vulnerability_type {
                VulnerabilityType::CryptographicWeakness => crypto = true,
                VulnerabilityType::MemorySafety => memory = true,
                VulnerabilityType::InputValidation => input = true,
                _ => {},
            }
            i = i + 1;
        }
        proof {
            assert(vs.take(i as int) =~= vs);
        }
        let mut r: Vec<String> = Vec::new();
        if critical > 0 {
            let n = u64_to_string(critical);
            let a = concat("CRITICAL: Address ", n.as_str());
            r.push(concat(a.as_str(), " critical vulnerabilities immediately"));
        }
        if high > 0 {
            let n = u64_to_string(high);
            let a = concat("HIGH: Fix ", n.as_str());
            r.push(concat(a.as_str(), " high-severity vulnerabilities as soon as possible"));
        }
        if crypto {
            r.push(owned("CRYPTO: Review and update cryptographic implementations"));
        }
        if memory {
            r.push(owned("MEMORY: Review unsafe code blocks and memory operations"));
        }
        if input {
            r.push(owned("INPUT: Implement proper input validation and error handling"));
        }
        r.push(owned("SECURITY: Implement regular security audits and penetration testing"));
        r.push(owned("DEPENDENCIES: Keep dependencies updated and monitor for vulnerabilities"));
        r.push(owned("CONFIGURATION: Use secure configuration for production environments"));
        proof {
            assert(views(r@) =~= recommendations_for(vs));
        }
        r
    }

    /// Whether `path` contains one of the excluded path fragments.
    pub fn is_excluded(&self, path: &str) -> (b: bool)
        ensures
            b == exists|i: int| 0 <= i < self.config.excluded_paths@.len()
                && has_substring(path@, #[trigger] self.config.excluded_paths@[i]@),
    {
        let mut i: usize = 0;
        while i < self.config.excluded_paths.len()
            invariant
                i <= self.config.excluded_paths@.len(),
                forall|j: int| 0 <= j < i ==> !has_substring(path@, #[trigger] self.config.excluded_paths@[j]@),
            decreases self.config.excluded_paths@.len() - i,
        {
            if str_contains(path, self.config.excluded_paths[i].as_str()) {
                return true;
            }
            i = i + 1;
        }
        false
    }
}


// ---------------------------------------------------------------------------
// HTML report

/// The CSS class of a severity.
pub open spec fn level_class(l: VulnerabilityLevel) -> Seq<char> {
    match l {
        VulnerabilityLevel::Critical => "critical"@,
        VulnerabilityLevel::High => "high"@,
        VulnerabilityLevel::Medium => "medium"@,
        VulnerabilityLevel::Low => "low"@,
        VulnerabilityLevel::Info => "info"@,
    }
}

/// The name of a severity.
pub open spec fn level_name(l: VulnerabilityLevel) -> Seq<char> {
    match l {
        VulnerabilityLevel::Critical => "Critical"@,
        VulnerabilityLevel::High => "High"@,
        VulnerabilityLevel::Medium => "Medium"@,
        VulnerabilityLevel::Low => "Low"@,
        VulnerabilityLevel::Info => "Info"@,
    }
}

/// The name of a kind of finding.
pub open spec fn kind_name(t: VulnerabilityType) -> Seq<char> {
    match t {
        VulnerabilityType::MemorySafety => "MemorySafety"@,
        VulnerabilityType::CryptographicWeakness => "CryptographicWeakness"@,
        VulnerabilityType::InputValidation => "InputValidation"@,
        VulnerabilityType::AccessControl => "AccessControl"@,
        VulnerabilityType::DataExposure => "DataExposure"@,
        VulnerabilityType::NetworkSecurity => "NetworkSecurity"@,
        VulnerabilityType::ConfigurationIssue => "ConfigurationIssue"@,
        VulnerabilityType::DependencyVulnerability => "DependencyVulnerability"@,
        VulnerabilityType::CodeInjection => "CodeInjection"@,
        VulnerabilityType::DenialOfService => "DenialOfService"@,
    }
}

/// The file line of a finding's block, empty without a file.
pub open spec fn file_html(v: Vulnerability) -> Seq<char> {
    match v.file_path {
        Some(f) => "<p><strong>File:</strong> "@ + f@ + "</p>"@,
        None => Seq::empty(),
    }
}

/// The line-number line of a finding's block, empty without a line.
pub open spec fn line_html(v: Vulnerability) -> Seq<char> {
    match v.line_number {
        Some(n) => "<p><strong>Line:</strong> "@ + decimal(n as nat) + "</p>"@,
        None => Seq::empty(),
    }
}

/// The HTML block of one finding.
pub open spec fn vulnerability_html(v: Vulnerability) -> Seq<char> {
    "\n                    <div class=\"vulnerability "@
        + level_class(v.level)
        + "\">\n                        <h3>"@
        + v.id@
        + " - "@
        + v.title@
        + "</h3>\n                        <p><strong>Level:</strong> "@
        + level_name(v.level)
        + "</p>\n                        <p><strong>Type:</strong> "@
        + kind_name(v.vulnerability_type)
        + "</p>\n                        <p><strong>Description:</strong> "@
        + v.description@
        + "</p>\n                        "@
        + file_html(v)
        + "\n                        "@
        + line_html(v)
        + "\n                        <p><strong>Remediation:</strong> "@
        + v.remediation@
        + "</p>\n                    </div>\n                    "@
}

/// The HTML blocks of the findings, in order.
pub open spec fn vulnerabilities_html(vs: Seq<Vulnerability>) -> Seq<char>
    decreases vs.len(),
{
    if vs.len() == 0 {
        Seq::empty()
    } else {
        vulnerabilities_html(vs.drop_last()) + vulnerability_html(vs.last())
    }
}

/// The list items of the recommendations, in order.
pub open spec fn recommendations_html(rs: Seq<Seq<char>>) -> Seq<char>
    decreases rs.len(),
{
    if rs.len() == 0 {
        Seq::empty()
    } else {
        recommendations_html(rs.drop_last()) + "<li>"@ + rs.last() + "</li>"@
    }
}

/// The HTML audit report: the time it was generated, the summary's
/// counts, the security score as given, the recommendations and a block per
/// finding.
pub open spec fn html_report(
    s: AuditSummary,
    recommendations: Seq<Seq<char>>,
    vulnerabilities: Seq<Vulnerability>,
    generated_on: Seq<char>,
    score_text: Seq<char>,
) -> Seq<char> {
    "\n<!DOCTYPE html>\n<html>\n<head>\n    <title>IPPAN Security Audit Report</title>\n    <style>\n        body { font-family: Arial, sans-serif; margin: 20px; }\n        .header { background-color: #f0f0f0; padding: 20px; border-radius: 5px; }\n        .summary { margin: 20px 0; }\n        .vulnerability { margin: 10px 0; padding: 10px; border-left: 4px solid #ff4444; }\n        .critical { border-left-color: #ff0000; }\n        .high { border-left-color: #ff6600; }\n        .medium { border-left-color: #ffaa00; }\n        .low { border-left-color: #ffcc00; }\n        .info { border-left-color: #00aa00; }\n        .recommendations { background-color: #e8f4f8; padding: 15px; border-radius: 5px; }\n    </style>\n</head>\n<body>\n    <div class=\"header\">\n        <h1>IPPAN Security Audit Report</h1>\n        <p>Generated on: "@
        + generated_on
        + "</p>\n    </div>\n    \n    <div class=\"summary\">\n        <h2>Audit Summary</h2>\n        <p><strong>Total Vulnerabilities:</strong> "@
        + decimal(s.total_vulnerabilities as nat)
        + "</p>\n        <p><strong>Critical:</strong> "@
        + decimal(s.critical_count as nat)
        + " | <strong>High:</strong> "@
        + decimal(s.high_count as nat)
        + " | <strong>Medium:</strong> "@
        + decimal(s.medium_count as nat)
        + " | <strong>Low:</strong> "@
        + decimal(s.low_count as nat)
        + " | <strong>Info:</strong> "@
        + decimal(s.info_count as nat)
        + "</p>\n        <p><strong>Files Scanned:</strong> "@
        + decimal(s.files_scanned as nat)
        + "</p>\n        <p><strong>Lines of Code:</strong> "@
        + decimal(s.lines_of_code as nat)
        + "</p>\n        <p><strong>Security Score:</strong> "@
        + score_text
        + "%</p>\n    </div>\n    \n    <div class=\"recommendations\">\n        <h2>Recommendations</h2>\n        <ul>\n            "@
        + recommendations_html(recommendations)
        + "\n        </ul>\n    </div>\n    \n    <h2>Vulnerabilities</h2>\n    "@
        + vulnerabilities_html(vulnerabilities)
        + "\n</body>\n</html>\n            "@
}

/// The CSS class of a severity.
fn level_class_text(l: VulnerabilityLevel) -> (s: &'static str)
    ensures
        s@ == level_class(l),
{
    match l {
        VulnerabilityLevel::Critical => "critical",
        VulnerabilityLevel::High => "high",
        VulnerabilityLevel::Medium => "medium",
        VulnerabilityLevel::Low => "low",
        VulnerabilityLevel::Info => "info",
    }
}

/// The name of a severity.
pub fn level_name_text(l: VulnerabilityLevel) -> (s: &'static str)
    ensures
        s@ == level_name(l),
{
    match l {
        VulnerabilityLevel::Critical => "Critical",
        VulnerabilityLevel::High => "High",
        VulnerabilityLevel::Medium => "Medium",
        VulnerabilityLevel::Low => "Low",
        VulnerabilityLevel::Info => "Info",
    }
}

/// The name of a kind of finding.
pub fn kind_name_text(t: VulnerabilityType) -> (s: &'static str)
    ensures
        s@ == kind_name(t),
{
    match t {
        VulnerabilityType::MemorySafety => "MemorySafety",
        VulnerabilityType::CryptographicWeakness => "CryptographicWeakness",
        VulnerabilityType::InputValidation => "InputValidation",
        VulnerabilityType::AccessControl => "AccessControl",
        VulnerabilityType::DataExposure => "DataExposure",
        VulnerabilityType::NetworkSecurity => "NetworkSecurity",
        VulnerabilityType::ConfigurationIssue => "ConfigurationIssue",
        VulnerabilityType::DependencyVulnerability => "DependencyVulnerability",
        VulnerabilityType::CodeInjection => "CodeInjection",
        VulnerabilityType::DenialOfService => "DenialOfService",
    }
}

/// The HTML block of one finding.
fn vulnerability_html_text(v: &Vulnerability) -> (r: String)
    ensures
        r@ == vulnerability_html(*v),
{
    let file = match &v.file_path {
        Some(f) => {
            let a = concat("<p><strong>File:</strong> ", f.as_str());
            concat(a.as_str(), "</p>")
        },
        None => owned(""),
    };
    let line = match v.line_number {
        Some(n) => {
            let d = u64_to_string(n as u64);
            let a = concat("<p><strong>Line:</strong> ", d.as_str());
            concat(a.as_str(), "</p>")
        },
        None => owned(""),
    };
    proof {
        reveal_strlit("");
    }
    let mut s = owned("\n                    <div class=\"vulnerability ");
    s.append(level_class_text(v.level));
    s.append("\">\n                        <h3>");
    s.append(v.id.as_str());
    s.append(" - ");
    s.append(v.title.as_str());
    s.append("</h3>\n                        <p><strong>Level:</strong> ");
    s.append(level_name_text(v.level));
    s.append("</p>\n                        <p><strong>Type:</strong> ");
    s.append(kind_name_text(v.vulnerability_type));
    s.append("</p>\n                        <p><strong>Description:</strong> ");
    s.append(v.description.as_str());
    s.append("</p>\n                        ");
    s.append(file.as_str());
    s.append("\n                        ");
    s.append(line.as_str());
    s.append("\n                        <p><strong>Remediation:</strong> ");
    s.append(v.remediation.as_str());
    s.append("</p>\n                    </div>\n                    ");
    s
}

impl SecurityAuditor {
    /// The audit results as an HTML page. The generation time and the
    /// security score come as text, formatted by the caller.
    pub fn export_results_html(
        &self,
        summary: &AuditSummary,
        recommendations: &[String],
        vulnerabilities: &[Vulnerability],
        generated_on: &str,
        score_text: &str,
    ) -> (r: String)
        ensures
            r@ == html_report(*summary, views(recommendations@), vulnerabilities@, generated_on@, score_text@),
    {
        let mut recs = owned("");
        proof {
            reveal_strlit("");
            assert(views(recommendations@).take(0) =~= Seq::<Seq<char>>::empty());
        }
        let mut i: usize = 0;
        while i < recommendations.len()
            invariant
                i <= recommendations@.len(),
                recs@ == recommendations_html(views(recommendations@).take(i as int)),
            decreases recommendations@.len() - i,
        {
            recs.append("<li>");
            recs.append(recommendations[i].as_str());
            recs.append("</li>");
            proof {
                let t = views(recommendations@).take(i as int + 1);
                assert(t.drop_last() =~= views(recommendations@).take(i as int));
                assert(t.last() == recommendations@[i as int]@);
            }
            i = i + 1;
        }
        proof {
            assert(views(recommendations@).take(i as int) =~= views(recommendations@));
        }
        let mut vulns = owned("");
        proof {
            assert(vulnerabilities@.take(0) =~= Seq::<Vulnerability>::empty());
        }
        let mut j: usize = 0;
        while j < vulnerabilities.len()
            invariant
                j <= vulnerabilities@.len(),
                vulns@ == vulnerabilities_html(vulnerabilities@.take(j as int)),
            decreases vulnerabilities@.len() - j,
        {
            let block = vulnerability_html_text(&vulnerabilities[j]);
            vulns.append(block.as_str());
            proof {
                let t = vulnerabilities@.take(j as int + 1);
                assert(t.drop_last() =~= vulnerabilities@.take(j as int));
                assert(t.last() == vulnerabilities@[j as int]);
            }
            j = j + 1;
        }
        proof {
            assert(vulnerabilities@.take(j as int) =~= vulnerabilities@);
        }
        let total = u64_to_string(summary.total_vulnerabilities as u64);
        let critical = u64_to_string(summary.critical_count as u64);
        let high = u64_to_string(summary.high_count as u64);
        let medium = u64_to_string(summary.medium_count as u64);
        let low = u64_to_string(summary.low_count as u64);
        let info = u64_to_string(summary.info_count as u64);
        let files = u64_to_string(summary.files_scanned as u64);
        let lines = u64_to_string(summary.lines_of_code as u64);
        let mut s = owned("\n<!DOCTYPE html>\n<html>\n<head>\n    <title>IPPAN Security Audit Report</title>\n    <style>\n        body { font-family: Arial, sans-serif; margin: 20px; }\n        .header { background-color: #f0f0f0; padding: 20px; border-radius: 5px; }\n        .summary { margin: 20px 0; }\n        .vulnerability { margin: 10px 0; padding: 10px; border-left: 4px solid #ff4444; }\n        .critical { border-left-color: #ff0000; }\n        .high { border-left-color: #ff6600; }\n        .medium { border-left-color: #ffaa00; }\n        .low { border-left-color: #ffcc00; }\n        .info { border-left-color: #00aa00; }\n        .recommendations { background-color: #e8f4f8; padding: 15px; border-radius: 5px; }\n    </style>\n</head>\n<body>\n    <div class=\"header\">\n        <h1>IPPAN Security Audit Report</h1>\n        <p>Generated on: ");
        s.append(generated_on);
        s.append("</p>\n    </div>\n    \n    <div class=\"summary\">\n        <h2>Audit Summary</h2>\n        <p><strong>Total Vulnerabilities:</strong> ");
        s.append(total.as_str());
        s.append("</p>\n        <p><strong>Critical:</strong> ");
        s.append(critical.as_str());
        s.append(" | <strong>High:</strong> ");
        s.append(high.as_str());
        s.append(" | <strong>Medium:</strong> ");
        s.append(medium.as_str());
        s.append(" | <strong>Low:</strong> ");
        s.append(low.as_str());
        s.append(" | <strong>Info:</strong> ");
        s.append(info.as_str());
        s.append("</p>\n        <p><strong>Files Scanned:</strong> ");
        s.append(files.as_str());
        s.append("</p>\n        <p><strong>Lines of Code:</strong> ");
        s.append(lines.as_str());
        s.append("</p>\n        <p><strong>Security Score:</strong> ");
        s.append(score_text);
        s.append("%</p>\n    </div>\n    \n    <div class=\"recommendations\">\n        <h2>Recommendations</h2>\n        <ul>\n            ");
        s.append(recs.as_str());
        s.append("\n        </ul>\n    </div>\n    \n    <h2>Vulnerabilities</h2>\n    ");
        s.append(vulns.as_str());
        s.append("\n</body>\n</html>\n            ");
        s
    }
}

} // verus!
