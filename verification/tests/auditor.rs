use ippan::auditor::{AuditorConfig, SecurityAuditor, Vulnerability, VulnerabilityLevel, VulnerabilityType};

#[test]
fn test_security_auditor_creation() {
    let config = AuditorConfig::default();
    let auditor = SecurityAuditor::new(config);
    assert!(!auditor.rules.is_empty());
}

#[test]
fn test_vulnerability_scanning() {
    let config = AuditorConfig::default();
    let auditor = SecurityAuditor::new(config);

    let test_code = r#"
            unsafe {
                let ptr = std::ptr::null_mut();
            }
            let password = "secret123";
            let hash = MD5::new();
        "#;

    let vulnerabilities = auditor.scan_file("test.rs", test_code, 0);
    assert!(!vulnerabilities.is_empty());
}

#[test]
fn test_summary_generation() {
    let config = AuditorConfig::default();
    let auditor = SecurityAuditor::new(config);

    let vulnerabilities = vec![Vulnerability {
        id: "TEST001".to_string(),
        title: "Test Vulnerability".to_string(),
        description: "Test description".to_string(),
        vulnerability_type: VulnerabilityType::MemorySafety,
        level: VulnerabilityLevel::High,
        file_path: Some("test.rs".to_string()),
        line_number: Some(10),
        code_snippet: Some("unsafe { }".to_string()),
        remediation: "Fix unsafe block".to_string(),
        cwe_id: Some("CWE-119".to_string()),
        discovered_at_ms: 0,
    }];

    let summary = auditor.generate_summary(&vulnerabilities, 1, 100);
    assert_eq!(summary.total_vulnerabilities, 1);
    assert_eq!(summary.high_count, 1);
}

#[test]
fn scanning_reports_each_matching_line_with_its_number() {
    let auditor = SecurityAuditor::new(AuditorConfig::default());
    let found = auditor.scan_file("lib.rs", "fn main() {}\nlet p = std::ptr::null();\n", 5);
    assert!(found.iter().any(|v| v.line_number == Some(2) && v.level == VulnerabilityLevel::High));
    assert!(found.iter().all(|v| v.file_path.as_deref() == Some("lib.rs") && v.discovered_at_ms == 5));
    assert!(auditor.scan_file("lib.rs", "fn main() {}\n", 5).is_empty());
}

#[test]
fn excluded_paths_and_weights() {
    let auditor = SecurityAuditor::new(AuditorConfig::default());
    assert!(auditor.is_excluded("target/debug/x.rs"));
    assert!(!auditor.is_excluded("src/lib.rs"));
    let summary = auditor.generate_summary(&[], 3, 30);
    assert_eq!(summary.total_vulnerabilities, 0);
    assert_eq!(summary.weighted_score, 0);
    assert_eq!(summary.files_scanned, 3);
}

#[test]
fn html_report_renders_summary_and_findings() {
    let auditor = SecurityAuditor::new(AuditorConfig::default());
    let summary = ippan::auditor::AuditSummary {
        total_vulnerabilities: 2,
        critical_count: 1,
        high_count: 1,
        medium_count: 0,
        low_count: 0,
        info_count: 0,
        files_scanned: 3,
        lines_of_code: 120,
        weighted_score: 17,
    };
    let vulns = vec![
        Vulnerability {
            id: "CRY001_1".to_string(),
            title: "Weak Cryptographic Algorithm".to_string(),
            description: "Detect use of weak cryptographic algorithms".to_string(),
            vulnerability_type: VulnerabilityType::CryptographicWeakness,
            level: VulnerabilityLevel::Critical,
            file_path: Some("src/a.rs".to_string()),
            line_number: Some(7),
            code_snippet: None,
            remediation: "Use SHA-256".to_string(),
            cwe_id: None,
            discovered_at_ms: 0,
        },
        Vulnerability {
            id: "NET001_2".to_string(),
            title: "Insecure Network Communication".to_string(),
            description: "http".to_string(),
            vulnerability_type: VulnerabilityType::NetworkSecurity,
            level: VulnerabilityLevel::High,
            file_path: None,
            line_number: None,
            code_snippet: None,
            remediation: "Use HTTPS".to_string(),
            cwe_id: None,
            discovered_at_ms: 0,
        },
    ];
    let recs = vec!["First".to_string(), "Second".to_string()];
    let html = auditor.export_results_html(&summary, &recs, &vulns, "2024-01-02 03:04:05 UTC", "91.5");
    let blocks: String = vulns
        .iter()
        .map(|v| {
            let class = match v.level {
                VulnerabilityLevel::Critical => "critical",
                VulnerabilityLevel::High => "high",
                VulnerabilityLevel::Medium => "medium",
                VulnerabilityLevel::Low => "low",
                VulnerabilityLevel::Info => "info",
            };
            format!(
                r#"
                    <div class="vulnerability {}">
                        <h3>{} - {}</h3>
                        <p><strong>Level:</strong> {:?}</p>
                        <p><strong>Type:</strong> {:?}</p>
                        <p><strong>Description:</strong> {}</p>
                        {}
                        {}
                        <p><strong>Remediation:</strong> {}</p>
                    </div>
                    "#,
                class,
                v.id,
                v.title,
                v.level,
                v.vulnerability_type,
                v.description,
                if let Some(ref f) = v.file_path { format!("<p><strong>File:</strong> {}</p>", f) } else { "".to_string() },
                if let Some(l) = v.line_number { format!("<p><strong>Line:</strong> {}</p>", l) } else { "".to_string() },
                v.remediation
            )
        })
        .collect::<Vec<_>>()
        .join("");
    let expected = format!(
        r#"
<!DOCTYPE html>
<html>
<head>
    <title>IPPAN Security Audit Report</title>
    <style>
        body {{ font-family: Arial, sans-serif; margin: 20px; }}
        .header {{ background-color: #f0f0f0; padding: 20px; border-radius: 5px; }}
        .summary {{ margin: 20px 0; }}
        .vulnerability {{ margin: 10px 0; padding: 10px; border-left: 4px solid #ff4444; }}
        .critical {{ border-left-color: #ff0000; }}
        .high {{ border-left-color: #ff6600; }}
        .medium {{ border-left-color: #ffaa00; }}
        .low {{ border-left-color: #ffcc00; }}
        .info {{ border-left-color: #00aa00; }}
        .recommendations {{ background-color: #e8f4f8; padding: 15px; border-radius: 5px; }}
    </style>
</head>
<body>
    <div class="header">
        <h1>IPPAN Security Audit Report</h1>
        <p>Generated on: {}</p>
    </div>
    
    <div class="summary">
        <h2>Audit Summary</h2>
        <p><strong>Total Vulnerabilities:</strong> {}</p>
        <p><strong>Critical:</strong> {} | <strong>High:</strong> {} | <strong>Medium:</strong> {} | <strong>Low:</strong> {} | <strong>Info:</strong> {}</p>
        <p><strong>Files Scanned:</strong> {}</p>
        <p><strong>Lines of Code:</strong> {}</p>
        <p><strong>Security Score:</strong> {:.1}%</p>
    </div>
    
    <div class="recommendations">
        <h2>Recommendations</h2>
        <ul>
            {}
        </ul>
    </div>
    
    <h2>Vulnerabilities</h2>
    {}
</body>
</html>
            "#,
        "2024-01-02 03:04:05 UTC",
        2, 1, 1, 0, 0, 0, 3, 120,
        91.5f64,
        "<li>First</li><li>Second</li>",
        blocks
    );
    assert_eq!(html, expected);
}
