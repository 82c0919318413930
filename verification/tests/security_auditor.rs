use ippan::security_auditor::{
    AuditType, FindingSeverity, Priority, RiskLevel, SecurityAuditor, SecurityAuditorConfig, SecurityCategory,
};

#[test]
fn full_audit_of_every_area() {
    let mut auditor = SecurityAuditor::new(SecurityAuditorConfig::default());
    let result = auditor.run_audit(1_700_000_000).unwrap();
    assert_eq!(result.audit_id, "audit-1700000000");
    assert_eq!(result.audit_type, AuditType::FullSecurityAudit);
    assert_eq!(result.findings.len(), 15);
    assert_eq!(result.findings[0].id, "code-unsafe-code-usage");
    assert_eq!(result.findings[0].description, "Code security issue: Unsafe code usage");
    assert_eq!(result.findings[4].id, "arch-single-point-of-failure");
    assert_eq!(result.findings[7].severity, FindingSeverity::Critical);
    assert_eq!(result.findings[14].category, SecurityCategory::Compliance);
    // 1 critical, 8 high, 6 medium: 25 + 120 + 60 points off.
    assert_eq!(result.overall_score, 0);
    assert_eq!(result.risk_level, RiskLevel::Critical);
    assert_eq!(result.compliance_status.overall_compliance, 80);
    assert_eq!(result.recommendations.len(), 4);
    assert_eq!(result.recommendations[0].description, "Fix 1 critical security findings immediately");
    assert_eq!(result.recommendations[1].description, "Fix 8 high priority security findings");
    assert_eq!(result.recommendations[0].priority, Priority::Critical);
    assert!(result.executive_summary.starts_with("Security Audit Executive Summary:\n\nOverall Security Score: 0.0/100\nRisk Level: Critical\nTotal Findings: 15\n"));
    assert_eq!(auditor.get_findings().len(), 15);
    assert_eq!(auditor.get_recommendations().len(), 4);
}

#[test]
fn audits_store_findings_by_id() {
    let mut config = SecurityAuditorConfig::default();
    config.enable_code_audit = false;
    config.enable_cryptographic_audit = false;
    config.enable_network_audit = false;
    let mut auditor = SecurityAuditor::new(config);
    let first = auditor.run_audit(10).unwrap();
    assert_eq!(first.findings.len(), 5);
    // 1 high + 2 medium architecture, 1 high + 1 medium compliance: 30 + 30 off.
    assert_eq!(first.overall_score, 40);
    assert_eq!(first.risk_level, RiskLevel::High);
    assert_eq!(first.recommendations.len(), 3);
    let second = auditor.run_audit(20).unwrap();
    assert_eq!(second.findings[0].discovered_at, 20);
    let stored = auditor.get_findings();
    assert_eq!(stored.len(), 5);
    assert!(stored.iter().all(|f| f.discovered_at == 20));
}

#[test]
fn scores_and_risk_levels() {
    let auditor = SecurityAuditor::new(SecurityAuditorConfig::default());
    assert_eq!(auditor.calculate_overall_score(&[]), 100);
    assert_eq!(auditor.determine_risk_level(100), RiskLevel::Minimal);
    assert_eq!(auditor.determine_risk_level(90), RiskLevel::Minimal);
    assert_eq!(auditor.determine_risk_level(89), RiskLevel::Low);
    assert_eq!(auditor.determine_risk_level(75), RiskLevel::Low);
    assert_eq!(auditor.determine_risk_level(60), RiskLevel::Medium);
    assert_eq!(auditor.determine_risk_level(40), RiskLevel::High);
    assert_eq!(auditor.determine_risk_level(39), RiskLevel::Critical);
    assert_eq!(auditor.check_compliance_status(&[]).overall_compliance, 100);
    let recs = auditor.generate_recommendations(&[]);
    assert_eq!(recs.len(), 2);
    assert_eq!(recs[0].id, "rec-training-001");
    assert_eq!(recs[1].id, "rec-process-001");
}
