use ippan::security_policies::{
    EnforcementLevel, RuleAction, SecurityCategory, SecurityPolicy, SecurityPolicyConfig, SecurityPolicyManager,
    SecuritySeverity, SecurityRule, ViolationStatus,
};

fn policy(id: &str, enabled: bool) -> SecurityPolicy {
    SecurityPolicy {
        id: id.to_string(),
        name: format!("{} policy", id),
        description: "custom".to_string(),
        category: SecurityCategory::Infrastructure,
        rules: vec![SecurityRule {
            id: format!("{}-1", id),
            name: "Unsafe blocks".to_string(),
            description: "Avoid unsafe blocks".to_string(),
            pattern: "no unsafe here".to_string(),
            severity: SecuritySeverity::Low,
            enabled: true,
            action: RuleAction::Log,
            conditions: vec![],
        }],
        enforcement_level: EnforcementLevel::Advisory,
        created_at: 1,
        updated_at: 1,
        enabled,
        version: "2.0".to_string(),
    }
}

#[test]
fn default_policies_load_and_scan_finds_unsafe_code() {
    let mut manager = SecurityPolicyManager::new(SecurityPolicyConfig::default());
    manager.init(100).unwrap();
    assert_eq!(manager.get_metrics().total_policies, 5);
    assert_eq!(manager.get_metrics().active_policies, 5);
    assert_eq!(manager.get_all_policies().len(), 5);
    let code = manager.get_policy("code-001").unwrap();
    assert_eq!(code.rules.len(), 2);
    assert_eq!(code.enforcement_level, EnforcementLevel::Moderate);
    assert_eq!(manager.get_policies_by_category(&SecurityCategory::Encryption).len(), 1);

    let found = manager.run_compliance_scan(200).unwrap();
    assert_eq!(found.len(), 1);
    assert_eq!(found[0].id, "violation-code-001-code-001-1");
    assert_eq!(found[0].description, "Policy violation: No Unsafe Code");
    assert_eq!(found[0].line_number, Some(42));
    assert_eq!(manager.get_metrics().open_violations, 1);
    assert_eq!(manager.get_metrics().compliance_score, 95);
    assert_eq!(manager.get_metrics().last_scan_time, 200);
    assert_eq!(manager.get_violations_by_policy("code-001").len(), 1);

    manager.update_violation_status("violation-code-001-code-001-1", ViolationStatus::Resolved).unwrap();
    assert_eq!(manager.get_metrics().open_violations, 0);
    assert_eq!(manager.get_metrics().resolved_violations, 1);
    assert_eq!(manager.get_metrics().compliance_score, 100);
    assert_eq!(manager.get_violation("violation-code-001-code-001-1").unwrap().status, ViolationStatus::Resolved);
    assert_eq!(
        manager.update_violation_status("nope", ViolationStatus::Open).unwrap_err(),
        "Violation with ID nope not found"
    );
}

#[test]
fn policies_are_added_toggled_and_removed_by_id() {
    let mut manager = SecurityPolicyManager::new(SecurityPolicyConfig::default());
    manager.add_policy(policy("p1", true)).unwrap();
    assert_eq!(manager.add_policy(policy("p1", true)).unwrap_err(), "Policy with ID p1 already exists");
    assert_eq!(manager.get_metrics().total_policies, 1);
    manager.toggle_policy("p1", false).unwrap();
    assert_eq!(manager.get_metrics().active_policies, 0);
    assert!(!manager.get_policy("p1").unwrap().enabled);
    manager.toggle_policy("p1", true).unwrap();
    assert_eq!(manager.get_metrics().active_policies, 1);
    manager.update_policy("p1", policy("other", false)).unwrap();
    assert_eq!(manager.get_policy("p1").unwrap().id, "other");
    assert_eq!(manager.update_policy("zz", policy("zz", true)).unwrap_err(), "Policy with ID zz not found");
    manager.remove_policy("p1").unwrap();
    assert_eq!(manager.get_metrics().total_policies, 0);
    assert_eq!(manager.get_metrics().active_policies, 1);
    assert_eq!(manager.remove_policy("p1").unwrap_err(), "Policy with ID p1 not found");
    assert!(manager.get_policy("p1").is_none());
}

#[test]
fn compliance_score_floors_at_fifty() {
    let mut manager = SecurityPolicyManager::new(SecurityPolicyConfig::default());
    manager.init(1).unwrap();
    for t in 0..12 {
        manager.run_compliance_scan(t).unwrap();
    }
    assert_eq!(manager.get_metrics().open_violations, 12);
    assert_eq!(manager.get_metrics().total_violations, 12);
    assert_eq!(manager.get_metrics().compliance_score, 50);
    assert_eq!(manager.get_all_violations().len(), 1);
}
