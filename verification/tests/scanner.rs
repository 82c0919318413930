use ippan::scanner::{ScannerConfig, SecurityScanner, SecuritySeverity, SecurityThreat};

const NOW: u64 = 1_700_000_000_000;

#[test]
fn test_security_scanner_creation() {
    let config = ScannerConfig::default();
    let scanner = SecurityScanner::new(config);

    let metrics = scanner.get_metrics();
    assert_eq!(metrics.total_events, 0);
}

#[test]
fn test_brute_force_detection() {
    let config = ScannerConfig::default();
    let mut scanner = SecurityScanner::new(config);

    for _ in 0..150 {
        let is_attack = scanner.check_brute_force_attack("192.168.1.1", false, NOW).unwrap();
        if is_attack {
            break;
        }
    }

    let metrics = scanner.get_metrics();
    assert!(metrics.total_events > 0);
}

#[test]
fn test_ddos_detection() {
    let config = ScannerConfig::default();
    let mut scanner = SecurityScanner::new(config);

    let is_attack = scanner.check_ddos_attack("192.168.1.1", 1500, NOW).unwrap();
    assert!(is_attack);

    let metrics = scanner.get_metrics();
    assert!(metrics.blocked_attacks > 0);
}

#[test]
fn test_malicious_transaction_detection() {
    let config = ScannerConfig::default();
    let mut scanner = SecurityScanner::new(config);

    let is_malicious = scanner.check_malicious_transaction("double_spend_attempt", NOW).unwrap();
    assert!(is_malicious);
}

#[test]
fn test_unauthorized_access_detection() {
    let config = ScannerConfig::default();
    let mut scanner = SecurityScanner::new(config);

    let is_unauthorized = scanner.check_unauthorized_access("user", "private", "write", NOW).unwrap();
    assert!(is_unauthorized);
}

#[test]
fn test_blacklist_functionality() {
    let config = ScannerConfig::default();
    let mut scanner = SecurityScanner::new(config);

    scanner.check_ddos_attack("192.168.1.1", 1500, NOW).unwrap();

    assert!(scanner.is_blacklisted("192.168.1.1"));
}

#[test]
fn brute_force_trips_on_the_hundred_and_first_failure() {
    let mut scanner = SecurityScanner::new(ScannerConfig::default());
    for _ in 0..100 {
        assert!(!scanner.check_brute_force_attack("10.0.0.1", false, NOW).unwrap());
    }
    assert!(!scanner.check_brute_force_attack("10.0.0.1", true, NOW).unwrap());
    assert!(scanner.check_brute_force_attack("10.0.0.1", false, NOW).unwrap());
    assert!(scanner.is_blacklisted("10.0.0.1"));
    // A minute later the window has moved on.
    assert!(!scanner.check_brute_force_attack("10.0.0.1", false, NOW + 60_000).unwrap());
    let events = scanner.take_pending_events();
    assert_eq!(events.len(), 1);
    assert_eq!(events[0].description, "Potential brute force attack from 10.0.0.1");
    assert_eq!(events[0].severity, SecuritySeverity::High);
    assert_eq!(events[0].id.len(), 36);
    assert!(scanner.take_pending_events().is_empty());
}

#[test]
fn ddos_event_names_count_and_threshold() {
    let mut scanner = SecurityScanner::new(ScannerConfig::default());
    assert!(!scanner.check_ddos_attack("1.2.3.4", 1000, NOW).unwrap());
    assert!(scanner.check_ddos_attack("1.2.3.4", 1001, NOW).unwrap());
    let e = &scanner.get_recent_events(1, NOW)[0];
    assert_eq!(e.threat_type, SecurityThreat::DDoS);
    assert_eq!(e.description, "DDoS attack detected from 1.2.3.4 (1001 requests)");
    assert_eq!(e.evidence, vec![("request_count".to_string(), "1001".to_string()), ("threshold".to_string(), "1000".to_string())]);
    assert_eq!(scanner.get_metrics().critical_events, 1);
}

#[test]
fn permissions_patterns_and_transfers() {
    let mut scanner = SecurityScanner::new(ScannerConfig::default());
    assert!(!scanner.check_unauthorized_access("admin", "private", "write", NOW).unwrap());
    assert!(!scanner.check_unauthorized_access("user", "public", "write", NOW).unwrap());
    assert!(scanner.check_unauthorized_access("user", "private", "read", NOW).unwrap());
    assert!(!scanner.check_malicious_transaction("a normal transfer", NOW).unwrap());
    assert!(scanner.check_malicious_transaction("has malicious_script and invalid_signature", NOW).unwrap());
    let recent = scanner.get_recent_events(1, NOW);
    assert_eq!(recent.last().unwrap().description, "Malicious transaction detected: invalid_signature");
    assert!(!scanner.check_data_exfiltration(104857600, "x", NOW).unwrap());
    assert!(scanner.check_data_exfiltration(104857601, "x", NOW).unwrap());
    assert_eq!(scanner.get_metrics().total_events, 3);
}

#[test]
fn history_is_trimmed_and_report_tallies_types() {
    let mut config = ScannerConfig::default();
    config.max_events_history = 2;
    let mut scanner = SecurityScanner::new(config);
    scanner.check_ddos_attack("a", 5000, NOW).unwrap();
    scanner.check_malicious_transaction("double_spend", NOW).unwrap();
    scanner.check_ddos_attack("b", 5000, NOW + 1).unwrap();
    let report = scanner.generate_security_report(NOW + 2);
    assert_eq!(report.recent_events.len(), 2);
    assert_eq!(report.threat_counts, vec![(SecurityThreat::MaliciousTransaction, 1), (SecurityThreat::DDoS, 1)]);
    assert_eq!(report.metrics.total_events, 3);
    let id = report.recent_events[0].id.clone();
    scanner.resolve_event(&id).unwrap();
    assert!(scanner.get_recent_events(24, NOW + 2)[0].resolved);
}

#[test]
fn blacklist_entries_expire_and_active_threats_count_the_last_hour() {
    let mut scanner = SecurityScanner::new(ScannerConfig::default());
    scanner.check_ddos_attack("a", 5000, NOW).unwrap();
    scanner.cleanup_blacklist(NOW + 3_599_999);
    assert!(scanner.is_blacklisted("a"));
    scanner.cleanup_blacklist(NOW + 3_600_000);
    assert!(!scanner.is_blacklisted("a"));
    scanner.update_active_threats(NOW + 3_599_999);
    assert_eq!(scanner.get_metrics().active_threats, 1);
    scanner.update_active_threats(NOW + 3_600_000);
    assert_eq!(scanner.get_metrics().active_threats, 0);
}
