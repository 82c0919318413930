use ippan::threat_detection::{
    ActionType, ConditionOperator, ConditionValue, FieldValue, SecurityEvent, ThreatAction, ThreatCondition,
    ThreatDetectionEngine, ThreatRule, ThreatSeverity, ThreatStatus, ThreatType,
};

fn rule(id: &str, name: &str, description: &str, t: ThreatType, s: ThreatSeverity, field: &str, above: i128, actions: Vec<ActionType>) -> ThreatRule {
    ThreatRule {
        id: id.to_string(),
        name: name.to_string(),
        description: description.to_string(),
        threat_type: t,
        severity: s,
        conditions: vec![ThreatCondition {
            field: field.to_string(),
            operator: ConditionOperator::GreaterThan,
            value: ConditionValue::Scalar(FieldValue::Number(above)),
            time_window_seconds: Some(60),
        }],
        actions: actions
            .into_iter()
            .map(|a| ThreatAction { action_type: a, parameters: vec![], delay_seconds: None })
            .collect(),
        enabled: true,
        cooldown_seconds: 300,
        threshold: 1,
        time_window_seconds: 60,
    }
}

#[allow(clippy::too_many_arguments)]
fn event(ip: &str, agent: Option<&str>, endpoint: &str, method: &str, status: u16, requests: u32, errors: u32, time: u64, size: u64) -> SecurityEvent {
    SecurityEvent {
        timestamp_ms: 0,
        ip_address: ip.to_string(),
        user_agent: agent.map(|a| a.to_string()),
        endpoint: endpoint.to_string(),
        method: method.to_string(),
        status_code: status,
        request_count: requests,
        error_count: errors,
        response_time_ms: time,
        payload_size: size,
        headers: vec![],
        query_params: vec![],
    }
}

const NOW: i64 = 1_700_000_000_000;

#[test]
fn test_threat_detection_engine_creation() {
    let engine = ThreatDetectionEngine::new();
    assert!(engine.enabled());
}

#[test]
fn test_add_remove_rule() {
    let mut engine = ThreatDetectionEngine::new();

    let r = rule("test_rule", "Test Rule", "Test threat rule", ThreatType::DDoS, ThreatSeverity::High, "request_count", 100, vec![ActionType::BlockIP]);

    engine.add_rule(r);

    let rules = engine.get_rules();
    assert_eq!(rules.len(), 1);
    assert_eq!(rules[0].id, "test_rule");

    engine.remove_rule("test_rule");

    let rules = engine.get_rules();
    assert_eq!(rules.len(), 0);
}

#[test]
fn test_threat_analysis() {
    let mut engine = ThreatDetectionEngine::new();

    engine.add_rule(rule("ddos_rule", "DDoS Detection", "Detect DDoS attacks", ThreatType::DDoS, ThreatSeverity::Critical, "request_count", 50, vec![ActionType::BlockIP]));

    let e = event("192.168.1.100", Some("Mozilla/5.0"), "/api/health", "GET", 200, 100, 0, 50, 1024);

    let threats = engine.analyze_event(&e, NOW);
    assert_eq!(threats.len(), 1);
    assert_eq!(threats[0].threat_type, ThreatType::DDoS);
    assert_eq!(threats[0].severity, ThreatSeverity::Critical);
}

#[test]
fn test_ip_blacklisting() {
    let mut engine = ThreatDetectionEngine::new();

    engine.add_rule(rule("block_rule", "Block IP", "Block malicious IP", ThreatType::UnauthorizedAccess, ThreatSeverity::High, "error_count", 10, vec![ActionType::BlockIP]));

    let e = event("192.168.1.200", None, "/api/login", "POST", 401, 15, 15, 100, 512);

    engine.analyze_event(&e, NOW);

    assert!(engine.is_ip_blacklisted("192.168.1.200"));
}

#[test]
fn test_threat_resolution() {
    let mut engine = ThreatDetectionEngine::new();

    engine.add_rule(rule("test_rule", "Test Rule", "Test threat rule", ThreatType::BruteForce, ThreatSeverity::Medium, "error_count", 5, vec![]));

    let e = event("192.168.1.300", None, "/api/auth", "POST", 401, 10, 10, 200, 256);

    let threats = engine.analyze_event(&e, NOW);
    assert_eq!(threats.len(), 1);

    let threat_id = &threats[0].id;
    engine.resolve_threat(threat_id, NOW + 1).unwrap();

    let active_threats = engine.get_active_threats();
    assert_eq!(active_threats.len(), 0);
}

#[test]
fn test_false_positive_marking() {
    let mut engine = ThreatDetectionEngine::new();

    engine.add_rule(rule("test_rule", "Test Rule", "Test threat rule", ThreatType::MaliciousTransaction, ThreatSeverity::Low, "payload_size", 1000, vec![]));

    let e = event("192.168.1.400", None, "/api/upload", "POST", 200, 1, 0, 1000, 2000);

    let threats = engine.analyze_event(&e, NOW);
    assert_eq!(threats.len(), 1);

    let threat_id = &threats[0].id;
    engine.mark_false_positive(threat_id).unwrap();

    let stats = engine.get_stats();
    assert_eq!(stats.false_positives, 1);
}

#[test]
fn rate_limit_action_limits_for_five_minutes_and_counts() {
    let mut engine = ThreatDetectionEngine::new();
    engine.add_rule(rule("rl", "RL", "limit", ThreatType::DDoS, ThreatSeverity::High, "request_count", 1, vec![ActionType::RateLimit, ActionType::Alert]));
    let e = event("10.0.0.9", None, "/", "GET", 200, 5, 0, 1, 1);
    let threats = engine.analyze_event(&e, NOW);
    assert_eq!(threats.len(), 1);
    assert_eq!(threats[0].id, format!("threat_{}", NOW));
    assert_eq!(threats[0].status, ThreatStatus::Active);
    assert!(engine.is_ip_rate_limited("10.0.0.9", NOW + 299_999));
    assert!(!engine.is_ip_rate_limited("10.0.0.9", NOW + 300_000));
    assert!(!engine.is_ip_blacklisted("10.0.0.9"));
    let stats = engine.get_stats();
    assert_eq!(stats.total_threats, 1);
    assert_eq!(stats.rate_limited_requests, 1);
    assert_eq!(stats.blocked_ips, 0);
    assert_eq!(stats.active_threats, 1);
}

#[test]
fn disabled_engine_and_unknown_threats() {
    let mut engine = ThreatDetectionEngine::new();
    engine.add_rule(rule("r", "R", "d", ThreatType::DDoS, ThreatSeverity::High, "request_count", 1, vec![]));
    engine.disable();
    let e = event("10.0.0.1", None, "/", "GET", 200, 5, 0, 1, 1);
    assert!(engine.analyze_event(&e, NOW).is_empty());
    assert_eq!(engine.resolve_threat("nope", NOW).unwrap_err(), "Threat not found");
    assert_eq!(engine.mark_false_positive("nope").unwrap_err(), "Threat not found");
    engine.enable();
    assert_eq!(engine.analyze_event(&e, NOW).len(), 1);
    engine.clear_threats();
    assert!(engine.get_detected_threats().is_empty());
    assert_eq!(engine.get_stats().active_threats, 0);
}
