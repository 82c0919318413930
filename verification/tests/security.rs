use ippan::performance::{Block, PerformanceConfig, Transaction};
use ippan::node_types::NodeConfig;
use ippan::protocol::{BlockProtocolHandler, DomainProtocolHandler, ProtocolHandler};
use ippan::security::{SecurityConfig, SecurityManager, SecuritySeverity};

#[test]
fn summary_audit_reports_two_known_vulnerabilities() {
    let mut manager = SecurityManager::new(SecurityConfig::default());
    let result = manager.run_security_audit().unwrap();
    assert_eq!(result.audit_id, "audit-001");
    assert_eq!(result.total_vulnerabilities, 2);
    assert_eq!(result.high_count, 1);
    assert_eq!(result.medium_count, 1);
    assert_eq!(result.critical_count + result.low_count + result.info_count, 0);
    assert_eq!(result.security_score, 70);
    assert_eq!(result.compliance_score, 85);
    assert_eq!(result.recommendations.len(), 8);
    assert_eq!(result.vulnerabilities[0].severity, SecuritySeverity::High);
    assert_eq!(manager.config().scan_frequency, 3600);
}

#[test]
fn hashes_are_sha256_of_the_bytes() {
    let t = Transaction { data: b"abc".to_vec() };
    assert_eq!(hex::encode(t.hash()), "ba7816bf8f01cfea414140de5dae2223b00361a396177a9cb410ff61f20015ad");
    let b = Block { data: vec![] };
    assert_eq!(hex::encode(b.hash()), "e3b0c44298fc1c149afbf4c8996fb92427ae41e4649b934ca495991b7852b855");
    assert_eq!(PerformanceConfig::default().compression_level, 6);
}

#[test]
fn node_config_and_protocol_names() {
    let c = NodeConfig::new(true, Some("https://example".to_string()), 30, vec![1u8, 2]);
    assert!(c.archive_mode);
    assert_eq!(c.sync_interval_secs, 30);
    assert_eq!(c.tx_types_to_sync, vec![1, 2]);
    assert_eq!(BlockProtocolHandler.protocol_name(), "block");
    assert_eq!(DomainProtocolHandler.protocol_name(), "domain");
}
