use ippan::p2p::{
    CertificateInfo, CertificateManager, CertificateStatus, ConnectionState, HandshakeMessage, PeerInfo,
    RateLimitInfo, RateLimiter, SecureConnectionConfig, SecureP2PConnection, SecureP2PNetwork, SecurityLevel,
};

const YEAR_MS: i64 = 365 * 24 * 3600 * 1000;

fn copy_cert(c: &CertificateInfo) -> CertificateInfo {
    CertificateInfo {
        cert_id: c.cert_id.clone(),
        cert_data: c.cert_data.clone(),
        private_key_data: c.private_key_data.clone(),
        fingerprint: c.fingerprint,
        issued_at_ms: c.issued_at_ms,
        expires_at_ms: c.expires_at_ms,
        status: c.status,
    }
}

#[test]
fn test_certificate_manager() {
    let mut cert_manager = CertificateManager::new();
    let node_id = [1u8; 32];
    let now = 1_700_000_000_000;

    cert_manager.generate_self_signed_cert(&node_id, now);

    let cert = copy_cert(cert_manager.get_node_certificate().unwrap());
    assert_eq!(cert.status, CertificateStatus::Valid);
    assert!(cert.expires_at_ms > now);

    let is_trusted = cert_manager.is_certificate_trusted(&cert.fingerprint);
    assert!(!is_trusted);

    cert_manager.add_trusted_certificate(copy_cert(&cert));

    let is_trusted = cert_manager.is_certificate_trusted(&cert.fingerprint);
    assert!(is_trusted);

    let is_revoked = cert_manager.is_certificate_revoked(&cert.cert_id);
    assert!(!is_revoked);

    cert_manager.revoke_certificate(cert.cert_id.clone(), now);

    let is_revoked = cert_manager.is_certificate_revoked(&cert.cert_id);
    assert!(is_revoked);
}

#[test]
fn p2p_test_rate_limiter() {
    let mut rate_limiter = RateLimiter::new(3, 60);
    let ip = "192.168.1.1".to_string();
    let now = 1_000_000;

    assert!(rate_limiter.is_connection_allowed(&ip, now));
    assert!(rate_limiter.is_connection_allowed(&ip, now));
    assert!(rate_limiter.is_connection_allowed(&ip, now));

    assert!(!rate_limiter.is_connection_allowed(&ip, now));

    rate_limiter.remove_connection(&ip);
    rate_limiter.remove_connection(&ip);

    assert!(!rate_limiter.is_connection_allowed(&ip, now));
}

#[test]
fn test_secure_connection_config() {
    let config = SecureConnectionConfig {
        use_tls: true,
        cert_file: Some("/path/to/cert.pem".to_string()),
        key_file: Some("/path/to/key.pem".to_string()),
        ca_file: Some("/path/to/ca.pem".to_string()),
        verify_peer: true,
        certificate_pinning: true,
        rate_limiting: true,
        max_connections_per_ip: 5,
    };

    assert!(config.use_tls);
    assert!(config.verify_peer);
    assert!(config.certificate_pinning);
    assert!(config.rate_limiting);
    assert_eq!(config.max_connections_per_ip, 5);
    assert!(config.cert_file.is_some());
    assert!(config.key_file.is_some());
    assert!(config.ca_file.is_some());
}

#[test]
fn test_handshake_message_with_certificate() {
    let node_id = [1u8; 32];
    let cert_fingerprint = [2u8; 32];

    let handshake = HandshakeMessage {
        node_id,
        address: "127.0.0.1:8080".to_string(),
        version: 1,
        features: vec!["tls".to_string(), "rate_limiting".to_string()],
        timestamp_ms: 0,
        cert_fingerprint: Some(cert_fingerprint),
    };

    assert_eq!(handshake.node_id, node_id);
    assert_eq!(handshake.version, 1);
    assert!(handshake.features.contains(&"tls".to_string()));
    assert!(handshake.cert_fingerprint.is_some());
    assert_eq!(handshake.cert_fingerprint.unwrap(), cert_fingerprint);
}

#[test]
fn test_certificate_status() {
    let now = 1_700_000_000_000;
    let cert_info = CertificateInfo {
        cert_id: "test_cert".to_string(),
        cert_data: vec![1, 2, 3, 4],
        private_key_data: vec![5, 6, 7, 8],
        fingerprint: [1u8; 32],
        issued_at_ms: now,
        expires_at_ms: now + YEAR_MS,
        status: CertificateStatus::Valid,
    };

    assert_eq!(cert_info.cert_id, "test_cert");
    assert_eq!(cert_info.status, CertificateStatus::Valid);
    assert!(cert_info.expires_at_ms > cert_info.issued_at_ms);

    let mut cert_info = cert_info;
    cert_info.status = CertificateStatus::Expired;
    assert_eq!(cert_info.status, CertificateStatus::Expired);

    cert_info.status = CertificateStatus::Revoked;
    assert_eq!(cert_info.status, CertificateStatus::Revoked);

    cert_info.status = CertificateStatus::Compromised;
    assert_eq!(cert_info.status, CertificateStatus::Compromised);
}

#[test]
fn test_security_levels() {
    assert_eq!(SecurityLevel::Plain, SecurityLevel::Plain);
    assert_eq!(SecurityLevel::Tls, SecurityLevel::Tls);
    assert_eq!(SecurityLevel::CertificatePinned, SecurityLevel::CertificatePinned);

    assert_ne!(SecurityLevel::Plain, SecurityLevel::Tls);
    assert_ne!(SecurityLevel::Tls, SecurityLevel::CertificatePinned);
}

#[test]
fn test_rate_limit_info() {
    let now = 1_700_000_000_000;
    let rate_limit = RateLimitInfo {
        ip: "192.168.1.1".to_string(),
        connection_count: 5,
        last_connection_ms: now,
        blocked_until_ms: Some(now + 5 * 60 * 1000),
    };

    assert_eq!(rate_limit.ip, "192.168.1.1");
    assert_eq!(rate_limit.connection_count, 5);
    assert!(rate_limit.blocked_until_ms.is_some());

    let unblocked_rate_limit = RateLimitInfo {
        ip: "192.168.1.2".to_string(),
        connection_count: 2,
        last_connection_ms: now,
        blocked_until_ms: None,
    };

    assert!(unblocked_rate_limit.blocked_until_ms.is_none());
}

#[test]
fn self_signed_certificate_is_named_after_the_node() {
    let mut cert_manager = CertificateManager::new();
    cert_manager.generate_self_signed_cert(&[0xab; 32], 0);
    let cert = cert_manager.get_node_certificate().unwrap();
    assert_eq!(cert.cert_id, "cert_abababababababab");
    assert_eq!(cert.cert_data.len(), 1024);
    assert_eq!(cert.private_key_data.len(), 512);
    assert_eq!(cert.expires_at_ms, YEAR_MS);
}

#[test]
fn address_at_cap_stays_blocked_until_a_connection_closes() {
    let mut limiter = RateLimiter::new(1, 60);
    assert!(limiter.is_connection_allowed("10.0.0.1", 0));
    assert!(!limiter.is_connection_allowed("10.0.0.1", 1000));
    assert!(limiter.is_connection_allowed("10.0.0.2", 1000));
    assert!(!limiter.is_connection_allowed("10.0.0.1", 61_001));
    limiter.remove_connection("10.0.0.1");
    assert!(!limiter.is_connection_allowed("10.0.0.1", 121_000));
    assert!(limiter.is_connection_allowed("10.0.0.1", 121_001));
}

fn tls_config() -> SecureConnectionConfig {
    SecureConnectionConfig {
        use_tls: true,
        cert_file: None,
        key_file: None,
        ca_file: None,
        verify_peer: false,
        certificate_pinning: false,
        rate_limiting: true,
        max_connections_per_ip: 10,
    }
}

#[test]
fn test_secure_p2p_network_creation() {
    let node_id = [1u8; 32];
    let network = SecureP2PNetwork::new(node_id, "127.0.0.1:8080".to_string(), "127.0.0.1:8080".to_string(), tls_config(), 1_700_000_000_000).unwrap();
    assert_eq!(network.node_id(), node_id);
    assert_eq!(network.listen_addr(), "127.0.0.1:8080");
    assert!(network.secure_config().use_tls);
    assert!(network.secure_config().rate_limiting);
}

#[test]
fn test_network_stats() {
    let network = SecureP2PNetwork::new([1u8; 32], "127.0.0.1:8080".to_string(), "127.0.0.1:8080".to_string(), tls_config(), 0).unwrap();
    let stats = network.get_network_stats();
    assert_eq!(stats.total_connections, 0);
    assert_eq!(stats.tls_connections, 0);
    assert_eq!(stats.plain_connections, 0);
    assert!(stats.tls_enabled);
    assert!(stats.rate_limiting_enabled);
    assert!(stats.node_certificate_configured);
}

#[test]
fn test_peer_info_with_certificate() {
    let cert_fingerprint = [1u8; 32];
    let peer_info = PeerInfo {
        address: "192.168.1.100".to_string(),
        port: 8080,
        last_seen_ms: 0,
        score: 950_000,
        cert_fingerprint: Some(cert_fingerprint),
    };
    assert_eq!(peer_info.address, "192.168.1.100");
    assert_eq!(peer_info.port, 8080);
    assert_eq!(peer_info.score, 950_000);
    assert!(peer_info.cert_fingerprint.is_some());
    assert_eq!(peer_info.cert_fingerprint.unwrap(), cert_fingerprint);
}

#[test]
fn test_secure_connection_states() {
    let connection = SecureP2PConnection {
        id: "test_connection".to_string(),
        remote_addr: "127.0.0.1:8080".to_string(),
        state: ConnectionState::TlsHandshaking,
        last_activity_ms: 0,
        score: 1_000_000,
        cert_fingerprint: Some([1u8; 32]),
        security_level: SecurityLevel::Tls,
    };
    assert_eq!(connection.id, "test_connection");
    assert_eq!(connection.state, ConnectionState::TlsHandshaking);
    assert_eq!(connection.security_level, SecurityLevel::Tls);
    assert!(connection.cert_fingerprint.is_some());
}

#[test]
fn secure_network_rate_limits_connections() {
    let mut cfg = tls_config();
    cfg.max_connections_per_ip = 1;
    let mut network = SecureP2PNetwork::new([2u8; 32], "n".to_string(), "0.0.0.0:1".to_string(), cfg, 0).unwrap();
    assert_eq!(network.connect_to_peer("10.0.0.1", 1), Ok(()));
    assert_eq!(network.connect_to_peer("10.0.0.1", 2), Err("Rate limited".to_string()));
    assert_eq!(network.connect_to_peer("10.0.0.2", 3), Ok(()));
}
