use ed25519_dalek::{Signer, SigningKey, VerifyingKey};
use ippan::network_security::{
    security_stats, AuthError, ConnectionAuthenticator, HandshakeMessage, MessageEncryptor, MessageError,
    NetworkSecurityConfig, NetworkSecurityManager, RateLimiter, SecurityLevel, ThreatDetector,
};

const NOW_MS: i64 = 1_700_000_000_000;

#[test]
fn test_network_security_manager() {
    let config = NetworkSecurityConfig::default();
    let manager = NetworkSecurityManager::new(config, NOW_MS);

    let stats = manager.get_security_stats();
    assert!(stats.tls_enabled);
    assert!(stats.mutual_tls_enabled);
    assert!(stats.message_encryption_enabled);
}

#[test]
fn stats_of_parts() {
    let config = NetworkSecurityConfig::default();
    let limiter = RateLimiter::new(config.max_connections_per_ip, 60);
    let detector = ThreatDetector::new();
    let stats = security_stats(&config, &limiter, &detector, 3);
    assert_eq!(stats.total_connections, 3);
    assert_eq!(stats.rate_limited_ips, 0);
    assert_eq!(stats.security_events, 0);
}

fn signed_handshake(seed: u8, timestamp_ms: i64) -> HandshakeMessage {
    let signing = SigningKey::from_bytes(&[seed; 32]);
    let public_key = signing.verifying_key().to_bytes();
    let node_id = [9u8; 32];
    let nonce = [4u8; 32];
    let time = chrono::DateTime::<chrono::Utc>::from_timestamp_millis(timestamp_ms).unwrap().to_rfc3339();
    let text = format!("{}:{}:{}:{}", hex::encode(node_id), hex::encode(public_key), time, hex::encode(nonce));
    let signature = signing.sign(text.as_bytes()).to_bytes().to_vec();
    HandshakeMessage { node_id, public_key, timestamp_ms, nonce, signature }
}

#[test]
fn valid_handshake_authenticates() {
    let mut manager = NetworkSecurityManager::new(NetworkSecurityConfig::default(), NOW_MS);
    let h = signed_handshake(7, NOW_MS - 5_000);
    let public_key = h.public_key;
    let conn = manager.authenticate_connection("conn-1", "10.0.0.1", Some(h), NOW_MS).unwrap();
    assert_eq!(conn.connection_id, "conn-1");
    assert_eq!(conn.remote_node_id, [9u8; 32]);
    assert_eq!(conn.remote_public_key, public_key);
    assert_eq!(conn.authenticated_at_ms, NOW_MS);
    assert_eq!(conn.session_key, None);
    assert_eq!(conn.security_level, SecurityLevel::Enhanced);
    assert_eq!(manager.get_security_stats().total_connections, 1);
    assert_eq!(manager.get_security_stats().security_events, 0);
    assert!(manager.authenticated_connection("conn-1").is_some());

    // The same connection authenticated again replaces the record.
    manager.authenticate_connection("conn-1", "10.0.0.1", Some(signed_handshake(8, NOW_MS)), NOW_MS).unwrap();
    assert_eq!(manager.get_security_stats().total_connections, 1);
}

#[test]
fn tampered_handshake_is_logged() {
    let mut manager = NetworkSecurityManager::new(NetworkSecurityConfig::default(), NOW_MS);
    let mut h = signed_handshake(7, NOW_MS);
    h.nonce[0] ^= 1;
    let r = manager.authenticate_connection("conn-2", "10.0.0.2", Some(h), NOW_MS);
    assert_eq!(r.unwrap_err(), AuthError::InvalidSignature);
    assert_eq!(AuthError::InvalidSignature.message(), "Invalid handshake signature");
    let stats = manager.get_security_stats();
    assert_eq!(stats.security_events, 1);
    assert_eq!(stats.total_connections, 0);
    assert!(manager.authenticated_connection("conn-2").is_none());
}

#[test]
fn short_signature_is_refused() {
    let authenticator = ConnectionAuthenticator::new();
    let mut h = signed_handshake(3, NOW_MS);
    h.signature.truncate(63);
    assert_eq!(authenticator.verify_handshake(&h), Ok(false));
    let good = signed_handshake(3, NOW_MS);
    assert_eq!(authenticator.verify_handshake(&good), Ok(true));
    assert_eq!(authenticator.connection_count(), 0);
}

#[test]
fn undecodable_key_is_an_error() {
    let mut bad = None;
    for b in 0u8..=255 {
        let candidate = [b; 32];
        if VerifyingKey::from_bytes(&candidate).is_err() {
            bad = Some(candidate);
            break;
        }
    }
    let bad = bad.unwrap();
    let mut h = signed_handshake(5, NOW_MS);
    h.public_key = bad;
    let mut manager = NetworkSecurityManager::new(NetworkSecurityConfig::default(), NOW_MS);
    let r = manager.authenticate_connection("conn-3", "10.0.0.3", Some(h), NOW_MS);
    assert_eq!(r.unwrap_err(), AuthError::InvalidPublicKey);
    assert_eq!(manager.get_security_stats().security_events, 0);
}

#[test]
fn unreadable_handshake_is_an_error() {
    let mut manager = NetworkSecurityManager::new(NetworkSecurityConfig::default(), NOW_MS);
    let r = manager.authenticate_connection("conn-4", "10.0.0.4", None, NOW_MS);
    assert_eq!(r.unwrap_err(), AuthError::InvalidHandshake);
    assert_eq!(AuthError::RateLimited.message(), "Connection rate limited");
}

#[test]
fn messages_pass_through_without_encryption() {
    let mut config = NetworkSecurityConfig::default();
    config.enable_message_encryption = false;
    let manager = NetworkSecurityManager::new(config, NOW_MS);
    assert_eq!(manager.encrypt_message("c", b"plain"), Ok(b"plain".to_vec()));
    assert_eq!(manager.decrypt_message("c", b"plain"), Ok(b"plain".to_vec()));
    let on = NetworkSecurityManager::new(NetworkSecurityConfig::default(), NOW_MS);
    assert_eq!(on.encrypt_message("c", b"plain"), Err(MessageError::NoSessionKey));
}

#[test]
fn security_test_rate_limiter() {
    let rate_limiter = RateLimiter::new(5, 60);

    assert!(rate_limiter.is_connection_allowed("192.168.1.1", 0));
    assert!(rate_limiter.is_connection_allowed("192.168.1.2", 0));
}

#[test]
fn test_message_encryption() {
    let encryptor = MessageEncryptor::new();
    let _connection_id = "test_connection";

    assert_eq!(encryptor.session_key_count(), 0);
}

#[test]
fn messages_need_a_session_key() {
    let encryptor = MessageEncryptor::new();
    assert_eq!(encryptor.encrypt_message("c", b"hi"), Err(MessageError::NoSessionKey));
    assert_eq!(encryptor.decrypt_message("c", &[0u8; 40]), Err(MessageError::NoSessionKey));
    assert!(!encryptor.is_nonce_used("c", &[0u8; 12]));
}
