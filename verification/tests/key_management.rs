use ippan::key_management::{KeyAuditEventType, KeyError, KeyManagementService};

#[test]
fn key_service_policies_and_backup() {
    let mut s = KeyManagementService::new(1_000);
    assert_eq!(
        s.validate_key_generation_policies("k"),
        Err(KeyError::Security("Encryption required but master key not set".to_string()))
    );
    assert_eq!(
        s.export_key_backup(b"x"),
        Err(KeyError::Security("Master key not available for encryption".to_string()))
    );
    s.initialize(1_000).unwrap();
    assert_eq!(s.total_audit_events(), 1);
    assert_eq!(s.validate_key_generation_policies("k"), Ok(()));
    assert_eq!(
        s.validate_key_generation_policies(""),
        Err(KeyError::Security("Key label cannot be empty".to_string()))
    );
    let backup = s.export_key_backup(b"{\"address\":\"abc\"}").unwrap();
    assert_eq!(backup.len(), 12 + 17 + 16);
    assert_eq!(s.import_key_backup(&backup).unwrap(), b"{\"address\":\"abc\"}".to_vec());
    assert_eq!(s.import_key_backup(&backup[..11]), Err(KeyError::Crypto("Invalid backup data".to_string())));
    let mut tampered = backup.clone();
    tampered[20] ^= 1;
    assert_eq!(s.import_key_backup(&tampered), Err(KeyError::Crypto("Failed to decrypt backup".to_string())));
}

#[test]
fn key_service_rotation_schedule() {
    let mut s = KeyManagementService::new(10_000);
    assert!(!s.rotation_due(13_599));
    assert!(s.rotation_due(13_600));
    assert!(!s.rotation_due(14_000));
    assert!(!s.rotation_due(5));
    assert!(s.rotation_due(17_200));
}

#[test]
fn key_service_audit_log_is_bounded() {
    let mut s = KeyManagementService::new(0);
    for i in 0..10_001u64 {
        let t = if i % 2 == 0 { KeyAuditEventType::SecurityAlert } else { KeyAuditEventType::KeyUsed };
        s.log_audit_event(t, "addr".to_string(), "event".to_string(), None, true, i);
    }
    assert_eq!(s.total_audit_events(), 9_001);
    assert_eq!(s.security_violations(), 4_501);
}
