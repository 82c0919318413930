use ippan::privacy::{
    calculate_hash, check_attribute, encrypt_transaction_data, AccessType, Attribute, ConfidentialError,
    ConfidentialTransaction, ConfidentialTransactionManager, Permission, PrivacyLevel, TransactionType,
};

const SENDER: &str = "i1sender1234567890abcdef1234567890abcdef1234567890abcdef1234567890";
const RECIPIENT: &str = "i1recipient1234567890abcdef1234567890abcdef1234567890abcdef1234567890";
const NOW: i64 = 1_700_000_000_000;

type Payload = (String, String, u64, Option<String>, i64);

fn make_payment(manager: &mut ConfidentialTransactionManager, level: PrivacyLevel) -> ConfidentialTransaction {
    let data = manager.payment_data(SENDER, RECIPIENT, 1000000, Some("Test payment".to_string()), NOW);
    let payload: Payload = (
        data.sender_address.clone(),
        data.recipient_address.clone(),
        data.amount,
        data.memo.clone(),
        data.timestamp_ms,
    );
    let bytes = serde_json::to_vec(&payload).unwrap();
    let encrypted = encrypt_transaction_data(&bytes, RECIPIENT, NOW).unwrap();
    manager.create_confidential_payment(&data, 100, level, NOW, encrypted)
}

#[test]
fn test_confidential_payment_creation() {
    let mut manager = ConfidentialTransactionManager::new();

    let confidential_tx = make_payment(&mut manager, PrivacyLevel::Confidential);

    assert_eq!(confidential_tx.public_metadata.transaction_type, TransactionType::Payment);
    assert_eq!(confidential_tx.public_metadata.privacy_level, PrivacyLevel::Confidential);
    assert_eq!(confidential_tx.public_metadata.fee, 100);
}

#[test]
fn test_confidential_payment_decryption() {
    let mut manager = ConfidentialTransactionManager::new();

    let mut confidential_tx = make_payment(&mut manager, PrivacyLevel::Confidential);

    let bytes = manager.decrypt_transaction_data(&mut confidential_tx, SENDER, AccessType::Decrypt, NOW).unwrap();
    let decrypted_data: Payload = serde_json::from_slice(&bytes).unwrap();

    assert_eq!(decrypted_data.2, 1000000);
    assert_eq!(decrypted_data.3, Some("Test payment".to_string()));

    let result = manager.decrypt_transaction_data(
        &mut confidential_tx,
        "i1unauthorized1234567890abcdef1234567890abcdef1234567890abcdef1234567890",
        AccessType::Decrypt,
        NOW,
    );

    assert!(result.is_err());
    assert_eq!(result.unwrap_err(), ConfidentialError::AccessDenied);
}

#[test]
fn test_regulated_transaction() {
    let mut manager = ConfidentialTransactionManager::new();

    let confidential_tx = make_payment(&mut manager, PrivacyLevel::Regulated);

    assert!(confidential_tx.access_control.authorized_parties.contains(&"regulator_global".to_string()));
    assert!(confidential_tx.access_control.permissions.contains(&Permission::Audit));
}

#[test]
fn hash_is_sha256_and_tampered_ciphertext_fails() {
    let h = calculate_hash(b"abc");
    assert_eq!(
        hex::encode(h),
        "ba7816bf8f01cfea414140de5dae2223b00361a396177a9cb410ff61f20015ad"
    );
    let mut manager = ConfidentialTransactionManager::new();
    let mut tx = make_payment(&mut manager, PrivacyLevel::Confidential);
    tx.encrypted_data.ciphertext[0] ^= 1;
    let r = manager.decrypt_transaction_data(&mut tx, RECIPIENT, AccessType::Decrypt, NOW);
    assert_eq!(r.unwrap_err(), ConfidentialError::DecryptionFailed);
}

#[test]
fn attributes_hold_by_prefix_role_or_time() {
    assert!(check_attribute(&Attribute::IsRegulator, "regulator_eu", NOW));
    assert!(!check_attribute(&Attribute::IsRegulator, "auditor_x", NOW));
    assert!(check_attribute(&Attribute::IsAuditor, "auditor_x", NOW));
    assert!(check_attribute(&Attribute::HasRole("ops".to_string()), "team_ops_1", NOW));
    assert!(!check_attribute(&Attribute::HasRole("ops".to_string()), "team_dev_1", NOW));
    assert!(check_attribute(&Attribute::TimeBased(NOW - 1, NOW + 1), "x", NOW));
    assert!(!check_attribute(&Attribute::TimeBased(NOW + 1, NOW + 2), "x", NOW));
}
