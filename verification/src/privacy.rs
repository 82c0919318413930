//! Confidential transactions: encrypted payloads readable only by the
//! parties an access control list names, under time, count and attribute
//! conditions. Times are milliseconds since the Unix epoch, given by the
//! caller. Payloads are serialized by the caller.

use vstd::prelude::*;
use crate::text::{owned, concat, u64_to_string, i64_to_string, decimal, signed_decimal, has_substring, str_contains};
use crate::strvec::views;
use aes_gcm::KeyInit;
use aes_gcm::aead::Aead;
use sha2::Digest;
use rand::RngCore;

verus! {

/// A transaction hash.
pub type TransactionHash = [u8; 32];

/// One year, in milliseconds.
pub const YEAR_MS: i64 = 31536000000;

#[derive(Debug, Clone, Copy, PartialEq, Eq, Structural)]
pub enum TransactionType {
    Payment,
    Staking,
    Storage,
    Domain,
    M2MPayment,
}

#[derive(Debug, Clone, Copy, PartialEq, Eq, Structural)]
pub enum TransactionStatus {
    Pending,
    Confirmed,
    Failed,
    Cancelled,
}

#[derive(Debug, Clone, Copy, PartialEq, Eq, Structural)]
pub enum PrivacyLevel {
    Public,
    Confidential,
    Private,
    Regulated,
}

#[derive(Debug, Clone, Copy, PartialEq, Eq, Structural)]
pub enum Permission {
    Read,
    Decrypt,
    ModifyAccess,
    RevokeAccess,
    Audit,
    Share,
}

#[derive(Debug, Clone, Copy, PartialEq, Eq, Structural)]
pub enum AccessType {
    Read,
    Decrypt,
    Audit,
    Share,
}

#[derive(Debug, Clone, Copy, PartialEq, Eq, Structural)]
pub enum ZKProofType {
    RangeProof,
    BalanceProof,
    ConsistencyProof,
    ComplianceProof,
    AggregatedProof,
}

/// A condition on the party asking for access.
#[derive(Debug)]
pub enum Attribute {
    IsSender,
    IsRecipient,
    IsRegulator,
    IsAuditor,
    HasRole(String),
    HasPermission(String),
    AmountThreshold(u64),
    GeographicRegion(String),
    /// Access window, from and until (milliseconds).
    TimeBased(i64, i64),
}

/// How attributes combine.
#[derive(Debug)]
pub enum AccessPolicy {
    All(Vec<Attribute>),
    Any(Vec<Attribute>),
    AtLeast(usize, Vec<Attribute>),
    Custom(String),
}

/// One access to a transaction.
#[derive(Debug)]
pub struct AccessRecord {
    pub timestamp_ms: i64,
    pub accessing_party: String,
    pub access_type: AccessType,
    pub ip_address: Option<String>,
    pub user_agent: Option<String>,
}

/// A window of time and a budget of accesses.
#[derive(Debug)]
pub struct TimeBasedAccess {
    pub access_from_ms: i64,
    pub access_until_ms: i64,
    pub max_accesses: Option<u32>,
    pub current_accesses: u32,
    pub access_history: Vec<AccessRecord>,
}

/// Attribute conditions.
#[derive(Debug)]
pub struct AttributeBasedAccess {
    pub required_attributes: Vec<Attribute>,
    pub attribute_authorities: Vec<String>,
    pub access_policy: AccessPolicy,
}

/// Who may do what with a transaction.
#[derive(Debug)]
pub struct AccessControlList {
    pub authorized_parties: Vec<String>,
    pub permissions: Vec<Permission>,
    pub expires_at_ms: Option<i64>,
    pub time_based_access: Option<TimeBasedAccess>,
    pub attribute_based_access: Option<AttributeBasedAccess>,
}

/// An encrypted payload: AES-256-GCM ciphertext and tag, the key (as the
/// recipient's key encapsulation) and the nonce.
#[derive(Debug)]
pub struct EncryptedTransactionData {
    pub ciphertext: Vec<u8>,
    pub key_encapsulation: Vec<u8>,
    pub nonce: Vec<u8>,
    pub tag: Vec<u8>,
    pub encrypted_at_ms: i64,
}

/// What every node may see of a transaction.
#[derive(Debug)]
pub struct PublicMetadata {
    pub transaction_type: TransactionType,
    pub sender_address: String,
    pub recipient_address: String,
    pub timestamp_ms: i64,
    pub fee: u64,
    pub status: TransactionStatus,
    pub privacy_level: PrivacyLevel,
}

/// A proof of validity.
#[derive(Debug)]
pub struct ZKProof {
    pub proof_type: ZKProofType,
    pub proof_data: Vec<u8>,
    pub public_inputs: Vec<Vec<u8>>,
    pub verification_key: Vec<u8>,
    pub generated_at_ms: i64,
}

/// A confidential transaction.
#[derive(Debug)]
pub struct ConfidentialTransaction {
    pub hash: TransactionHash,
    pub encrypted_data: EncryptedTransactionData,
    pub public_metadata: PublicMetadata,
    pub access_control: AccessControlList,
    pub validity_proof: ZKProof,
    pub signature: Option<Vec<u8>>,
}

/// The payload of a payment.
#[derive(Debug)]
pub struct PaymentTransactionData {
    pub sender_address: String,
    pub recipient_address: String,
    pub amount: u64,
    pub memo: Option<String>,
    pub timestamp_ms: i64,
}

/// Privacy settings.
#[derive(Debug, Clone, Copy)]
pub struct PrivacySettings {
    pub default_privacy_level: PrivacyLevel,
    pub enable_audit_logging: bool,
    pub enable_access_control: bool,
    pub enable_time_based_access: bool,
    pub enable_attribute_based_access: bool,
    pub max_access_attempts: u32,
    pub access_attempt_window: u64,
}

/// Errors of the confidential transaction manager.
#[derive(Debug, Clone, Copy, PartialEq, Eq, Structural)]
pub enum ConfidentialError {
    /// The party may not access the transaction in that way.
    AccessDenied,
    /// The payload is too large to encrypt.
    EncryptionFailed,
    /// The key is not 32 bytes long.
    InvalidKey,
    /// The ciphertext does not authenticate under the key and nonce.
    DecryptionFailed,
}

/// Whole seconds of a millisecond time, rounded down.
pub open spec fn seconds_of(ms: i64) -> int {
    (ms as int) / 1000
}

/// `party` begins with `prefix`.
pub open spec fn has_prefix(party: Seq<char>, prefix: Seq<char>) -> bool {
    prefix.len() <= party.len() && party.subrange(0, prefix.len() as int) == prefix
}

/// Whether `s` begins with `prefix`.
pub fn str_starts_with(s: &str, prefix: &str) -> (b: bool)
    ensures
        b == has_prefix(s@, prefix@),
{
    let sc = crate::text::chars_of(s);
    let pc = crate::text::chars_of(prefix);
    if pc.len() > sc.len() {
        return false;
    }
    let mut i: usize = 0;
    while i < pc.len()
        invariant
            i <= pc@.len() <= sc@.len(),
            sc@ == s@,
            pc@ == prefix@,
            forall|t: int| 0 <= t < i ==> sc@[t] == pc@[t],
        decreases pc@.len() - i,
    {
        if sc[i] != pc[i] {
            proof {
                if has_prefix(s@, prefix@) {
                    assert(s@.subrange(0, prefix@.len() as int)[i as int] == s@[i as int]);
                    assert(s@[i as int] == prefix@[i as int]);
                }
            }
            return false;
        }
        i = i + 1;
    }
    assert(sc@.subrange(0, pc@.len() as int) =~= pc@);
    true
}

/// Whether `attribute` holds of `party` at `now`. Sender, recipient,
/// amount and region attributes are taken as holding.
pub open spec fn attribute_holds(attribute: Attribute, party: Seq<char>, now: i64) -> bool {
    match attribute {
        Attribute::IsSender => true,
        Attribute::IsRecipient => true,
        Attribute::IsRegulator => has_prefix(party, "regulator_"@),
        Attribute::IsAuditor => has_prefix(party, "auditor_"@),
        Attribute::HasRole(role) => has_substring(party, role@),
        Attribute::HasPermission(p) => has_substring(party, p@),
        Attribute::AmountThreshold(_) => true,
        Attribute::GeographicRegion(_) => true,
        Attribute::TimeBased(from, until) => from <= now <= until,
    }
}

/// Number of `attrs` that hold.
pub open spec fn holding_count(attrs: Seq<Attribute>, party: Seq<char>, now: i64) -> nat
    decreases attrs.len(),
{
    if attrs.len() == 0 {
        0
    } else {
        holding_count(attrs.drop_last(), party, now) + if attribute_holds(attrs.last(), party, now) {
            1nat
        } else {
            0nat
        }
    }
}

/// Whether `policy` admits `party` at `now`. A custom policy admits
/// everyone.
pub open spec fn policy_admits(policy: AccessPolicy, party: Seq<char>, now: i64) -> bool {
    match policy {
        AccessPolicy::All(attrs) => all_hold(attrs@, party, now),
        AccessPolicy::Any(attrs) => any_holds(attrs@, party, now),
        AccessPolicy::AtLeast(n, attrs) => holding_count(attrs@, party, now) >= n,
        AccessPolicy::Custom(_) => true,
    }
}

/// Every one of `attrs` holds.
pub open spec fn all_hold(attrs: Seq<Attribute>, party: Seq<char>, now: i64) -> bool {
    forall|i: int| 0 <= i < attrs.len() ==> attribute_holds(#[trigger] attrs[i], party, now)
}

/// Some one of `attrs` holds.
pub open spec fn any_holds(attrs: Seq<Attribute>, party: Seq<char>, now: i64) -> bool {
    exists|i: int| 0 <= i < attrs.len() && attribute_holds(#[trigger] attrs[i], party, now)
}

/// The permission an access type needs.
pub open spec fn required_permission(t: AccessType) -> Permission {
    match t {
        AccessType::Read => Permission::Read,
        AccessType::Decrypt => Permission::Decrypt,
        AccessType::Audit => Permission::Audit,
        AccessType::Share => Permission::Share,
    }
}

/// Whether `acl` lets `party` access the transaction in the way `t` at
/// `now`: the party is listed, the time window and access budget allow it,
/// the attribute policy admits it, and the needed permission is granted.
pub open spec fn access_allowed(acl: AccessControlList, party: Seq<char>, t: AccessType, now: i64) -> bool {
    &&& views(acl.authorized_parties@).contains(party)
    &&& match acl.time_based_access {
        Some(tb) => {
            &&& tb.access_from_ms <= now <= tb.access_until_ms
            &&& match tb.max_accesses {
                Some(m) => tb.current_accesses < m,
                None => true,
            }
        },
        None => true,
    }
    &&& match acl.attribute_based_access {
        Some(ab) => policy_admits(ab.access_policy, party, now),
        None => true,
    }
    &&& acl.permissions@.contains(required_permission(t))
}

/// Each kind of access needs its own permission in the list: reading needs
/// Read, decrypting Decrypt, auditing Audit and sharing Share; a list
/// without a permission never allows that kind of access.
pub proof fn lemma_access_needs_its_permission(acl: AccessControlList, party: Seq<char>, now: i64)
    ensures
        access_allowed(acl, party, AccessType::Read, now) ==> acl.permissions@.contains(Permission::Read),
        access_allowed(acl, party, AccessType::Decrypt, now) ==> acl.permissions@.contains(Permission::Decrypt),
        access_allowed(acl, party, AccessType::Audit, now) ==> acl.permissions@.contains(Permission::Audit),
        access_allowed(acl, party, AccessType::Share, now) ==> acl.permissions@.contains(Permission::Share),
        !acl.permissions@.contains(Permission::Audit) ==> !access_allowed(acl, party, AccessType::Audit, now),
{
}

/// Whether `attribute` holds of `party` at `now`.
pub fn check_attribute(attribute: &Attribute, party: &str, now_ms: i64) -> (b: bool)
    ensures
        b == attribute_holds(*attribute, party@, now_ms),
{
    match attribute {
        Attribute::IsSender => true,
        Attribute::IsRecipient => true,
        Attribute::IsRegulator => str_starts_with(party, "regulator_"),
        Attribute::IsAuditor => str_starts_with(party, "auditor_"),
        Attribute::HasRole(role) => str_contains(party, role.as_str()),
        Attribute::HasPermission(p) => str_contains(party, p.as_str()),
        Attribute::AmountThreshold(_) => true,
        Attribute::GeographicRegion(_) => true,
        Attribute::TimeBased(from, until) => *from <= now_ms && now_ms <= *until,
    }
}

/// Whether `policy` admits `party` at `now`.
pub fn check_attribute_policy(attribute_based: &AttributeBasedAccess, party: &str, now_ms: i64) -> (b: bool)
    ensures
        b == policy_admits(attribute_based.access_policy, party@, now_ms),
{
    match &attribute_based.access_policy {
        AccessPolicy::All(attrs) => {
            let mut i: usize = 0;
            while i < attrs.len()
                invariant
                    i <= attrs@.len(),
                    attribute_based.access_policy == AccessPolicy::All(*attrs),
                    forall|j: int| 0 <= j < i ==> attribute_holds(#[trigger] attrs@[j], party@, now_ms),
                decreases attrs@.len() - i,
            {
                if !check_attribute(&attrs[i], party, now_ms) {
                    assert(!attribute_holds(attrs@[i as int], party@, now_ms));
                    return false;
                }
                i = i + 1;
            }
            true
        },
        AccessPolicy::Any(attrs) => {
            let mut i: usize = 0;
            while i < attrs.len()
                invariant
                    i <= attrs@.len(),
                    attribute_based.access_policy == AccessPolicy::Any(*attrs),
                    forall|j: int| 0 <= j < i ==> !attribute_holds(#[trigger] attrs@[j], party@, now_ms),
                decreases attrs@.len() - i,
            {
                if check_attribute(&attrs[i], party, now_ms) {
                    assert(attribute_holds(attrs@[i as int], party@, now_ms));
                    return true;
                }
                i = i + 1;
            }
            false
        },
        AccessPolicy::AtLeast(n, attrs) => {
            let mut count: usize = 0;
            let mut i: usize = 0;
            while i < attrs.len()
                invariant
                    i <= attrs@.len(),
                    count == holding_count(attrs@.take(i as int), party@, now_ms),
                    count <= i,
                decreases attrs@.len() - i,
            {
                proof {
                    assert(attrs@.take(i + 1).drop_last() =~= attrs@.take(i as int));
                }
                if check_attribute(&attrs[i], party, now_ms) {
                    count = count + 1;
                }
                i = i + 1;
            }
            assert(attrs@.take(i as int) =~= attrs@);
            count >= *n
        },
        AccessPolicy::Custom(_) => true,
    }
}

/// Whether `party` is in `parties`.
fn contains_party(parties: &Vec<String>, party: &str) -> (b: bool)
    ensures
        b == views(parties@).contains(party@),
{
    let p = owned(party);
    crate::strvec::contains_string(parties, &p)
}

/// Whether `p` is in `perms`.
fn contains_permission(perms: &Vec<Permission>, p: Permission) -> (b: bool)
    ensures
        b == perms@.contains(p),
{
    let mut i: usize = 0;
    while i < perms.len()
        invariant
            i <= perms@.len(),
            forall|j: int| 0 <= j < i ==> perms@[j] != p,
        decreases perms@.len() - i,
    {
        if perms[i] == p {
            return true;
        }
        i = i + 1;
    }
    false
}

/// Whether the access control list of `tx` lets `party` access it in the
/// way `access_type` at `now`.
pub fn check_access_permissions(tx: &ConfidentialTransaction, party: &str, access_type: AccessType, now_ms: i64) -> (b: bool)
    ensures
        b == access_allowed(tx.access_control, party@, access_type, now_ms),
{
    let acl = &tx.access_control;
    if !contains_party(&acl.authorized_parties, party) {
        return false;
    }
    match &acl.time_based_access {
        Some(tb) => {
            if now_ms < tb.access_from_ms || now_ms > tb.access_until_ms {
                return false;
            }
            match tb.max_accesses {
                Some(m) => {
                    if tb.current_accesses >= m {
                        return false;
                    }
                },
                None => {},
            }
        },
        None => {},
    }
    match &acl.attribute_based_access {
        Some(ab) => {
            if !check_attribute_policy(ab, party, now_ms) {
                return false;
            }
        },
        None => {},
    }
    let needed = match access_type {
        AccessType::Read => Permission::Read,
        AccessType::Decrypt => Permission::Decrypt,
        AccessType::Audit => Permission::Audit,
        AccessType::Share => Permission::Share,
    };
    contains_permission(&acl.permissions, needed)
}

} // verus!

verus! {

// ---------------------------------------------------------------------------
// Cryptographic primitives

/// The SHA-256 digest of `data`.
pub uninterp spec fn sha256(data: Seq<u8>) -> Seq<u8>;

/// AES-256-GCM sealing of `plaintext` under `key` and `nonce` (ciphertext
/// followed by the 16-byte tag).
pub uninterp spec fn gcm_seal(key: Seq<u8>, nonce: Seq<u8>, plaintext: Seq<u8>) -> Seq<u8>;

/// AES-256-GCM opening of `sealed` under `key` and `nonce`, or `None` when
/// it does not authenticate.
pub uninterp spec fn gcm_open(key: Seq<u8>, nonce: Seq<u8>, sealed: Seq<u8>) -> Option<Seq<u8>>;

/// SHA-256 of `data` with sha2's `Sha256`. Claimed: the 32-byte digest.
#[verifier::external_body]
pub(crate) fn sha256_digest(data: &[u8]) -> (r: [u8; 32])
    ensures
        r@ == sha256(data@),
{
    let out = sha2::Sha256::digest(data);
    let mut r = [0u8; 32];
    r.copy_from_slice(&out);
    r
}

/// Encrypts with aes-gcm's `Aes256Gcm::encrypt`, no associated data.
/// Claimed (as aes-gcm documents and its source shows): it fails only for a
/// plaintext over 2^36 bytes; the output is the ciphertext (as long as the
/// plaintext) followed by the 16-byte tag, and opening it with the same key
/// and nonce gives the plaintext back.
#[verifier::external_body]
pub(crate) fn aes_gcm_encrypt(key: &[u8; 32], nonce: &[u8; 12], plaintext: &[u8]) -> (r: Option<Vec<u8>>)
    ensures
        plaintext@.len() <= 0x10_0000_0000 ==> r is Some,
        r matches Some(c) ==> c@ == gcm_seal(key@, nonce@, plaintext@) && c@.len() == plaintext@.len() + 16
            && gcm_open(key@, nonce@, c@) == Some(plaintext@),
{
    let cipher = aes_gcm::Aes256Gcm::new_from_slice(key).ok()?;
    cipher.encrypt(aes_gcm::Nonce::from_slice(nonce), plaintext).ok()
}

/// Decrypts with aes-gcm's `Aes256Gcm::decrypt`, no associated data.
/// Claimed: the result is the opening of `sealed` under the key and nonce,
/// `None` when it does not authenticate.
#[verifier::external_body]
pub(crate) fn aes_gcm_decrypt(key: &[u8], nonce: &[u8], sealed: &[u8]) -> (r: Option<Vec<u8>>)
    requires
        key@.len() == 32,
        nonce@.len() == 12,
    ensures
        r matches Some(p) ==> gcm_open(key@, nonce@, sealed@) == Some(p@),
        r is None ==> gcm_open(key@, nonce@, sealed@) is None,
{
    let cipher = aes_gcm::Aes256Gcm::new_from_slice(key).ok()?;
    cipher.decrypt(aes_gcm::Nonce::from_slice(nonce), sealed).ok()
}

/// Fills a buffer from rand's thread RNG (`RngCore::fill_bytes`). Nothing
/// is claimed of the bytes.
#[verifier::external_body]
pub(crate) fn random_key() -> [u8; 32] {
    let mut k = [0u8; 32];
    rand::thread_rng().fill_bytes(&mut k);
    k
}

/// Fills a buffer from rand's thread RNG (`RngCore::fill_bytes`). Nothing
/// is claimed of the bytes.
#[verifier::external_body]
pub(crate) fn random_nonce() -> [u8; 12] {
    let mut n = [0u8; 12];
    rand::thread_rng().fill_bytes(&mut n);
    n
}

/// The SHA-256 hash of `data`.
pub fn calculate_hash(data: &[u8]) -> (h: TransactionHash)
    ensures
        h@ == sha256(data@),
{
    sha256_digest(data)
}

/// Copies an array into a vector.
pub(crate) fn bytes_of<const N: usize>(a: &[u8; N]) -> (v: Vec<u8>)
    ensures
        v@ == a@,
{
    let mut v: Vec<u8> = Vec::new();
    let mut i: usize = 0;
    while i < N
        invariant
            i <= N,
            a@.len() == N,
            v@ == a@.take(i as int),
        decreases N - i,
    {
        v.push(a[i]);
        i = i + 1;
        assert(v@ =~= a@.take(i as int));
    }
    assert(a@.take(N as int) =~= a@);
    v
}

/// Encrypted payload `e` holds `plaintext` sealed under its key and nonce,
/// split into ciphertext and the trailing 16-byte tag.
pub open spec fn seals(e: EncryptedTransactionData, plaintext: Seq<u8>) -> bool {
    &&& e.key_encapsulation@.len() == 32
    &&& e.nonce@.len() == 12
    &&& e.tag@.len() == 16
    &&& e.ciphertext@ + e.tag@ == gcm_seal(e.key_encapsulation@, e.nonce@, plaintext)
    &&& gcm_open(e.key_encapsulation@, e.nonce@, e.ciphertext@ + e.tag@) == Some(plaintext)
}

/// Encrypts a serialized payload under a fresh random key and nonce; the
/// key is kept as the recipient's key encapsulation.
pub fn encrypt_transaction_data(data_bytes: &[u8], recipient_address: &str, now_ms: i64) -> (r: Result<
    EncryptedTransactionData,
    ConfidentialError,
>)
    ensures
        match r {
            Ok(e) => seals(e, data_bytes@) && e.encrypted_at_ms == now_ms,
            Err(err) => err == ConfidentialError::EncryptionFailed && data_bytes@.len() > 0x10_0000_0000,
        },
{
    let key = random_key();
    let nonce = random_nonce();
    let sealed = match aes_gcm_encrypt(&key, &nonce, data_bytes) {
        Some(c) => c,
        None => return Err(ConfidentialError::EncryptionFailed),
    };
    let data_len = sealed.len() - 16;
    let ciphertext = vstd::slice::slice_to_vec(vstd::slice::slice_subrange(sealed.as_slice(), 0, data_len));
    let tag = vstd::slice::slice_to_vec(vstd::slice::slice_subrange(sealed.as_slice(), data_len, sealed.len()));
    assert(ciphertext@ + tag@ =~= sealed@);
    Ok(EncryptedTransactionData {
        ciphertext,
        key_encapsulation: bytes_of(&key),
        nonce: bytes_of(&nonce),
        tag,
        encrypted_at_ms: now_ms,
    })
}

/// Decrypts an encrypted payload with the key it carries.
pub fn decrypt_data(encrypted: &EncryptedTransactionData) -> (r: Result<Vec<u8>, ConfidentialError>)
    requires
        encrypted.nonce@.len() == 12,
    ensures
        encrypted.key_encapsulation@.len() != 32 ==> r == Err::<Vec<u8>, ConfidentialError>(ConfidentialError::InvalidKey),
        encrypted.key_encapsulation@.len() == 32 ==> match gcm_open(
            encrypted.key_encapsulation@,
            encrypted.nonce@,
            encrypted.ciphertext@ + encrypted.tag@,
        ) {
            Some(p) => r matches Ok(v) && v@ == p,
            None => r == Err::<Vec<u8>, ConfidentialError>(ConfidentialError::DecryptionFailed),
        },
{
    let mut sealed = vstd::slice::slice_to_vec(encrypted.ciphertext.as_slice());
    let mut i: usize = 0;
    let ghost c = sealed@;
    while i < encrypted.tag.len()
        invariant
            i <= encrypted.tag@.len(),
            sealed@ == c + encrypted.tag@.take(i as int),
        decreases encrypted.tag@.len() - i,
    {
        sealed.push(encrypted.tag[i]);
        i = i + 1;
        assert(sealed@ =~= c + encrypted.tag@.take(i as int));
    }
    assert(encrypted.tag@.take(i as int) =~= encrypted.tag@);
    if encrypted.key_encapsulation.len() != 32 {
        return Err(ConfidentialError::InvalidKey);
    }
    match aes_gcm_decrypt(encrypted.key_encapsulation.as_slice(), encrypted.nonce.as_slice(), sealed.as_slice()) {
        Some(p) => Ok(p),
        None => Err(ConfidentialError::DecryptionFailed),
    }
}

// ---------------------------------------------------------------------------
// Access control lists

/// The access control list made for a payment: sender and recipient (and
/// the global regulator for regulated payments) may read and decrypt (and
/// the regulator audit); a one-year window with 1000 accesses when
/// time-based access is on; "sender or recipient" attributes when
/// attribute-based access is on; expiry after one year.
pub open spec fn standard_acl(
    acl: AccessControlList,
    sender: Seq<char>,
    recipient: Seq<char>,
    level: PrivacyLevel,
    settings: PrivacySettings,
    now: i64,
) -> bool {
    let regulated = level == PrivacyLevel::Regulated;
    &&& views(acl.authorized_parties@) == if regulated {
        seq![sender, recipient, "regulator_global"@]
    } else {
        seq![sender, recipient]
    }
    &&& acl.permissions@ == if regulated {
        seq![Permission::Read, Permission::Decrypt, Permission::Audit]
    } else {
        seq![Permission::Read, Permission::Decrypt]
    }
    &&& acl.expires_at_ms == Some((now + YEAR_MS) as i64)
    &&& match acl.time_based_access {
        Some(tb) => settings.enable_time_based_access && tb.access_from_ms == now && tb.access_until_ms == now
            + YEAR_MS && tb.max_accesses == Some(1000u32) && tb.current_accesses == 0 && tb.access_history@.len() == 0,
        None => !settings.enable_time_based_access,
    }
    &&& match acl.attribute_based_access {
        Some(ab) => {
            &&& settings.enable_attribute_based_access
            &&& ab.required_attributes@ == seq![Attribute::IsSender, Attribute::IsRecipient]
            &&& views(ab.attribute_authorities@) == seq!["ippan_authority"@]
            &&& ab.access_policy matches AccessPolicy::Any(attrs) && attrs@ == seq![Attribute::IsSender, Attribute::IsRecipient]
        },
        None => !settings.enable_attribute_based_access,
    }
}

/// The records of a list of accesses: (time, party, type).
pub open spec fn access_entries(log: Seq<AccessRecord>) -> Seq<(i64, Seq<char>, AccessType)> {
    log.map_values(|r: AccessRecord| (r.timestamp_ms, r.accessing_party@, r.access_type))
}

/// Keeps keys, access logs and privacy settings.
pub struct ConfidentialTransactionManager {
    keys: Vec<(String, Vec<u8>)>,
    access_logs: Vec<AccessRecord>,
    privacy_settings: PrivacySettings,
}

impl ConfidentialTransactionManager {
    pub closed spec fn settings(&self) -> PrivacySettings {
        self.privacy_settings
    }

    /// The accesses logged so far, oldest first.
    pub closed spec fn log(&self) -> Seq<(i64, Seq<char>, AccessType)> {
        access_entries(self.access_logs@)
    }

    /// Confidential by default; audit logging, access control, time and
    /// attribute checks on; 5 attempts per hour.
    pub fn new() -> (m: Self)
        ensures
            m.settings() == (PrivacySettings {
                default_privacy_level: PrivacyLevel::Confidential,
                enable_audit_logging: true,
                enable_access_control: true,
                enable_time_based_access: true,
                enable_attribute_based_access: true,
                max_access_attempts: 5,
                access_attempt_window: 3600,
            }),
            m.log().len() == 0,
    {
        let m = ConfidentialTransactionManager {
            keys: Vec::new(),
            access_logs: Vec::new(),
            privacy_settings: PrivacySettings {
                default_privacy_level: PrivacyLevel::Confidential,
                enable_audit_logging: true,
                enable_access_control: true,
                enable_time_based_access: true,
                enable_attribute_based_access: true,
                max_access_attempts: 5,
                access_attempt_window: 3600,
            },
        };
        assert(access_entries(m.access_logs@) =~= Seq::empty());
        m
    }

    /// The access control list for a payment from `sender` to `recipient`.
    pub fn create_access_control_list(&self, sender: &str, recipient: &str, privacy_level: PrivacyLevel, now_ms: i64) -> (acl: AccessControlList)
        requires
            now_ms <= i64::MAX - YEAR_MS,
        ensures
            standard_acl(acl, sender@, recipient@, privacy_level, self.settings(), now_ms),
    {
        let mut authorized_parties: Vec<String> = Vec::new();
        authorized_parties.push(owned(sender));
        authorized_parties.push(owned(recipient));
        let mut permissions: Vec<Permission> = Vec::new();
        permissions.push(Permission::Read);
        permissions.push(Permission::Decrypt);
        let regulated = match privacy_level {
            PrivacyLevel::Regulated => true,
            _ => false,
        };
        if regulated {
            authorized_parties.push(owned("regulator_global"));
            permissions.push(Permission::Audit);
        }
        let time_based_access = if self.privacy_settings.enable_time_based_access {
            Some(TimeBasedAccess {
                access_from_ms: now_ms,
                access_until_ms: now_ms + YEAR_MS,
                max_accesses: Some(1000),
                current_accesses: 0,
                access_history: Vec::new(),
            })
        } else {
            None
        };
        let attribute_based_access = if self.privacy_settings.enable_attribute_based_access {
            let mut required: Vec<Attribute> = Vec::new();
            required.push(Attribute::IsSender);
            required.push(Attribute::IsRecipient);
            let mut any: Vec<Attribute> = Vec::new();
            any.push(Attribute::IsSender);
            any.push(Attribute::IsRecipient);
            let mut authorities: Vec<String> = Vec::new();
            authorities.push(owned("ippan_authority"));
            assert(required@ =~= seq![Attribute::IsSender, Attribute::IsRecipient]);
            assert(any@ =~= seq![Attribute::IsSender, Attribute::IsRecipient]);
            assert(views(authorities@) =~= seq!["ippan_authority"@]);
            Some(AttributeBasedAccess {
                required_attributes: required,
                attribute_authorities: authorities,
                access_policy: AccessPolicy::Any(any),
            })
        } else {
            None
        };
        proof {
            if regulated {
                assert(views(authorized_parties@) =~= seq![sender@, recipient@, "regulator_global"@]);
                assert(permissions@ =~= seq![Permission::Read, Permission::Decrypt, Permission::Audit]);
            } else {
                assert(views(authorized_parties@) =~= seq![sender@, recipient@]);
                assert(permissions@ =~= seq![Permission::Read, Permission::Decrypt]);
            }
        }
        AccessControlList {
            authorized_parties,
            permissions,
            expires_at_ms: Some(now_ms + YEAR_MS),
            time_based_access,
            attribute_based_access,
        }
    }

    /// Records an access to `tx` (when audit logging is on): appends it to
    /// the log and counts it against the transaction's access budget.
    pub fn log_access_attempt(&mut self, tx: &mut ConfidentialTransaction, party: &str, access_type: AccessType, now_ms: i64)
        requires
            old(tx).access_control.time_based_access matches Some(tb) ==> tb.current_accesses < u32::MAX,
        ensures
            final(self).settings() == old(self).settings(),
            old(self).settings().enable_audit_logging ==> {
                &&& final(self).log() == old(self).log().push((now_ms, party@, access_type))
                &&& match old(tx).access_control.time_based_access {
                    Some(tb) => final(tx).access_control.time_based_access matches Some(nb)
                        && nb.current_accesses == tb.current_accesses + 1
                        && nb.access_from_ms == tb.access_from_ms && nb.access_until_ms == tb.access_until_ms
                        && nb.max_accesses == tb.max_accesses,
                    None => final(tx).access_control.time_based_access is None,
                }
            },
            !old(self).settings().enable_audit_logging ==> final(self).log() == old(self).log()
                && final(tx).access_control.time_based_access == old(tx).access_control.time_based_access,
            final(tx).hash == old(tx).hash,
            final(tx).encrypted_data == old(tx).encrypted_data,
            final(tx).public_metadata == old(tx).public_metadata,
            final(tx).validity_proof == old(tx).validity_proof,
            final(tx).signature == old(tx).signature,
            final(tx).access_control.expires_at_ms == old(tx).access_control.expires_at_ms,
            final(tx).access_control.authorized_parties == old(tx).access_control.authorized_parties,
            final(tx).access_control.permissions == old(tx).access_control.permissions,
            final(tx).access_control.attribute_based_access == old(tx).access_control.attribute_based_access,
    {
        if !self.privacy_settings.enable_audit_logging {
            return;
        }
        let ghost before = self.access_logs@;
        self.access_logs.push(AccessRecord {
            timestamp_ms: now_ms,
            accessing_party: owned(party),
            access_type,
            ip_address: None,
            user_agent: None,
        });
        assert(access_entries(self.access_logs@) =~= access_entries(before).push((now_ms, party@, access_type)));
        match &mut tx.access_control.time_based_access {
            Some(tb) => {
                tb.current_accesses = tb.current_accesses + 1;
            },
            None => {},
        }
    }

    /// Checks that `party` may access `tx` in the way `access_type` at
    /// `now`, logs the access, and decrypts the payload.
    pub fn decrypt_transaction_data(
        &mut self,
        tx: &mut ConfidentialTransaction,
        party: &str,
        access_type: AccessType,
        now_ms: i64,
    ) -> (r: Result<Vec<u8>, ConfidentialError>)
        requires
            old(tx).encrypted_data.nonce@.len() == 12,
            old(tx).access_control.time_based_access matches Some(tb) ==> tb.current_accesses < u32::MAX,
        ensures
            !access_allowed(old(tx).access_control, party@, access_type, now_ms) ==> r
                == Err::<Vec<u8>, ConfidentialError>(ConfidentialError::AccessDenied) && final(self).log() == old(self).log(),
            access_allowed(old(tx).access_control, party@, access_type, now_ms) ==> {
                let e = old(tx).encrypted_data;
                &&& (old(self).settings().enable_audit_logging ==> final(self).log() == old(self).log().push((now_ms, party@, access_type)))
                &&& (e.key_encapsulation@.len() != 32 ==> r == Err::<Vec<u8>, ConfidentialError>(ConfidentialError::InvalidKey))
                &&& (e.key_encapsulation@.len() == 32 ==> match gcm_open(e.key_encapsulation@, e.nonce@, e.ciphertext@ + e.tag@) {
                    Some(p) => r matches Ok(v) && v@ == p,
                    None => r == Err::<Vec<u8>, ConfidentialError>(ConfidentialError::DecryptionFailed),
                })
            },
            final(self).settings() == old(self).settings(),
    {
        if !check_access_permissions(tx, party, access_type, now_ms) {
            return Err(ConfidentialError::AccessDenied);
        }
        self.log_access_attempt(tx, party, access_type, now_ms);
        decrypt_data(&tx.encrypted_data)
    }
}

} // verus!

verus! {

/// Whole seconds of `ms`, rounded down (as chrono's `timestamp` gives them).
pub fn whole_seconds(ms: i64) -> (s: i64)
    ensures
        s == seconds_of(ms),
{
    if ms >= 0 {
        (ms as u64 / 1000) as i64
    } else {
        let m = (-(ms + 1)) as u64;
        -((m / 1000) as i64) - 1
    }
}

/// The decimal renderings of `bs`, separated by ", ".
pub open spec fn byte_list(bs: Seq<u8>) -> Seq<char>
    decreases bs.len(),
{
    if bs.len() == 0 {
        Seq::empty()
    } else if bs.len() == 1 {
        decimal(bs[0] as nat)
    } else {
        byte_list(bs.drop_last()) + ", "@ + decimal(bs.last() as nat)
    }
}

/// `bs` as `{:?}` prints a byte array: "[1, 2, 3]".
pub open spec fn debug_bytes(bs: Seq<u8>) -> Seq<char> {
    "["@ + byte_list(bs) + "]"@
}

/// Renders bytes as `{:?}` does.
pub fn debug_byte_string(bs: &[u8]) -> (r: String)
    ensures
        r@ == debug_bytes(bs@),
{
    let mut body = owned("");
    let mut i: usize = 0;
    proof {
        reveal_strlit("");
        assert(bs@.take(0) =~= Seq::<u8>::empty());
    }
    while i < bs.len()
        invariant
            i <= bs@.len(),
            body@ == byte_list(bs@.take(i as int)),
        decreases bs@.len() - i,
    {
        let d = u64_to_string(bs[i] as u64);
        proof {
            assert(bs@.take(i + 1).drop_last() =~= bs@.take(i as int));
        }
        if i == 0 {
            body = d;
            proof {
                reveal_strlit("");
            }
        } else {
            let b2 = concat(body.as_str(), ", ");
            body = concat(b2.as_str(), d.as_str());
        }
        i = i + 1;
    }
    proof {
        assert(bs@.take(i as int) =~= bs@);
    }
    let a = concat("[", body.as_str());
    concat(a.as_str(), "]")
}

/// The text hashed to name a payment.
pub open spec fn payment_hash_text(sender: Seq<char>, recipient: Seq<char>, amount: u64, fee: u64, now: i64) -> Seq<char> {
    sender + ":"@ + recipient + ":"@ + decimal(amount as nat) + ":"@ + decimal(fee as nat) + ":"@ + signed_decimal(seconds_of(now))
}

/// The proof text of a payment: its hash and its time in seconds.
pub open spec fn proof_text(hash: Seq<u8>, now: i64) -> Seq<char> {
    "valid_proof_"@ + debug_bytes(hash) + "_"@ + signed_decimal(seconds_of(now))
}

impl ConfidentialTransactionManager {
    /// The payload of a payment.
    pub fn payment_data(
        &self,
        sender_address: &str,
        recipient_address: &str,
        amount: u64,
        memo: Option<String>,
        now_ms: i64,
    ) -> (d: PaymentTransactionData)
        ensures
            d.sender_address@ == sender_address@,
            d.recipient_address@ == recipient_address@,
            d.amount == amount,
            d.memo == memo,
            d.timestamp_ms == now_ms,
    {
        PaymentTransactionData {
            sender_address: owned(sender_address),
            recipient_address: owned(recipient_address),
            amount,
            memo,
            timestamp_ms: now_ms,
        }
    }

    /// The validity proof of a payment with hash `hash` made at `now`.
    pub fn generate_validity_proof(&self, hash: &TransactionHash, now_ms: i64) -> (p: ZKProof)
        ensures
            p.proof_type == ZKProofType::RangeProof,
            p.proof_data@ == vstd::utf8::encode_utf8(proof_text(hash@, now_ms)),
            p.public_inputs@.len() == 1 && p.public_inputs@[0]@ == hash@,
            p.verification_key@ == seq![1u8, 2u8, 3u8, 4u8],
            p.generated_at_ms == now_ms,
    {
        let h = debug_byte_string(hash);
        let secs = i64_to_string(whole_seconds(now_ms));
        let a = concat("valid_proof_", h.as_str());
        let b = concat(a.as_str(), "_");
        let text = concat(b.as_str(), secs.as_str());
        let proof_data = text.as_str().as_bytes_vec();
        let mut public_inputs: Vec<Vec<u8>> = Vec::new();
        public_inputs.push(bytes_of(hash));
        let mut verification_key: Vec<u8> = Vec::new();
        verification_key.push(1);
        verification_key.push(2);
        verification_key.push(3);
        verification_key.push(4);
        assert(verification_key@ =~= seq![1u8, 2u8, 3u8, 4u8]);
        ZKProof { proof_type: ZKProofType::RangeProof, proof_data, public_inputs, verification_key, generated_at_ms: now_ms }
    }

    /// Assembles a confidential payment from its payload `data` and the
    /// encryption `encrypted` of its serialized form: the hash of sender,
    /// recipient, amount, fee and time; public metadata; the standard access
    /// control list; and the validity proof.
    pub fn create_confidential_payment(
        &mut self,
        data: &PaymentTransactionData,
        fee: u64,
        privacy_level: PrivacyLevel,
        now_ms: i64,
        encrypted: EncryptedTransactionData,
    ) -> (tx: ConfidentialTransaction)
        requires
            now_ms <= i64::MAX - YEAR_MS,
        ensures
            tx.hash@ == sha256(vstd::utf8::encode_utf8(payment_hash_text(
                data.sender_address@,
                data.recipient_address@,
                data.amount,
                fee,
                now_ms,
            ))),
            tx.encrypted_data == encrypted,
            tx.public_metadata.transaction_type == TransactionType::Payment,
            tx.public_metadata.sender_address@ == data.sender_address@,
            tx.public_metadata.recipient_address@ == data.recipient_address@,
            tx.public_metadata.timestamp_ms == now_ms,
            tx.public_metadata.fee == fee,
            tx.public_metadata.status == TransactionStatus::Pending,
            tx.public_metadata.privacy_level == privacy_level,
            standard_acl(tx.access_control, data.sender_address@, data.recipient_address@, privacy_level, old(self).settings(), now_ms),
            tx.validity_proof.proof_type == ZKProofType::RangeProof,
            tx.validity_proof.proof_data@ == vstd::utf8::encode_utf8(proof_text(tx.hash@, now_ms)),
            tx.signature is None,
            final(self).settings() == old(self).settings(),
            final(self).log() == old(self).log(),
    {
        let amount = u64_to_string(data.amount);
        let fee_s = u64_to_string(fee);
        let secs = i64_to_string(whole_seconds(now_ms));
        let t1 = concat(data.sender_address.as_str(), ":");
        let t2 = concat(t1.as_str(), data.recipient_address.as_str());
        let t3 = concat(t2.as_str(), ":");
        let t4 = concat(t3.as_str(), amount.as_str());
        let t5 = concat(t4.as_str(), ":");
        let t6 = concat(t5.as_str(), fee_s.as_str());
        let t7 = concat(t6.as_str(), ":");
        let text = concat(t7.as_str(), secs.as_str());
        let hash = calculate_hash(text.as_str().as_bytes());
        let public_metadata = PublicMetadata {
            transaction_type: TransactionType::Payment,
            sender_address: data.sender_address.clone(),
            recipient_address: data.recipient_address.clone(),
            timestamp_ms: now_ms,
            fee,
            status: TransactionStatus::Pending,
            privacy_level,
        };
        let access_control = self.create_access_control_list(
            data.sender_address.as_str(),
            data.recipient_address.as_str(),
            privacy_level,
            now_ms,
        );
        let validity_proof = self.generate_validity_proof(&hash, now_ms);
        ConfidentialTransaction {
            hash,
            encrypted_data: encrypted,
            public_metadata,
            access_control,
            validity_proof,
            signature: None,
        }
    }
}

} // verus!
