//! Key management around the node's key store: policies, the rotation
//! schedule, an audit log bounded in size, and encrypted backups sealed with
//! a master key (AES-256-GCM, the nonce in front).

use vstd::prelude::*;
use crate::privacy::{gcm_seal, gcm_open, aes_gcm_encrypt, aes_gcm_decrypt, random_key, random_nonce, bytes_of};
use crate::text::owned;

verus! {

/// When keys are checked for rotation; `check_interval` is in seconds and
/// `last_check_secs` in seconds since the Unix epoch.
#[derive(Debug, Clone, Copy)]
pub struct KeyRotationScheduler {
    pub enabled: bool,
    pub check_interval: u64,
    pub last_check_secs: u64,
}

/// Rules keys must meet.
#[derive(Debug, Clone, Copy)]
pub struct SecurityPolicies {
    pub min_key_strength: u32,
    pub max_key_age_days: u32,
    pub max_usage_per_key: u64,
    pub require_encryption: bool,
    pub require_backup: bool,
    pub require_audit_logging: bool,
}

/// Kinds of key event.
#[derive(Debug, Clone, Copy, PartialEq, Eq, Structural)]
pub enum KeyAuditEventType {
    KeyGenerated,
    KeyRotated,
    KeyDeleted,
    KeyExported,
    KeyImported,
    KeyUsed,
    KeyEncrypted,
    KeyDecrypted,
    PolicyViolation,
    SecurityAlert,
}

/// One key event; `timestamp_secs` is in seconds since the Unix epoch.
#[derive(Debug)]
pub struct KeyAuditEvent {
    pub timestamp_secs: u64,
    pub event_type: KeyAuditEventType,
    pub key_address: String,
    pub description: String,
    pub actor: Option<String>,
    pub success: bool,
}

/// Counts of key management.
#[derive(Debug, Clone, Copy)]
pub struct KeyManagementStats {
    pub total_keys: usize,
    pub active_keys: usize,
    pub expired_keys: usize,
    pub keys_needing_rotation: usize,
    pub total_audit_events: usize,
    pub recent_audit_events: usize,
    pub security_violations: usize,
    pub rotation_enabled: bool,
    pub encryption_enabled: bool,
}


/// The most audit events kept; past it the oldest thousand go.
pub open spec fn audit_capacity() -> nat {
    10000
}

/// `log` after recording `e`: appended, then the oldest thousand dropped
/// when the log is over capacity.
pub open spec fn logged(log: Seq<KeyAuditEvent>, e: KeyAuditEvent) -> Seq<KeyAuditEvent> {
    let l = log.push(e);
    if l.len() > audit_capacity() { l.subrange(1000, l.len() as int) } else { l }
}

/// Whether an event reports a policy violation or a security alert.
pub open spec fn is_violation(e: KeyAuditEvent) -> bool {
    e.event_type == KeyAuditEventType::PolicyViolation || e.event_type == KeyAuditEventType::SecurityAlert
}

/// The number of violations and alerts in `log`.
pub open spec fn violations(log: Seq<KeyAuditEvent>) -> nat
    decreases log.len(),
{
    if log.len() == 0 {
        0
    } else {
        violations(log.drop_last()) + if is_violation(log.last()) { 1nat } else { 0nat }
    }
}

/// Why a key operation was refused.
#[derive(Debug, Clone, PartialEq, Eq)]
pub enum KeyError {
    Security(String),
    Crypto(String),
}

/// Policies, rotation schedule, audit log and master key of the node's key
/// store. Seconds are since the Unix epoch.
pub struct KeyManagementService {
    master_key: Option<[u8; 32]>,
    rotation_scheduler: KeyRotationScheduler,
    audit_log: Vec<KeyAuditEvent>,
    security_policies: SecurityPolicies,
}

impl KeyManagementService {
    /// The master key, once set.
    pub closed spec fn master(&self) -> Option<[u8; 32]> {
        self.master_key
    }

    /// The rotation schedule.
    pub closed spec fn scheduler(&self) -> KeyRotationScheduler {
        self.rotation_scheduler
    }

    /// The audit log, oldest first.
    pub closed spec fn log(&self) -> Seq<KeyAuditEvent> {
        self.audit_log@
    }

    /// The policies.
    pub closed spec fn policies(&self) -> SecurityPolicies {
        self.security_policies
    }

    /// The log never holds more than its capacity.
    pub open spec fn wf(&self) -> bool {
        self.log().len() <= audit_capacity()
    }

    /// A service with no master key, hourly rotation checks from
    /// `now_secs`, an empty log, and keys of at least 256 bits, rotated after
    /// 90 days or 10000 uses, encrypted, backed up and audited.
    pub fn new(now_secs: u64) -> (s: Self)
        ensures
            s.wf(),
            s.master() is None,
            s.scheduler() == (KeyRotationScheduler { enabled: true, check_interval: 3600, last_check_secs: now_secs }),
            s.log().len() == 0,
            s.policies() == (SecurityPolicies {
                min_key_strength: 256,
                max_key_age_days: 90,
                max_usage_per_key: 10000,
                require_encryption: true,
                require_backup: true,
                require_audit_logging: true,
            }),
    {
        KeyManagementService {
            master_key: None,
            rotation_scheduler: KeyRotationScheduler { enabled: true, check_interval: 3600, last_check_secs: now_secs },
            audit_log: Vec::new(),
            security_policies: SecurityPolicies {
                min_key_strength: 256,
                max_key_age_days: 90,
                max_usage_per_key: 10000,
                require_encryption: true,
                require_backup: true,
                require_audit_logging: true,
            },
        }
    }

    /// Sets a random master key if none is set, and logs the start at
    /// `now_secs`.
    pub fn initialize(&mut self, now_secs: u64) -> (r: Result<(), KeyError>)
        requires
            old(self).wf(),
        ensures
            r is Ok,
            final(self).wf(),
            final(self).master() is Some,
            old(self).master() is Some ==> final(self).master() == old(self).master(),
            final(self).scheduler() == old(self).scheduler(),
            final(self).policies() == old(self).policies(),
            old(self).policies().require_audit_logging ==> exists|e: KeyAuditEvent| #![auto]
                e.timestamp_secs == now_secs && e.event_type == KeyAuditEventType::KeyGenerated
                && e.key_address@ == "system"@ && e.description@ == "Key management service initialized"@
                && (e.actor matches Some(a) && a@ == "system"@) && e.success
                && final(self).log() == logged(old(self).log(), e),
            !old(self).policies().require_audit_logging ==> final(self).log() == old(self).log(),
    {
        if self.master_key.is_none() {
            self.master_key = Some(random_key());
        }
        self.log_audit_event(
            KeyAuditEventType::KeyGenerated,
            owned("system"),
            owned("Key management service initialized"),
            Some(owned("system")),
            true,
            now_secs,
        );
        Ok(())
    }

    /// Whether a key may be generated under `label`: a master key must be
    /// set when encryption is required, and the label must not be empty.
    pub fn validate_key_generation_policies(&self, label: &str) -> (r: Result<(), KeyError>)
        ensures
            match r {
                Ok(_) => !(self.policies().require_encryption && self.master() is None) && label@.len() > 0,
                Err(KeyError::Security(m)) => if self.policies().require_encryption && self.master() is None {
                    m@ == "Encryption required but master key not set"@
                } else {
                    label@.len() == 0 && m@ == "Key label cannot be empty"@
                },
                Err(KeyError::Crypto(_)) => false,
            },
    {
        if self.security_policies.require_encryption && self.master_key.is_none() {
            return Err(KeyError::Security(owned("Encryption required but master key not set")));
        }
        if label.unicode_len() == 0 {
            return Err(KeyError::Security(owned("Key label cannot be empty")));
        }
        Ok(())
    }

    /// Whether automatic rotation is due at `now_secs`; when it is, the
    /// check time moves to `now_secs`. A clock that went back counts as no
    /// time passed.
    pub fn rotation_due(&mut self, now_secs: u64) -> (due: bool)
        ensures
            due == (old(self).scheduler().enabled
                && (if now_secs >= old(self).scheduler().last_check_secs { now_secs - old(self).scheduler().last_check_secs } else { 0 })
                    >= old(self).scheduler().check_interval),
            final(self).scheduler() == if due {
                KeyRotationScheduler { last_check_secs: now_secs, ..old(self).scheduler() }
            } else {
                old(self).scheduler()
            },
            final(self).log() == old(self).log(),
            final(self).master() == old(self).master(),
            final(self).policies() == old(self).policies(),
    {
        if !self.rotation_scheduler.enabled {
            return false;
        }
        let elapsed = if now_secs >= self.rotation_scheduler.last_check_secs {
            now_secs - self.rotation_scheduler.last_check_secs
        } else {
            0
        };
        if elapsed < self.rotation_scheduler.check_interval {
            return false;
        }
        self.rotation_scheduler.last_check_secs = now_secs;
        true
    }

    /// Records an event at `now_secs` when audit logging is required,
    /// dropping the oldest thousand events once the log is over capacity.
    pub fn log_audit_event(
        &mut self,
        event_type: KeyAuditEventType,
        key_address: String,
        description: String,
        actor: Option<String>,
        success: bool,
        now_secs: u64,
    )
        requires
            old(self).wf(),
        ensures
            final(self).wf(),
            final(self).master() == old(self).master(),
            final(self).scheduler() == old(self).scheduler(),
            final(self).policies() == old(self).policies(),
            final(self).log() == if old(self).policies().require_audit_logging {
                logged(old(self).log(), KeyAuditEvent {
                    timestamp_secs: now_secs,
                    event_type,
                    key_address,
                    description,
                    actor,
                    success,
                })
            } else {
                old(self).log()
            },
    {
        if self.security_policies.require_audit_logging {
            let e = KeyAuditEvent { timestamp_secs: now_secs, event_type, key_address, description, actor, success };
            self.audit_log.push(e);
            if self.audit_log.len() > 10000 {
                let ghost l = self.audit_log@;
                let mut kept: Vec<KeyAuditEvent> = Vec::new();
                let mut rest: Vec<KeyAuditEvent> = Vec::new();
                core::mem::swap(&mut rest, &mut self.audit_log);
                let mut i: usize = 0;
                for x in it: rest
                    invariant
                        it.seq() == l,
                        l.len() > 10000,
                        l.len() <= 10001,
                        i == it.index(),
                        i <= l.len(),
                        kept@ == if it.index() <= 1000 { Seq::<KeyAuditEvent>::empty() } else { l.subrange(1000, it.index() as int) },
                {
                    if i >= 1000 {
                        kept.push(x);
                        proof {
                            assert(kept@ =~= l.subrange(1000, it.index() as int + 1));
                        }
                    }
                    i = i + 1;
                }
                self.audit_log = kept;
            }
        }
    }

    /// The number of events logged.
    pub fn total_audit_events(&self) -> (n: usize)
        ensures
            n == self.log().len(),
    {
        self.audit_log.len()
    }

    /// The number of policy violations and security alerts logged.
    pub fn security_violations(&self) -> (n: usize)
        ensures
            n == violations(self.log()),
    {
        let mut n: usize = 0;
        let mut i: usize = 0;
        while i < self.audit_log.len()
            invariant
                i <= self.audit_log@.len(),
                n == violations(self.audit_log@.take(i as int)),
                n <= i,
            decreases self.audit_log@.len() - i,
        {
            proof {
                assert(self.audit_log@.take(i as int + 1).drop_last() =~= self.audit_log@.take(i as int));
            }
            let t = self.audit_log[i].event_type;
            if t == KeyAuditEventType::PolicyViolation || t == KeyAuditEventType::SecurityAlert {
                n = n + 1;
            }
            i = i + 1;
        }
        proof {
            assert(self.audit_log@.take(self.audit_log@.len() as int) =~= self.audit_log@);
        }
        n
    }

    /// Encrypts `backup_data` with the master key under a fresh random
    /// nonce: the nonce, then the sealed data. Refused without a master key.
    pub fn export_key_backup(&self, backup_data: &[u8]) -> (r: Result<Vec<u8>, KeyError>)
        ensures
            self.master() is None ==> (r matches Err(KeyError::Security(m)) && m@ == "Master key not available for encryption"@),
            r matches Ok(b) ==> self.master() is Some && opened_backup(self.master()->0, b@) == Some(backup_data@),
            self.master() is Some && backup_data@.len() <= 0x10_0000_0000 ==> r is Ok,
    {
        match self.master_key {
            Some(key) => {
                let nonce = random_nonce();
                match aes_gcm_encrypt(&key, &nonce, backup_data) {
                    Some(sealed) => {
                        let mut out = bytes_of(&nonce);
                        let ghost n = out@;
                        let mut s = sealed;
                        let ghost sv = s@;
                        out.append(&mut s);
                        proof {
                            assert(out@ =~= n + sv);
                            assert(out@.subrange(0, 12) =~= nonce@);
                            assert(out@.subrange(12, out@.len() as int) =~= sv);
                        }
                        Ok(out)
                    },
                    None => Err(KeyError::Crypto(owned("Failed to encrypt backup"))),
                }
            },
            None => Err(KeyError::Security(owned("Master key not available for encryption"))),
        }
    }

    /// Decrypts a backup made by `export_key_backup`: the first twelve bytes
    /// are the nonce.
    pub fn import_key_backup(&self, encrypted_backup: &[u8]) -> (r: Result<Vec<u8>, KeyError>)
        ensures
            match self.master() {
                None => r matches Err(KeyError::Security(m)) && m@ == "Master key not available for decryption"@,
                Some(k) => if encrypted_backup@.len() < 12 {
                    r matches Err(KeyError::Crypto(m)) && m@ == "Invalid backup data"@
                } else {
                    match opened_backup(k, encrypted_backup@) {
                        Some(p) => r matches Ok(d) && d@ == p,
                        None => r matches Err(KeyError::Crypto(m)) && m@ == "Failed to decrypt backup"@,
                    }
                },
            },
    {
        match self.master_key {
            Some(key) => {
                if encrypted_backup.len() < 12 {
                    return Err(KeyError::Crypto(owned("Invalid backup data")));
                }
                let nonce = vstd::slice::slice_subrange(encrypted_backup, 0, 12);
                let sealed = vstd::slice::slice_subrange(encrypted_backup, 12, encrypted_backup.len());
                match aes_gcm_decrypt(&key, nonce, sealed) {
                    Some(d) => Ok(d),
                    None => Err(KeyError::Crypto(owned("Failed to decrypt backup"))),
                }
            },
            None => Err(KeyError::Security(owned("Master key not available for decryption"))),
        }
    }
}

/// What a backup `b` opens to under master key `k`: the data sealed after
/// the twelve-byte nonce, if it authenticates.
pub open spec fn opened_backup(k: [u8; 32], b: Seq<u8>) -> Option<Seq<u8>> {
    if b.len() < 12 { None } else { gcm_open(k@, b.subrange(0, 12), b.subrange(12, b.len() as int)) }
}

} // verus!
