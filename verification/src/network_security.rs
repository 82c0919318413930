//! Network-level protection: per-address connection limits, replay checks
//! on message nonces, session-key message encryption, and a bounded log of
//! security events. Times are milliseconds since the Unix epoch, given by
//! the caller.

use vstd::prelude::*;
use crate::text::owned;
use crate::strvec::views;
use crate::privacy::{gcm_open, gcm_seal, aes_gcm_encrypt, aes_gcm_decrypt, random_nonce, random_key};
use crate::text::concat;
use crate::keyed::{Keyed, keys_of, lookup, stored, store};
use crate::p2p::{hex_of, hex_encode};
use crate::quantum::{rfc3339_text, rfc3339_millis};
use crate::key_management::KeyManagementService;

verus! {

/// Network security settings.
#[derive(Debug, Clone, Copy)]
pub struct NetworkSecurityConfig {
    pub enable_tls: bool,
    pub enable_certificate_pinning: bool,
    pub enable_mutual_tls: bool,
    pub enable_message_encryption: bool,
    pub enable_connection_auth: bool,
    pub enable_rate_limiting: bool,
    pub enable_ddos_protection: bool,
    pub max_connections_per_ip: usize,
    pub connection_timeout: u64,
    pub strict_certificate_validation: bool,
    pub enable_pfs: bool,
    pub enable_quantum_resistant: bool,
}

impl Default for NetworkSecurityConfig {
    /// Every protection on except quantum-resistant encryption; 10
    /// connections per address; 30-second timeout.
    fn default() -> (c: Self)
        ensures
            c.enable_tls && c.enable_certificate_pinning && c.enable_mutual_tls && c.enable_message_encryption,
            c.enable_connection_auth && c.enable_rate_limiting && c.enable_ddos_protection,
            c.max_connections_per_ip == 10,
            c.connection_timeout == 30,
            c.strict_certificate_validation && c.enable_pfs && !c.enable_quantum_resistant,
    {
        NetworkSecurityConfig {
            enable_tls: true,
            enable_certificate_pinning: true,
            enable_mutual_tls: true,
            enable_message_encryption: true,
            enable_connection_auth: true,
            enable_rate_limiting: true,
            enable_ddos_protection: true,
            max_connections_per_ip: 10,
            connection_timeout: 30,
            strict_certificate_validation: true,
            enable_pfs: true,
            enable_quantum_resistant: false,
        }
    }
}

#[derive(Debug, Clone, Copy, PartialEq, Eq, Structural)]
pub enum CertificateStatus {
    Valid,
    Expired,
    Revoked,
    Compromised,
}

#[derive(Debug, Clone, Copy, PartialEq, Eq, Structural)]
pub enum SecurityLevel {
    Unsecured,
    Basic,
    Enhanced,
    Maximum,
}

#[derive(Debug, Clone, Copy, PartialEq, Eq, Structural)]
pub enum SuspiciousActivityType {
    PortScanning,
    BruteForce,
    DDoS,
    MalformedPackets,
    UnauthorizedAccess,
    CertificateSpoofing,
    ReplayAttack,
}

#[derive(Debug, Clone, Copy, PartialEq, Eq, Structural)]
pub enum SecurityEventType {
    ConnectionAttempt,
    AuthenticationFailure,
    CertificateValidationFailure,
    RateLimitExceeded,
    SuspiciousActivity,
    AttackDetected,
    SecurityPolicyViolation,
}

/// A known attack pattern.
#[derive(Debug)]
pub struct AttackPattern {
    pub name: String,
    pub signature: Vec<u8>,
    pub severity: u8,
    pub detection_rules: Vec<String>,
}

/// A security event.
#[derive(Debug)]
pub struct SecurityEvent {
    pub timestamp_ms: i64,
    pub event_type: SecurityEventType,
    pub source_ip: String,
    pub description: String,
    pub severity: u8,
    pub event_data: Option<Vec<u8>>,
}

/// Counts of the protection state.
#[derive(Debug, Clone, Copy)]
pub struct SecurityStats {
    pub total_connections: usize,
    pub rate_limited_ips: usize,
    pub security_events: usize,
    pub suspicious_ips: usize,
    pub tls_enabled: bool,
    pub mutual_tls_enabled: bool,
    pub message_encryption_enabled: bool,
}

/// Connection bookkeeping of one address.
#[derive(Debug)]
pub struct ConnectionLimit {
    pub current_connections: usize,
    pub last_connection_ms: i64,
    pub blocked_until_ms: Option<i64>,
    pub attempts_in_window: Vec<i64>,
}

/// Number of attempt times after `start`.
pub open spec fn recent_count(attempts: Seq<i64>, start: int) -> nat
    decreases attempts.len(),
{
    if attempts.len() == 0 {
        0
    } else {
        recent_count(attempts.drop_last(), start) + if attempts.last() > start { 1nat } else { 0nat }
    }
}

/// Whether the limit `l` lets one more connection in at `now`: not blocked,
/// under the connection cap, and under the cap of attempts in the window.
pub open spec fn limit_allows(l: ConnectionLimit, max: usize, window_s: u64, now: i64) -> bool {
    &&& match l.blocked_until_ms {
        Some(b) => !(now < b),
        None => true,
    }
    &&& l.current_connections < max
    &&& recent_count(l.attempts_in_window@, now - window_s * 1000) < max
}

/// An address blocked until after `now` is refused, whatever its
/// connection and attempt counts; one that is let in is not blocked at
/// `now` and is under both caps.
pub proof fn lemma_blocked_address_refused(l: ConnectionLimit, max: usize, window_s: u64, now: i64)
    ensures
        (l.blocked_until_ms matches Some(b) && now < b) ==> !limit_allows(l, max, window_s, now),
        limit_allows(l, max, window_s, now) ==> l.current_connections < max,
        limit_allows(l, max, window_s, now) ==> !(l.blocked_until_ms matches Some(b) && now < b),
{
}

/// Per-address connection limits.
pub struct RateLimiter {
    connection_limits: Vec<(String, ConnectionLimit)>,
    max_connections_per_ip: usize,
    time_window: u64,
}

/// The addresses of a list of limits.
pub open spec fn limit_keys(ls: Seq<(String, ConnectionLimit)>) -> Seq<Seq<char>> {
    ls.map_values(|e: (String, ConnectionLimit)| e.0@)
}

impl RateLimiter {
    pub closed spec fn limits(&self) -> Seq<(String, ConnectionLimit)> {
        self.connection_limits@
    }

    pub closed spec fn max(&self) -> usize {
        self.max_connections_per_ip
    }

    pub closed spec fn window(&self) -> u64 {
        self.time_window
    }

    /// No address known yet.
    pub fn new(max_connections_per_ip: usize, time_window: u64) -> (r: Self)
        ensures
            r.limits().len() == 0,
            r.max() == max_connections_per_ip,
            r.window() == time_window,
    {
        RateLimiter { connection_limits: Vec::new(), max_connections_per_ip, time_window }
    }

    /// Records `limit` for `ip` (replacing an earlier entry).
    pub fn track(&mut self, ip: &str, limit: ConnectionLimit)
        ensures
            final(self).max() == old(self).max(),
            final(self).window() == old(self).window(),
            match limit_keys(old(self).limits()).index_of_first(ip@) {
                Some(i) => final(self).limits() == old(self).limits().update(i, final(self).limits()[i])
                    && final(self).limits()[i].1 == limit && final(self).limits()[i].0@ == ip@,
                None => final(self).limits() == old(self).limits().push(final(self).limits().last())
                    && final(self).limits().last().1 == limit && final(self).limits().last().0@ == ip@,
            },
    {
        match self.find(ip) {
            Some(i) => {
                let ghost before = self.connection_limits@;
                proof {
                    limit_keys(before).index_of_first_ensures(ip@);
                    assert(limit_keys(before)[i as int] == before[i as int].0@);
                }
                let (k, _) = self.connection_limits.remove(i);
                self.connection_limits.insert(i, (k, limit));
                assert(self.connection_limits@ =~= before.update(i as int, self.connection_limits@[i as int]));
            },
            None => {
                let ghost before = self.connection_limits@;
                self.connection_limits.push((owned(ip), limit));
                assert(self.connection_limits@ =~= before.push(self.connection_limits@.last()));
            },
        }
    }

    /// Position of the entry for `ip`.
    fn find(&self, ip: &str) -> (r: Option<usize>)
        ensures
            match r {
                Some(i) => i < self.limits().len() && limit_keys(self.limits()).index_of_first(ip@) == Some(i as int),
                None => limit_keys(self.limits()).index_of_first(ip@) is None,
            },
    {
        let key = owned(ip);
        let mut i: usize = 0;
        while i < self.connection_limits.len()
            invariant
                i <= self.connection_limits@.len(),
                key@ == ip@,
                forall|j: int| 0 <= j < i ==> self.connection_limits@[j].0@ != ip@,
            decreases self.connection_limits@.len() - i,
        {
            if self.connection_limits[i].0 == key {
                proof {
                    let ks = limit_keys(self.connection_limits@);
                    ks.index_of_first_ensures(ip@);
                    assert(ks[i as int] == ip@);
                    let f = ks.index_of_first(ip@)->0;
                    if f < i {
                        assert(ks[f] == self.connection_limits@[f].0@);
                    }
                }
                return Some(i);
            }
            i = i + 1;
        }
        proof {
            let ks = limit_keys(self.connection_limits@);
            ks.index_of_first_ensures(ip@);
            if ks.contains(ip@) {
                let j = choose|j: int| 0 <= j < ks.len() && ks[j] == ip@;
                assert(self.connection_limits@[j].0@ == ip@);
            }
        }
        None
    }

    /// Whether `ip` may connect at `now`: unknown addresses may; known
    /// ones must not be blocked and must be under both caps.
    pub fn is_connection_allowed(&self, ip: &str, now_ms: i64) -> (b: bool)
        requires
            self.window() * 1000 <= i64::MAX,
            now_ms >= i64::MIN + self.window() * 1000,
        ensures
            b == match limit_keys(self.limits()).index_of_first(ip@) {
                Some(i) => limit_allows(self.limits()[i].1, self.max(), self.window(), now_ms),
                None => true,
            },
    {
        match self.find(ip) {
            None => true,
            Some(i) => {
                let limit = &self.connection_limits[i].1;
                match limit.blocked_until_ms {
                    Some(b) => {
                        if now_ms < b {
                            return false;
                        }
                    },
                    None => {},
                }
                if limit.current_connections >= self.max_connections_per_ip {
                    return false;
                }
                let start = now_ms - (self.time_window * 1000) as i64;
                let mut count: usize = 0;
                let mut k: usize = 0;
                while k < limit.attempts_in_window.len()
                    invariant
                        k <= limit.attempts_in_window@.len(),
                        count == recent_count(limit.attempts_in_window@.take(k as int), start as int),
                        count <= k,
                    decreases limit.attempts_in_window@.len() - k,
                {
                    proof {
                        assert(limit.attempts_in_window@.take(k + 1).drop_last() =~= limit.attempts_in_window@.take(k as int));
                    }
                    if limit.attempts_in_window[k] > start {
                        count = count + 1;
                    }
                    k = k + 1;
                }
                assert(limit.attempts_in_window@.take(k as int) =~= limit.attempts_in_window@);
                count < self.max_connections_per_ip
            },
        }
    }

    /// Number of known addresses.
    pub fn address_count(&self) -> (n: usize)
        ensures
            n == self.limits().len(),
    {
        self.connection_limits.len()
    }
}

// ---------------------------------------------------------------------------
// Message encryption

/// Errors of message encryption.
#[derive(Debug, Clone, Copy, PartialEq, Eq, Structural)]
pub enum MessageError {
    /// No session key for the connection.
    NoSessionKey,
    /// Shorter than a nonce.
    TooShort,
    /// The nonce was seen before on this connection.
    ReplayDetected,
    /// Encryption failed (payload too large).
    EncryptionFailed,
    /// The message does not authenticate.
    DecryptionFailed,
}

/// Session keys and the nonces seen per connection.
pub struct MessageEncryptor {
    session_keys: Vec<(String, [u8; 32])>,
    used_nonces: Vec<(String, Vec<[u8; 12]>)>,
    nonce_window_size: usize,
}

/// The connections of a key list.
pub open spec fn key_owners(ks: Seq<(String, [u8; 32])>) -> Seq<Seq<char>> {
    ks.map_values(|e: (String, [u8; 32])| e.0@)
}

/// The connections of a nonce list.
pub open spec fn nonce_owners(ns: Seq<(String, Vec<[u8; 12]>)>) -> Seq<Seq<char>> {
    ns.map_values(|e: (String, Vec<[u8; 12]>)| e.0@)
}

/// The byte views of a list of nonces.
pub open spec fn nonce_views(ns: Seq<[u8; 12]>) -> Seq<Seq<u8>> {
    ns.map_values(|n: [u8; 12]| n@)
}

impl MessageEncryptor {
    /// The session key of a connection.
    pub closed spec fn key_of(&self, connection: Seq<char>) -> Option<Seq<u8>> {
        match key_owners(self.session_keys@).index_of_first(connection) {
            Some(i) => Some(self.session_keys@[i].1@),
            None => None,
        }
    }

    /// The nonces seen on a connection.
    pub closed spec fn nonces_of(&self, connection: Seq<char>) -> Seq<Seq<u8>> {
        match nonce_owners(self.used_nonces@).index_of_first(connection) {
            Some(i) => nonce_views(self.used_nonces@[i].1@),
            None => Seq::empty(),
        }
    }

    pub closed spec fn key_count(&self) -> nat {
        self.session_keys@.len()
    }

    pub closed spec fn window(&self) -> usize {
        self.nonce_window_size
    }

    /// No keys, no nonces; a window of 1000 nonces.
    pub fn new() -> (e: Self)
        ensures
            e.key_count() == 0,
            forall|c: Seq<char>| #[trigger] e.key_of(c) is None,
            forall|c: Seq<char>| #[trigger] e.nonces_of(c).len() == 0,
            e.window() == 1000,
    {
        let e = MessageEncryptor { session_keys: Vec::new(), used_nonces: Vec::new(), nonce_window_size: 1000 };
        assert forall|c: Seq<char>| #[trigger] e.key_of(c) is None by {
            key_owners(e.session_keys@).index_of_first_ensures(c);
        }
        assert forall|c: Seq<char>| #[trigger] e.nonces_of(c).len() == 0 by {
            nonce_owners(e.used_nonces@).index_of_first_ensures(c);
        }
        e
    }

    /// Number of session keys.
    pub fn session_key_count(&self) -> (n: usize)
        ensures
            n == self.key_count(),
    {
        self.session_keys.len()
    }

    /// The session key of `connection_id`, if any.
    fn session_key(&self, connection_id: &str) -> (r: Option<[u8; 32]>)
        ensures
            match r {
                Some(k) => self.key_of(connection_id@) == Some(k@),
                None => self.key_of(connection_id@) is None,
            },
    {
        let key = owned(connection_id);
        let mut i: usize = 0;
        while i < self.session_keys.len()
            invariant
                i <= self.session_keys@.len(),
                key@ == connection_id@,
                forall|j: int| 0 <= j < i ==> self.session_keys@[j].0@ != connection_id@,
            decreases self.session_keys@.len() - i,
        {
            if self.session_keys[i].0 == key {
                proof {
                    let ks = key_owners(self.session_keys@);
                    ks.index_of_first_ensures(connection_id@);
                    assert(ks[i as int] == connection_id@);
                    let f = ks.index_of_first(connection_id@)->0;
                    if f < i {
                        assert(ks[f] == self.session_keys@[f].0@);
                    }
                }
                return Some(self.session_keys[i].1);
            }
            i = i + 1;
        }
        proof {
            let ks = key_owners(self.session_keys@);
            ks.index_of_first_ensures(connection_id@);
            if ks.contains(connection_id@) {
                let j = choose|j: int| 0 <= j < ks.len() && ks[j] == connection_id@;
                assert(self.session_keys@[j].0@ == connection_id@);
            }
        }
        None
    }

    /// Encrypts `message` with the session key of `connection_id` under a
    /// fresh random nonce, which is put in front.
    pub fn encrypt_message(&self, connection_id: &str, message: &[u8]) -> (r: Result<Vec<u8>, MessageError>)
        ensures
            self.key_of(connection_id@) is None ==> r == Err::<Vec<u8>, MessageError>(MessageError::NoSessionKey),
            self.key_of(connection_id@) matches Some(k) ==> match r {
                Ok(out) => out@.len() >= 12 && out@.skip(12) == gcm_seal(k, out@.take(12), message@)
                    && gcm_open(k, out@.take(12), out@.skip(12)) == Some(message@),
                Err(e) => e == MessageError::EncryptionFailed && message@.len() > 0x10_0000_0000,
            },
    {
        let key = match self.session_key(connection_id) {
            Some(k) => k,
            None => return Err(MessageError::NoSessionKey),
        };
        let nonce = random_nonce();
        let sealed = match aes_gcm_encrypt(&key, &nonce, message) {
            Some(c) => c,
            None => return Err(MessageError::EncryptionFailed),
        };
        let mut out: Vec<u8> = Vec::new();
        let mut i: usize = 0;
        while i < 12
            invariant
                i <= 12,
                out@ == nonce@.take(i as int),
            decreases 12 - i,
        {
            out.push(nonce[i]);
            i = i + 1;
            assert(out@ =~= nonce@.take(i as int));
        }
        let mut j: usize = 0;
        while j < sealed.len()
            invariant
                j <= sealed@.len(),
                out@ == nonce@ + sealed@.take(j as int),
            decreases sealed@.len() - j,
        {
            out.push(sealed[j]);
            j = j + 1;
            assert(out@ =~= nonce@ + sealed@.take(j as int));
        }
        proof {
            assert(nonce@.take(12) =~= nonce@);
            assert(sealed@.take(j as int) =~= sealed@);
            assert(out@.take(12) =~= nonce@);
            assert(out@.skip(12) =~= sealed@);
        }
        Ok(out)
    }

    /// Decrypts a message of `connection_id`: the first 12 bytes are the
    /// nonce, which must not have been seen on the connection before.
    pub fn decrypt_message(&self, connection_id: &str, encrypted_message: &[u8]) -> (r: Result<Vec<u8>, MessageError>)
        ensures
            self.key_of(connection_id@) is None ==> r == Err::<Vec<u8>, MessageError>(MessageError::NoSessionKey),
            self.key_of(connection_id@) matches Some(k) ==> {
                let m = encrypted_message@;
                if m.len() < 12 {
                    r == Err::<Vec<u8>, MessageError>(MessageError::TooShort)
                } else if self.nonces_of(connection_id@).contains(m.take(12)) {
                    r == Err::<Vec<u8>, MessageError>(MessageError::ReplayDetected)
                } else {
                    match gcm_open(k, m.take(12), m.skip(12)) {
                        Some(p) => r matches Ok(v) && v@ == p,
                        None => r == Err::<Vec<u8>, MessageError>(MessageError::DecryptionFailed),
                    }
                }
            },
    {
        let key = match self.session_key(connection_id) {
            Some(k) => k,
            None => return Err(MessageError::NoSessionKey),
        };
        if encrypted_message.len() < 12 {
            return Err(MessageError::TooShort);
        }
        let mut nonce = [0u8; 12];
        let mut i: usize = 0;
        while i < 12
            invariant
                i <= 12,
                encrypted_message@.len() >= 12,
                forall|j: int| 0 <= j < i ==> nonce@[j] == encrypted_message@[j],
            decreases 12 - i,
        {
            nonce[i] = encrypted_message[i];
            i = i + 1;
        }
        assert(nonce@ =~= encrypted_message@.take(12));
        if self.is_nonce_used(connection_id, &nonce) {
            return Err(MessageError::ReplayDetected);
        }
        let body = vstd::slice::slice_subrange(encrypted_message, 12, encrypted_message.len());
        assert(body@ =~= encrypted_message@.skip(12));
        match aes_gcm_decrypt(&key, &nonce, body) {
            Some(p) => Ok(p),
            None => Err(MessageError::DecryptionFailed),
        }
    }

    /// Whether `nonce` was seen on `connection_id`.
    pub fn is_nonce_used(&self, connection_id: &str, nonce: &[u8; 12]) -> (b: bool)
        ensures
            b == self.nonces_of(connection_id@).contains(nonce@),
    {
        let key = owned(connection_id);
        let mut i: usize = 0;
        while i < self.used_nonces.len()
            invariant
                i <= self.used_nonces@.len(),
                key@ == connection_id@,
                forall|j: int| 0 <= j < i ==> self.used_nonces@[j].0@ != connection_id@,
            decreases self.used_nonces@.len() - i,
        {
            if self.used_nonces[i].0 == key {
                proof {
                    let ks = nonce_owners(self.used_nonces@);
                    ks.index_of_first_ensures(connection_id@);
                    assert(ks[i as int] == connection_id@);
                    let f = ks.index_of_first(connection_id@)->0;
                    if f < i {
                        assert(ks[f] == self.used_nonces@[f].0@);
                    }
                }
                let list = &self.used_nonces[i].1;
                assert(self.nonces_of(connection_id@) == nonce_views(list@));
                let mut k: usize = 0;
                while k < list.len()
                    invariant
                        k <= list@.len(),
                        self.nonces_of(connection_id@) == nonce_views(list@),
                        forall|j: int| 0 <= j < k ==> list@[j]@ != nonce@,
                    decreases list@.len() - k,
                {
                    if crate::round::same_bytes(&list[k], nonce) {
                        assert(nonce_views(list@)[k as int] == nonce@);
                        return true;
                    }
                    k = k + 1;
                }
                proof {
                    if nonce_views(list@).contains(nonce@) {
                        let j = choose|j: int| 0 <= j < list@.len() && nonce_views(list@)[j] == nonce@;
                        assert(list@[j]@ == nonce@);
                    }
                }
                return false;
            }
            i = i + 1;
        }
        proof {
            let ks = nonce_owners(self.used_nonces@);
            ks.index_of_first_ensures(connection_id@);
            if ks.contains(connection_id@) {
                let j = choose|j: int| 0 <= j < ks.len() && ks[j] == connection_id@;
                assert(self.used_nonces@[j].0@ == connection_id@);
            }
        }
        false
    }
}

// ---------------------------------------------------------------------------
// Security events

/// Most events kept.
pub const MAX_EVENTS: usize = 10000;

/// Events dropped at once when the log is over its bound.
pub const EVENT_TRIM: usize = 1000;

/// A log of security events that keeps the most recent ones.
pub struct ThreatDetector {
    suspicious_ips: Vec<String>,
    security_events: Vec<SecurityEvent>,
}

/// The (time, type, source) of events.
pub open spec fn event_keys(es: Seq<SecurityEvent>) -> Seq<(i64, SecurityEventType, Seq<char>)> {
    es.map_values(|e: SecurityEvent| (e.timestamp_ms, e.event_type, e.source_ip@))
}

impl ThreatDetector {
    pub closed spec fn events(&self) -> Seq<SecurityEvent> {
        self.security_events@
    }

    pub closed spec fn suspicious_count(&self) -> nat {
        self.suspicious_ips@.len()
    }

    pub fn new() -> (t: Self)
        ensures
            t.events().len() == 0,
            t.suspicious_count() == 0,
    {
        ThreatDetector { suspicious_ips: Vec::new(), security_events: Vec::new() }
    }

    /// Appends `event`; once more than 10000 are kept, the oldest 1000 go.
    pub fn record_security_event(&mut self, event: SecurityEvent)
        ensures
            ({
                let all = old(self).events().push(event);
                final(self).events() == if all.len() > MAX_EVENTS { all.skip(EVENT_TRIM as int) } else { all }
            }),
            final(self).suspicious_count() == old(self).suspicious_count(),
    {
        self.security_events.push(event);
        if self.security_events.len() > MAX_EVENTS {
            let ghost all = self.security_events@;
            let mut kept: Vec<SecurityEvent> = Vec::new();
            let mut old_events: Vec<SecurityEvent> = Vec::new();
            std::mem::swap(&mut old_events, &mut self.security_events);
            let mut rest = old_events.split_off(EVENT_TRIM);
            std::mem::swap(&mut kept, &mut rest);
            self.security_events = kept;
            assert(self.security_events@ =~= all.skip(EVENT_TRIM as int));
        }
    }

    /// Number of events kept.
    pub fn event_count(&self) -> (n: usize)
        ensures
            n == self.events().len(),
    {
        self.security_events.len()
    }

    /// Number of suspicious addresses.
    pub fn suspicious_ip_count(&self) -> (n: usize)
        ensures
            n == self.suspicious_count(),
    {
        self.suspicious_ips.len()
    }
}

/// The statistics of a protection state.
pub fn security_stats(config: &NetworkSecurityConfig, limiter: &RateLimiter, detector: &ThreatDetector, authenticated: usize) -> (s: SecurityStats)
    ensures
        s.total_connections == authenticated,
        s.rate_limited_ips == limiter.limits().len(),
        s.security_events == detector.events().len(),
        s.suspicious_ips == detector.suspicious_count(),
        s.tls_enabled == config.enable_tls,
        s.mutual_tls_enabled == config.enable_mutual_tls,
        s.message_encryption_enabled == config.enable_message_encryption,
{
    SecurityStats {
        total_connections: authenticated,
        rate_limited_ips: limiter.address_count(),
        security_events: detector.event_count(),
        suspicious_ips: detector.suspicious_ip_count(),
        tls_enabled: config.enable_tls,
        mutual_tls_enabled: config.enable_mutual_tls,
        message_encryption_enabled: config.enable_message_encryption,
    }
}


// ---------------------------------------------------------------------------
// Connection authentication

/// Whether 32 bytes are the compressed form of a point on the Edwards curve,
/// the keys that ed25519-dalek accepts as verifying keys.
pub uninterp spec fn ed25519_point_valid(public_key: Seq<u8>) -> bool;

/// Whether `signature` is a valid Ed25519 signature, under `public_key`, of
/// the UTF-8 bytes of `message`, as ed25519-dalek's verification decides.
pub uninterp spec fn ed25519_signature_valid(public_key: Seq<u8>, message: Seq<char>, signature: Seq<u8>) -> bool;

/// The Ed25519 verifying key of a 32-byte secret key.
pub uninterp spec fn ed25519_public_key(secret: Seq<u8>) -> Seq<u8>;

/// ed25519-dalek's `VerifyingKey::from_bytes`, reduced to whether it
/// succeeds. Claimed: the answer is `ed25519_point_valid` of the bytes (the
/// function decompresses the point and fails only when that fails).
#[verifier::external_body]
fn verifying_key_accepted(public_key: &[u8; 32]) -> (b: bool)
    ensures
        b == ed25519_point_valid(public_key@),
{
    ed25519_dalek::VerifyingKey::from_bytes(public_key).is_ok()
}

/// ed25519-dalek's `Verifier::verify` of `VerifyingKey`, on the UTF-8 bytes
/// of `message` and a signature read by `Signature::from_bytes`. Claimed:
/// for a key that decodes, the answer is `ed25519_signature_valid` of the
/// key, the message and the signature.
#[verifier::external_body]
fn signature_verifies(public_key: &[u8; 32], message: &str, signature: &[u8]) -> (b: bool)
    requires
        ed25519_point_valid(public_key@),
        signature@.len() == 64,
    ensures
        b == ed25519_signature_valid(public_key@, message@, signature@),
{
    let mut bytes = [0u8; 64];
    bytes.copy_from_slice(signature);
    match ed25519_dalek::VerifyingKey::from_bytes(public_key) {
        Ok(key) => ed25519_dalek::Verifier::verify(&key, message.as_bytes(), &ed25519_dalek::Signature::from_bytes(&bytes)).is_ok(),
        Err(_) => false,
    }
}

/// ed25519-dalek's `SigningKey::from_bytes` followed by `verifying_key` and
/// `to_bytes`. Claimed: the result is `ed25519_public_key` of the secret.
#[verifier::external_body]
fn derive_verifying_key(secret: &[u8; 32]) -> (public_key: [u8; 32])
    ensures
        public_key@ == ed25519_public_key(secret@),
{
    ed25519_dalek::SigningKey::from_bytes(secret).verifying_key().to_bytes()
}

/// A peer's signed greeting.
#[derive(Debug)]
pub struct HandshakeMessage {
    pub node_id: [u8; 32],
    pub public_key: [u8; 32],
    pub timestamp_ms: i64,
    pub nonce: [u8; 32],
    pub signature: Vec<u8>,
}

/// What a handshake's signature covers: the hex of the node id, the hex of
/// the public key, the RFC 3339 time and the hex of the nonce, joined by
/// colons; `None` when the time has no RFC 3339 form.
pub open spec fn handshake_text(h: HandshakeMessage) -> Option<Seq<char>> {
    match rfc3339_text(h.timestamp_ms) {
        Some(t) => Some(hex_of(h.node_id@) + seq![':'] + hex_of(h.public_key@) + seq![':'] + t + seq![':'] + hex_of(h.nonce@)),
        None => None,
    }
}

/// Why a connection was not authenticated.
#[derive(Debug, Clone, Copy, PartialEq, Eq, Structural)]
pub enum AuthError {
    /// The address is over its connection limits.
    RateLimited,
    /// The handshake could not be read.
    InvalidHandshake,
    /// The public key is not a curve point.
    InvalidPublicKey,
    /// The signature does not verify.
    InvalidSignature,
}

impl AuthError {
    /// The error's message.
    pub fn message(&self) -> (s: String)
        ensures
            s@ == match *self {
                AuthError::RateLimited => "Connection rate limited"@,
                AuthError::InvalidHandshake => "Invalid handshake"@,
                AuthError::InvalidPublicKey => "Invalid public key"@,
                AuthError::InvalidSignature => "Invalid handshake signature"@,
            },
    {
        match self {
            AuthError::RateLimited => owned("Connection rate limited"),
            AuthError::InvalidHandshake => owned("Invalid handshake"),
            AuthError::InvalidPublicKey => owned("Invalid public key"),
            AuthError::InvalidSignature => owned("Invalid handshake signature"),
        }
    }
}

/// The verdict on a handshake: unreadable time, then an undecodable key,
/// are errors; a signature of another length than 64 bytes is refused; else
/// the signature decides.
pub open spec fn handshake_verdict(h: HandshakeMessage) -> Result<bool, AuthError> {
    match handshake_text(h) {
        None => Err(AuthError::InvalidHandshake),
        Some(text) => if !ed25519_point_valid(h.public_key@) {
            Err(AuthError::InvalidPublicKey)
        } else if h.signature@.len() != 64 {
            Ok(false)
        } else {
            Ok(ed25519_signature_valid(h.public_key@, text, h.signature@))
        },
    }
}

/// A connection whose peer proved its key.
#[derive(Debug)]
pub struct AuthenticatedConnection {
    pub connection_id: String,
    pub remote_node_id: [u8; 32],
    pub remote_public_key: [u8; 32],
    pub authenticated_at_ms: i64,
    pub session_key: Option<[u8; 32]>,
    pub security_level: SecurityLevel,
}

impl Clone for AuthenticatedConnection {
    fn clone(&self) -> (c: Self)
        ensures
            c == *self,
    {
        AuthenticatedConnection {
            connection_id: self.connection_id.clone(),
            remote_node_id: self.remote_node_id,
            remote_public_key: self.remote_public_key,
            authenticated_at_ms: self.authenticated_at_ms,
            session_key: self.session_key,
            security_level: self.security_level,
        }
    }
}

impl Keyed for AuthenticatedConnection {
    open spec fn key_view(&self) -> Seq<char> {
        self.connection_id@
    }

    fn key(&self) -> (k: &String) {
        &self.connection_id
    }
}

/// This node's signing key and the connections it authenticated.
pub struct ConnectionAuthenticator {
    signing_key: [u8; 32],
    verifying_key: [u8; 32],
    authenticated_connections: Vec<AuthenticatedConnection>,
}

impl ConnectionAuthenticator {
    /// The authenticated connections, in the order first stored.
    pub closed spec fn connections(&self) -> Seq<AuthenticatedConnection> {
        self.authenticated_connections@
    }

    /// This node's verifying key and its secret.
    pub closed spec fn keys(&self) -> (Seq<u8>, Seq<u8>) {
        (self.signing_key@, self.verifying_key@)
    }

    /// A fresh random signing key, its verifying key, and no connections.
    pub fn new() -> (a: Self)
        ensures
            a.connections().len() == 0,
            a.keys().1 == ed25519_public_key(a.keys().0),
    {
        let signing_key = random_key();
        let verifying_key = derive_verifying_key(&signing_key);
        ConnectionAuthenticator { signing_key, verifying_key, authenticated_connections: Vec::new() }
    }

    /// This node's verifying key.
    pub fn verifying_key(&self) -> (k: [u8; 32])
        ensures
            k@ == self.keys().1,
    {
        self.verifying_key
    }

    /// Checks the signature of a handshake.
    pub fn verify_handshake(&self, handshake: &HandshakeMessage) -> (r: Result<bool, AuthError>)
        ensures
            r == handshake_verdict(*handshake),
    {
        let text = match handshake_message_text(handshake) {
            Some(t) => t,
            None => return Err(AuthError::InvalidHandshake),
        };
        if !verifying_key_accepted(&handshake.public_key) {
            return Err(AuthError::InvalidPublicKey);
        }
        if handshake.signature.len() != 64 {
            return Ok(false);
        }
        Ok(signature_verifies(&handshake.public_key, text.as_str(), handshake.signature.as_slice()))
    }

    /// Number of authenticated connections.
    pub fn connection_count(&self) -> (n: usize)
        ensures
            n == self.connections().len(),
    {
        self.authenticated_connections.len()
    }

    /// The authenticated connection `connection_id`, if any.
    pub fn connection(&self, connection_id: &str) -> (r: Option<&AuthenticatedConnection>)
        ensures
            match r {
                Some(c) => lookup(self.connections(), connection_id@) == Some(*c),
                None => lookup(self.connections(), connection_id@) is None,
            },
    {
        crate::keyed::get_key(&self.authenticated_connections, connection_id)
    }
}

/// The text a handshake's signature covers.
fn handshake_message_text(h: &HandshakeMessage) -> (r: Option<String>)
    ensures
        match r {
            Some(s) => handshake_text(*h) == Some(s@),
            None => handshake_text(*h) is None,
        },
{
    let time = match rfc3339_millis(h.timestamp_ms) {
        Some(t) => t,
        None => return None,
    };
    let node = hex_encode(&h.node_id);
    let key = hex_encode(&h.public_key);
    let nonce = hex_encode(&h.nonce);
    let s1 = concat(node.as_str(), ":");
    let s2 = concat(s1.as_str(), key.as_str());
    let s3 = concat(s2.as_str(), ":");
    let s4 = concat(s3.as_str(), time.as_str());
    let s5 = concat(s4.as_str(), ":");
    let s6 = concat(s5.as_str(), nonce.as_str());
    proof {
        reveal_strlit(":");
    }
    Some(s6)
}


/// The event recorded when a handshake's signature fails.
pub open spec fn auth_failure_event(e: SecurityEvent, ip: Seq<char>, now_ms: i64) -> bool {
    &&& e.timestamp_ms == now_ms
    &&& e.event_type == SecurityEventType::AuthenticationFailure
    &&& e.source_ip@ == ip
    &&& e.description@ == "Invalid handshake signature"@
    &&& e.severity == 5
    &&& e.event_data is None
}

/// `log` after recording `e`, as the threat detector keeps it.
pub open spec fn events_after(log: Seq<SecurityEvent>, e: SecurityEvent) -> Seq<SecurityEvent> {
    let all = log.push(e);
    if all.len() > MAX_EVENTS { all.skip(EVENT_TRIM as int) } else { all }
}

/// Network-level protection of a node: connection limits, handshake
/// authentication, message encryption and security events.
pub struct NetworkSecurityManager {
    config: NetworkSecurityConfig,
    key_service: KeyManagementService,
    rate_limiter: RateLimiter,
    connection_authenticator: ConnectionAuthenticator,
    message_encryptor: MessageEncryptor,
    threat_detector: ThreatDetector,
}

impl NetworkSecurityManager {
    pub closed spec fn config(&self) -> NetworkSecurityConfig {
        self.config
    }

    pub closed spec fn limiter(&self) -> RateLimiter {
        self.rate_limiter
    }

    pub closed spec fn authenticator(&self) -> ConnectionAuthenticator {
        self.connection_authenticator
    }

    pub closed spec fn encryptor(&self) -> MessageEncryptor {
        self.message_encryptor
    }

    pub closed spec fn detector(&self) -> ThreatDetector {
        self.threat_detector
    }

    pub closed spec fn keys(&self) -> KeyManagementService {
        self.key_service
    }

    /// The limiter's window, in milliseconds, fits the clock.
    pub open spec fn wf(&self) -> bool {
        &&& self.limiter().window() * 1000 <= i64::MAX
        &&& self.limiter().max() == self.config().max_connections_per_ip
        &&& self.limiter().window() == self.config().connection_timeout
        &&& self.keys().wf()
    }

    /// A manager under `config` at `now_ms`: an initialised key service, a
    /// limiter with the configured caps, a fresh authenticator and encryptor,
    /// and an empty event log.
    pub fn new(config: NetworkSecurityConfig, now_ms: i64) -> (m: Self)
        requires
            config.connection_timeout * 1000 <= i64::MAX,
            now_ms >= 0,
        ensures
            m.wf(),
            m.config() == config,
            m.keys().master() is Some,
            m.limiter().limits().len() == 0,
            m.authenticator().connections().len() == 0,
            m.encryptor().key_count() == 0,
            m.detector().events().len() == 0,
            m.detector().suspicious_count() == 0,
    {
        let now_secs = (now_ms / 1000) as u64;
        let mut key_service = KeyManagementService::new(now_secs);
        let _ = key_service.initialize(now_secs);
        NetworkSecurityManager {
            config,
            key_service,
            rate_limiter: RateLimiter::new(config.max_connections_per_ip, config.connection_timeout),
            connection_authenticator: ConnectionAuthenticator::new(),
            message_encryptor: MessageEncryptor::new(),
            threat_detector: ThreatDetector::new(),
        }
    }

    /// Authenticates `connection_id` from `ip` at `now_ms` with the peer's
    /// handshake (`None` when it could not be read). The address must be
    /// within its limits; a signature that fails is logged as an
    /// authentication failure; an accepted connection is stored, at the
    /// enhanced level with no session key.
    pub fn authenticate_connection(
        &mut self,
        connection_id: &str,
        ip: &str,
        handshake: Option<HandshakeMessage>,
        now_ms: i64,
    ) -> (r: Result<AuthenticatedConnection, AuthError>)
        requires
            old(self).wf(),
            now_ms >= 0,
        ensures
            final(self).wf(),
            final(self).config() == old(self).config(),
            final(self).limiter() == old(self).limiter(),
            final(self).encryptor() == old(self).encryptor(),
            final(self).keys() == old(self).keys(),
            final(self).authenticator().keys() == old(self).authenticator().keys(),
            final(self).detector().suspicious_count() == old(self).detector().suspicious_count(),
            ({
                let allowed = match limit_keys(old(self).limiter().limits()).index_of_first(ip@) {
                    Some(i) => limit_allows(old(self).limiter().limits()[i].1, old(self).limiter().max(), old(self).limiter().window(), now_ms),
                    None => true,
                };
                if !allowed {
                    r == Err::<AuthenticatedConnection, AuthError>(AuthError::RateLimited)
                        && final(self).authenticator() == old(self).authenticator()
                        && final(self).detector() == old(self).detector()
                } else {
                    match handshake {
                        None => r == Err::<AuthenticatedConnection, AuthError>(AuthError::InvalidHandshake)
                            && final(self).authenticator() == old(self).authenticator()
                            && final(self).detector() == old(self).detector(),
                        Some(h) => match handshake_verdict(h) {
                            Err(e) => r == Err::<AuthenticatedConnection, AuthError>(e)
                                && final(self).authenticator() == old(self).authenticator()
                                && final(self).detector() == old(self).detector(),
                            Ok(false) => r == Err::<AuthenticatedConnection, AuthError>(AuthError::InvalidSignature)
                                && final(self).authenticator() == old(self).authenticator()
                                && exists|e: SecurityEvent| #[trigger] auth_failure_event(e, ip@, now_ms)
                                    && final(self).detector().events() == events_after(old(self).detector().events(), e),
                            Ok(true) => match r {
                                Ok(c) => c.connection_id@ == connection_id@
                                    && c.remote_node_id == h.node_id
                                    && c.remote_public_key == h.public_key
                                    && c.authenticated_at_ms == now_ms
                                    && c.session_key is None
                                    && c.security_level == SecurityLevel::Enhanced
                                    && final(self).authenticator().connections() == stored(old(self).authenticator().connections(), c)
                                    && final(self).detector() == old(self).detector(),
                                Err(_) => false,
                            },
                        },
                    }
                }
            }),
    {
        if !self.rate_limiter.is_connection_allowed(ip, now_ms) {
            return Err(AuthError::RateLimited);
        }
        let h = match handshake {
            Some(h) => h,
            None => return Err(AuthError::InvalidHandshake),
        };
        let valid = match self.connection_authenticator.verify_handshake(&h) {
            Ok(v) => v,
            Err(e) => return Err(e),
        };
        if !valid {
            let event = SecurityEvent {
                timestamp_ms: now_ms,
                event_type: SecurityEventType::AuthenticationFailure,
                source_ip: owned(ip),
                description: owned("Invalid handshake signature"),
                severity: 5,
                event_data: None,
            };
            proof {
                reveal_strlit("Invalid handshake signature");
                assert(auth_failure_event(event, ip@, now_ms));
            }
            self.threat_detector.record_security_event(event);
            return Err(AuthError::InvalidSignature);
        }
        let conn = AuthenticatedConnection {
            connection_id: owned(connection_id),
            remote_node_id: h.node_id,
            remote_public_key: h.public_key,
            authenticated_at_ms: now_ms,
            session_key: None,
            security_level: SecurityLevel::Enhanced,
        };
        let kept = conn.clone();
        store(&mut self.connection_authenticator.authenticated_connections, kept);
        Ok(conn)
    }

    /// `message` encrypted for `connection_id`, or unchanged when message
    /// encryption is off.
    pub fn encrypt_message(&self, connection_id: &str, message: &[u8]) -> (r: Result<Vec<u8>, MessageError>)
        ensures
            !self.config().enable_message_encryption ==> (r matches Ok(v) && v@ == message@),
            self.config().enable_message_encryption && self.encryptor().key_of(connection_id@) is None
                ==> r == Err::<Vec<u8>, MessageError>(MessageError::NoSessionKey),
            self.config().enable_message_encryption ==> (self.encryptor().key_of(connection_id@) matches Some(k) ==> match r {
                Ok(out) => out@.len() >= 12 && out@.skip(12) == gcm_seal(k, out@.take(12), message@)
                    && gcm_open(k, out@.take(12), out@.skip(12)) == Some(message@),
                Err(e) => e == MessageError::EncryptionFailed && message@.len() > 0x10_0000_0000,
            }),
    {
        if !self.config.enable_message_encryption {
            return Ok(vstd::slice::slice_to_vec(message));
        }
        self.message_encryptor.encrypt_message(connection_id, message)
    }

    /// A message from `connection_id` decrypted, or unchanged when message
    /// encryption is off.
    pub fn decrypt_message(&self, connection_id: &str, encrypted_message: &[u8]) -> (r: Result<Vec<u8>, MessageError>)
        ensures
            !self.config().enable_message_encryption ==> (r matches Ok(v) && v@ == encrypted_message@),
            self.config().enable_message_encryption && self.encryptor().key_of(connection_id@) is None
                ==> r == Err::<Vec<u8>, MessageError>(MessageError::NoSessionKey),
            self.config().enable_message_encryption ==> (self.encryptor().key_of(connection_id@) matches Some(k) ==> {
                let m = encrypted_message@;
                if m.len() < 12 {
                    r == Err::<Vec<u8>, MessageError>(MessageError::TooShort)
                } else if self.encryptor().nonces_of(connection_id@).contains(m.take(12)) {
                    r == Err::<Vec<u8>, MessageError>(MessageError::ReplayDetected)
                } else {
                    match gcm_open(k, m.take(12), m.skip(12)) {
                        Some(p) => r matches Ok(v) && v@ == p,
                        None => r == Err::<Vec<u8>, MessageError>(MessageError::DecryptionFailed),
                    }
                }
            }),
    {
        if !self.config.enable_message_encryption {
            return Ok(vstd::slice::slice_to_vec(encrypted_message));
        }
        self.message_encryptor.decrypt_message(connection_id, encrypted_message)
    }

    /// The counts of the protection state.
    pub fn get_security_stats(&self) -> (s: SecurityStats)
        ensures
            s.total_connections == self.authenticator().connections().len(),
            s.rate_limited_ips == self.limiter().limits().len(),
            s.security_events == self.detector().events().len(),
            s.suspicious_ips == self.detector().suspicious_count(),
            s.tls_enabled == self.config().enable_tls,
            s.mutual_tls_enabled == self.config().enable_mutual_tls,
            s.message_encryption_enabled == self.config().enable_message_encryption,
    {
        security_stats(&self.config, &self.rate_limiter, &self.threat_detector, self.connection_authenticator.connection_count())
    }

    /// The authenticated connection `connection_id`, if any.
    pub fn authenticated_connection(&self, connection_id: &str) -> (r: Option<&AuthenticatedConnection>)
        ensures
            match r {
                Some(c) => lookup(self.authenticator().connections(), connection_id@) == Some(*c),
                None => lookup(self.authenticator().connections(), connection_id@) is None,
            },
    {
        self.connection_authenticator.connection(connection_id)
    }
}

} // verus!
