//! Peer-to-peer bookkeeping: per-address connection limits with blocking,
//! certificates of this node and of trusted peers, and the messages peers
//! exchange. Times are milliseconds since the Unix epoch, given by the
//! caller.

use vstd::prelude::*;
use crate::text::{owned, concat};
use crate::strvec::views;
use crate::network_security::NetworkSecurityConfig;

verus! {

/// Certificate state.
#[derive(Debug, Clone, Copy, PartialEq, Eq, Structural)]
pub enum CertificateStatus {
    Valid,
    Expired,
    Revoked,
    Compromised,
}

/// A certificate.
#[derive(Debug)]
pub struct CertificateInfo {
    pub cert_id: String,
    pub cert_data: Vec<u8>,
    pub private_key_data: Vec<u8>,
    pub fingerprint: [u8; 32],
    pub issued_at_ms: i64,
    pub expires_at_ms: i64,
    pub status: CertificateStatus,
}

/// How connections are secured.
#[derive(Debug)]
pub struct SecureConnectionConfig {
    pub use_tls: bool,
    pub cert_file: Option<String>,
    pub key_file: Option<String>,
    pub ca_file: Option<String>,
    pub verify_peer: bool,
    pub certificate_pinning: bool,
    pub rate_limiting: bool,
    pub max_connections_per_ip: usize,
}

/// Connection bookkeeping of one address.
#[derive(Debug)]
pub struct RateLimitInfo {
    pub ip: String,
    pub connection_count: usize,
    pub last_connection_ms: i64,
    pub blocked_until_ms: Option<i64>,
}

/// NTP-style time stamps of a peer.
#[derive(Debug, Clone, Copy)]
pub struct TimeStampPayload {
    pub t2_ns: u64,
    pub t3_ns: u64,
    pub sender_id: [u8; 32],
    pub round: u64,
    pub sig: [u8; 64],
}

/// Local send and receive times of a round trip.
#[derive(Debug, Clone, Copy)]
pub struct TimeEcho {
    pub t1_ns: u64,
    pub t4_ns: u64,
}

/// A new block.
#[derive(Debug, Clone, Copy)]
pub struct BlockAnnouncement {
    pub block_hash: [u8; 32],
    pub height: u64,
    pub timestamp_ms: i64,
}

/// A new transaction.
#[derive(Debug)]
pub struct TransactionAnnouncement {
    pub tx_hash: [u8; 32],
    pub tx_type: String,
    pub timestamp_ms: i64,
}

/// A request for blocks by height.
#[derive(Debug, Clone, Copy)]
pub struct GetBlocksRequest {
    pub start_height: u64,
    pub end_height: u64,
    pub max_blocks: u32,
}

/// A block sent to a peer.
#[derive(Debug)]
pub struct BlockData {
    pub block_hash: [u8; 32],
    pub height: u64,
    pub data: Vec<u8>,
    pub timestamp_ms: i64,
}

/// A request for peers.
#[derive(Debug, Clone, Copy)]
pub struct GetPeersRequest {
    pub max_peers: u32,
}

/// The greeting of a peer.
#[derive(Debug)]
pub struct HandshakeMessage {
    pub node_id: [u8; 32],
    pub address: String,
    pub version: u32,
    pub features: Vec<String>,
    pub timestamp_ms: i64,
    pub cert_fingerprint: Option<[u8; 32]>,
}

/// State of a connection.
#[derive(Debug, Clone, Copy, PartialEq, Eq, Structural)]
pub enum ConnectionState {
    Connecting,
    Connected,
    TlsHandshaking,
    Handshaking,
    Ready,
    Disconnected,
}

/// How a connection is secured.
#[derive(Debug, Clone, Copy, PartialEq, Eq, Structural)]
pub enum SecurityLevel {
    /// No encryption.
    Plain,
    Tls,
    CertificatePinned,
}

/// A certificate verifier that accepts every server certificate.
#[derive(Debug, Clone, Copy)]
pub struct NoCertificateVerification {}

/// Counts of the network state.
#[derive(Debug, Clone, Copy)]
pub struct NetworkStats {
    pub total_connections: usize,
    pub tls_connections: usize,
    pub plain_connections: usize,
    pub total_peers: usize,
    pub tls_enabled: bool,
    pub rate_limiting_enabled: bool,
    pub node_certificate_configured: bool,
}

// ---------------------------------------------------------------------------
// Rate limiting

/// The addresses of a list of limits.
pub open spec fn info_keys(ls: Seq<RateLimitInfo>) -> Seq<Seq<char>> {
    ls.map_values(|e: RateLimitInfo| e.ip@)
}

/// The (count, last, blocked-until) of a limit.
pub open spec fn info_state(e: RateLimitInfo) -> (usize, i64, Option<i64>) {
    (e.connection_count, e.last_connection_ms, e.blocked_until_ms)
}

/// What one connection attempt at `now` does to the state of a known
/// address, and whether it is let in.
pub open spec fn attempt(state: (usize, i64, Option<i64>), max: usize, window_s: u64, now: i64) -> ((usize, i64, Option<i64>), bool) {
    let (count, last, blocked) = state;
    if blocked matches Some(b) && now < b {
        (state, false)
    } else if count >= max {
        ((count, last, Some((now + window_s * 1000) as i64)), false)
    } else {
        (((count + 1) as usize, now, None), true)
    }
}

/// Connection limits per address: after `max` connections an address is
/// blocked for the window.
pub struct RateLimiter {
    rate_limits: Vec<RateLimitInfo>,
    max_connections_per_ip: usize,
    rate_limit_window: u64,
}

impl RateLimiter {
    pub closed spec fn entries(&self) -> Seq<RateLimitInfo> {
        self.rate_limits@
    }

    pub closed spec fn max(&self) -> usize {
        self.max_connections_per_ip
    }

    pub closed spec fn window(&self) -> u64 {
        self.rate_limit_window
    }

    /// The state of `ip`, if known.
    pub open spec fn state_of(&self, ip: Seq<char>) -> Option<(usize, i64, Option<i64>)> {
        match info_keys(self.entries()).index_of_first(ip) {
            Some(i) => Some(info_state(self.entries()[i])),
            None => None,
        }
    }

    /// No address known.
    pub fn new(max_connections_per_ip: usize, rate_limit_window: u64) -> (r: Self)
        ensures
            r.entries().len() == 0,
            r.max() == max_connections_per_ip,
            r.window() == rate_limit_window,
    {
        RateLimiter { rate_limits: Vec::new(), max_connections_per_ip, rate_limit_window }
    }

    /// Position of the entry for `ip`.
    fn find(&self, ip: &String) -> (r: Option<usize>)
        ensures
            match r {
                Some(i) => i < self.entries().len() && info_keys(self.entries()).index_of_first(ip@) == Some(i as int),
                None => info_keys(self.entries()).index_of_first(ip@) is None,
            },
    {
        let mut i: usize = 0;
        while i < self.rate_limits.len()
            invariant
                i <= self.rate_limits@.len(),
                forall|j: int| 0 <= j < i ==> self.rate_limits@[j].ip@ != ip@,
            decreases self.rate_limits@.len() - i,
        {
            if self.rate_limits[i].ip == *ip {
                proof {
                    let ks = info_keys(self.rate_limits@);
                    ks.index_of_first_ensures(ip@);
                    assert(ks[i as int] == ip@);
                    let f = ks.index_of_first(ip@)->0;
                    if f < i {
                        assert(ks[f] == self.rate_limits@[f].ip@);
                    }
                }
                return Some(i);
            }
            i = i + 1;
        }
        proof {
            let ks = info_keys(self.rate_limits@);
            ks.index_of_first_ensures(ip@);
            if ks.contains(ip@) {
                let j = choose|j: int| 0 <= j < ks.len() && ks[j] == ip@;
                assert(self.rate_limits@[j].ip@ == ip@);
            }
        }
        None
    }

    /// Decides a connection attempt from `ip` at `now`: a blocked address
    /// is refused until the block ends; an address at its cap is refused and
    /// blocked for the window; otherwise the attempt counts and is let in.
    /// An unknown address is let in and starts at one connection.
    pub fn is_connection_allowed(&mut self, ip: &str, now_ms: i64) -> (allowed: bool)
        requires
            old(self).window() <= 9223372036854775,
            now_ms as int + old(self).window() * 1000 <= i64::MAX,
        ensures
            final(self).max() == old(self).max(),
            final(self).window() == old(self).window(),
            info_keys(final(self).entries()) == (match old(self).state_of(ip@) {
                Some(_) => info_keys(old(self).entries()),
                None => info_keys(old(self).entries()).push(ip@),
            }),
            forall|k: Seq<char>| k != ip@ ==> #[trigger] final(self).state_of(k) == old(self).state_of(k),
            match old(self).state_of(ip@) {
                Some(s) => {
                    let (ns, ok) = attempt(s, old(self).max(), old(self).window(), now_ms);
                    final(self).state_of(ip@) == Some(ns) && allowed == ok
                },
                None => final(self).state_of(ip@) == Some((1usize, now_ms, None::<i64>)) && allowed,
            },
    {
        let key = owned(ip);
        let ghost before = self.rate_limits@;
        match self.find(&key) {
            None => {
                self.rate_limits.push(RateLimitInfo {
                    ip: key,
                    connection_count: 1,
                    last_connection_ms: now_ms,
                    blocked_until_ms: None,
                });
                proof {
                    let ks = info_keys(before);
                    let nks = info_keys(self.rate_limits@);
                    assert(nks =~= ks.push(ip@));
                    ks.index_of_first_ensures(ip@);
                    assert(nks[ks.len() as int] == ip@);
                    assert(nks.contains(ip@));
                    nks.index_of_first_ensures(ip@);
                    let f = nks.index_of_first(ip@)->0;
                    if f < ks.len() {
                        assert(nks[f] == ks[f]);
                        assert(ks.contains(ip@));
                    }
                    assert(f == ks.len());
                    assert(self.state_of(ip@) == Some(info_state(self.rate_limits@[f])));
                    assert forall|k: Seq<char>| k != ip@ implies #[trigger] self.state_of(k) == old(self).state_of(k) by {
                        ks.index_of_first_ensures(k);
                        nks.index_of_first_ensures(k);
                        if let Some(j) = ks.index_of_first(k) {
                            let g = nks.index_of_first(k)->0;
                            assert(nks[j] == k);
                            if g < j {
                                assert(ks[g] == nks[g]);
                            }
                        } else if nks.contains(k) {
                            let g = nks.index_of_first(k)->0;
                            assert(g < ks.len());
                            assert(ks[g] == k);
                        }
                    }
                }
                true
            },
            Some(i) => {
                let mut e = self.rate_limits.remove(i);
                let mut allowed = true;
                let mut decided = false;
                match e.blocked_until_ms {
                    Some(b) => {
                        if now_ms < b {
                            allowed = false;
                            decided = true;
                        } else {
                            e.blocked_until_ms = None;
                        }
                    },
                    None => {},
                }
                if !decided {
                    if e.connection_count >= self.max_connections_per_ip {
                        e.blocked_until_ms = Some(now_ms + (self.rate_limit_window * 1000) as i64);
                        allowed = false;
                    } else {
                        e.connection_count = e.connection_count + 1;
                        e.last_connection_ms = now_ms;
                    }
                }
                self.rate_limits.insert(i, e);
                proof {
                    let ks = info_keys(before);
                    let nks = info_keys(self.rate_limits@);
                    assert(self.rate_limits@ =~= before.update(i as int, self.rate_limits@[i as int]));
                    ks.index_of_first_ensures(ip@);
                    assert(ks[i as int] == before[i as int].ip@);
                    assert(nks =~= ks);
                    assert(old(self).state_of(ip@) == Some(info_state(before[i as int])));
                    assert(self.state_of(ip@) == Some(info_state(self.rate_limits@[i as int])));
                    assert forall|k: Seq<char>| k != ip@ implies #[trigger] self.state_of(k) == old(self).state_of(k) by {
                        ks.index_of_first_ensures(k);
                        if let Some(j) = ks.index_of_first(k) {
                            assert(j != i);
                        }
                    }
                }
                allowed
            },
        }
    }

    /// One connection of `ip` closed (the count does not go below zero).
    pub fn remove_connection(&mut self, ip: &str)
        ensures
            final(self).max() == old(self).max(),
            final(self).window() == old(self).window(),
            info_keys(final(self).entries()) == info_keys(old(self).entries()),
            forall|k: Seq<char>| k != ip@ ==> #[trigger] final(self).state_of(k) == old(self).state_of(k),
            match old(self).state_of(ip@) {
                Some(s) => final(self).state_of(ip@) == Some((if s.0 > 0 { (s.0 - 1) as usize } else { 0usize }, s.1, s.2)),
                None => final(self).state_of(ip@) is None,
            },
    {
        let key = owned(ip);
        let ghost before = self.rate_limits@;
        match self.find(&key) {
            None => {},
            Some(i) => {
                let mut e = self.rate_limits.remove(i);
                if e.connection_count > 0 {
                    e.connection_count = e.connection_count - 1;
                }
                self.rate_limits.insert(i, e);
                proof {
                    let ks = info_keys(before);
                    let nks = info_keys(self.rate_limits@);
                    assert(self.rate_limits@ =~= before.update(i as int, self.rate_limits@[i as int]));
                    ks.index_of_first_ensures(ip@);
                    assert(ks[i as int] == before[i as int].ip@);
                    assert(nks =~= ks);
                    assert forall|k: Seq<char>| k != ip@ implies #[trigger] self.state_of(k) == old(self).state_of(k) by {
                        ks.index_of_first_ensures(k);
                        if let Some(j) = ks.index_of_first(k) {
                            assert(j != i);
                        }
                    }
                }
            },
        }
    }
}

// ---------------------------------------------------------------------------
// Certificates

/// Lower-case hexadecimal digit for `d` (below 16).
pub open spec fn hex_digit(d: u8) -> char {
    if d < 10 { (('0' as u8) + d) as char } else { (('a' as u8) + d - 10) as char }
}

/// Lower-case hexadecimal rendering of `bs`, two digits per byte.
pub open spec fn hex_of(bs: Seq<u8>) -> Seq<char>
    decreases bs.len(),
{
    if bs.len() == 0 {
        Seq::empty()
    } else {
        hex_of(bs.drop_last()) + seq![hex_digit(bs.last() / 16), hex_digit(bs.last() % 16)]
    }
}

/// Random bytes from rand's thread RNG (`RngCore::fill_bytes`); only their
/// number is claimed.
#[verifier::external_body]
pub(crate) fn random_bytes(n: usize) -> (r: Vec<u8>)
    ensures
        r@.len() == n,
{
    let mut v = vec![0u8; n];
    rand::RngCore::fill_bytes(&mut rand::thread_rng(), &mut v);
    v
}

/// Thirty-two random bytes from rand's thread RNG; nothing is claimed of
/// them.
#[verifier::external_body]
fn random_fingerprint() -> [u8; 32] {
    let mut f = [0u8; 32];
    rand::RngCore::fill_bytes(&mut rand::thread_rng(), &mut f);
    f
}

/// Lower-case hex of `bs`, as `hex::encode` renders it.
#[verifier::external_body]
pub(crate) fn hex_encode(bs: &[u8]) -> (s: String)
    ensures
        s@ == hex_of(bs@),
{
    hex::encode(bs)
}

/// This node's certificate, trusted certificates and revoked ids.
pub struct CertificateManager {
    node_certificate: Option<CertificateInfo>,
    trusted_certificates: Vec<CertificateInfo>,
    revoked_certificates: Vec<(String, i64)>,
}

/// The ids of a list of certificates.
pub open spec fn cert_ids(cs: Seq<CertificateInfo>) -> Seq<Seq<char>> {
    cs.map_values(|c: CertificateInfo| c.cert_id@)
}

/// The ids of a revocation list.
pub open spec fn revoked_ids(rs: Seq<(String, i64)>) -> Seq<Seq<char>> {
    rs.map_values(|r: (String, i64)| r.0@)
}

/// The fingerprints of a list of certificates.
pub open spec fn fingerprints(cs: Seq<CertificateInfo>) -> Seq<Seq<u8>> {
    cs.map_values(|c: CertificateInfo| c.fingerprint@)
}

impl CertificateManager {
    pub closed spec fn node_cert(&self) -> Option<CertificateInfo> {
        self.node_certificate
    }

    pub closed spec fn trusted(&self) -> Seq<CertificateInfo> {
        self.trusted_certificates@
    }

    pub closed spec fn revoked(&self) -> Seq<(String, i64)> {
        self.revoked_certificates@
    }

    /// No certificates.
    pub fn new() -> (m: Self)
        ensures
            m.node_cert() is None,
            m.trusted().len() == 0,
            m.revoked().len() == 0,
    {
        CertificateManager { node_certificate: None, trusted_certificates: Vec::new(), revoked_certificates: Vec::new() }
    }

    /// Makes a self-signed certificate for `node_id`: id "cert_" and the hex
    /// of the first 8 id bytes, 1024 random certificate bytes, 512 random key
    /// bytes, a random fingerprint, valid for one year from `now`.
    pub fn generate_self_signed_cert(&mut self, node_id: &[u8; 32], now_ms: i64)
        requires
            now_ms <= i64::MAX - 31536000000,
        ensures
            final(self).node_cert() matches Some(c) && c.cert_id@ == "cert_"@ + hex_of(node_id@.take(8))
                && c.cert_data@.len() == 1024 && c.private_key_data@.len() == 512 && c.issued_at_ms == now_ms
                && c.expires_at_ms == now_ms + 31536000000 && c.status == CertificateStatus::Valid,
            final(self).trusted() == old(self).trusted(),
            final(self).revoked() == old(self).revoked(),
    {
        let prefix = vstd::slice::slice_subrange(node_id.as_slice(), 0, 8);
        let hex = hex_encode(prefix);
        let cert_id = concat("cert_", hex.as_str());
        let cert = CertificateInfo {
            cert_id,
            cert_data: random_bytes(1024),
            private_key_data: random_bytes(512),
            fingerprint: random_fingerprint(),
            issued_at_ms: now_ms,
            expires_at_ms: now_ms + 31536000000,
            status: CertificateStatus::Valid,
        };
        self.node_certificate = Some(cert);
    }

    /// This node's certificate.
    pub fn get_node_certificate(&self) -> (r: Option<&CertificateInfo>)
        ensures
            match r {
                Some(c) => self.node_cert() == Some(*c),
                None => self.node_cert() is None,
            },
    {
        match &self.node_certificate {
            Some(c) => Some(c),
            None => None,
        }
    }

    /// Trusts `cert_info` (replacing a trusted certificate with its id).
    pub fn add_trusted_certificate(&mut self, cert_info: CertificateInfo)
        ensures
            final(self).node_cert() == old(self).node_cert(),
            final(self).revoked() == old(self).revoked(),
            cert_ids(final(self).trusted()).contains(cert_info.cert_id@),
            forall|i: int| 0 <= i < final(self).trusted().len() && final(self).trusted()[i].cert_id@ != cert_info.cert_id@
                ==> old(self).trusted().contains(#[trigger] final(self).trusted()[i]),
            forall|i: int| 0 <= i < old(self).trusted().len() && old(self).trusted()[i].cert_id@ != cert_info.cert_id@
                ==> final(self).trusted().contains(#[trigger] old(self).trusted()[i]),
            forall|i: int| 0 <= i < final(self).trusted().len() && final(self).trusted()[i].cert_id@ == cert_info.cert_id@
                ==> #[trigger] final(self).trusted()[i] == cert_info,
    {
        let mut kept: Vec<CertificateInfo> = Vec::new();
        let ghost old_t = self.trusted_certificates@;
        let mut old_list: Vec<CertificateInfo> = Vec::new();
        std::mem::swap(&mut old_list, &mut self.trusted_certificates);
        let ghost mut i: int = 0;
        while old_list.len() > 0
            invariant
                0 <= i <= old_t.len(),
                old_list@ == old_t.skip(i),
                forall|k: int| 0 <= k < kept@.len() ==> (#[trigger] kept@[k]).cert_id@ != cert_info.cert_id@ && old_t.contains(kept@[k]),
                forall|k: int| 0 <= k < i && old_t[k].cert_id@ != cert_info.cert_id@ ==> kept@.contains(#[trigger] old_t[k]),
            decreases old_list@.len(),
        {
            let ghost before = kept@;
            let c = old_list.remove(0);
            proof {
                assert(c == old_t[i]);
                assert(old_list@ =~= old_t.skip(i + 1));
            }
            if c.cert_id != cert_info.cert_id {
                kept.push(c);
                proof {
                    assert(kept@[kept@.len() - 1] == old_t[i]);
                    assert forall|k: int| 0 <= k < i + 1 && old_t[k].cert_id@ != cert_info.cert_id@ implies kept@.contains(#[trigger] old_t[k]) by {
                        if k < i {
                            let j = choose|j: int| 0 <= j < before.len() && before[j] == old_t[k];
                            assert(kept@[j] == before[j]);
                        } else {
                            assert(kept@[kept@.len() - 1] == old_t[k]);
                        }
                    }
                }
            }
            proof {
                i = i + 1;
            }
        }
        let ghost before = kept@;
        kept.push(cert_info);
        proof {
            assert(cert_ids(kept@)[kept@.len() - 1] == cert_info.cert_id@);
            assert forall|k: int| 0 <= k < old_t.len() && old_t[k].cert_id@ != cert_info.cert_id@ implies kept@.contains(#[trigger] old_t[k]) by {
                let j = choose|j: int| 0 <= j < before.len() && before[j] == old_t[k];
                assert(kept@[j] == before[j]);
            }
        }
        self.trusted_certificates = kept;
    }

    /// Whether some trusted certificate has fingerprint `fp`.
    pub fn is_certificate_trusted(&self, fp: &[u8; 32]) -> (b: bool)
        ensures
            b == fingerprints(self.trusted()).contains(fp@),
    {
        let mut i: usize = 0;
        while i < self.trusted_certificates.len()
            invariant
                i <= self.trusted_certificates@.len(),
                forall|j: int| 0 <= j < i ==> self.trusted_certificates@[j].fingerprint@ != fp@,
            decreases self.trusted_certificates@.len() - i,
        {
            if crate::round::same_bytes(&self.trusted_certificates[i].fingerprint, fp) {
                assert(fingerprints(self.trusted_certificates@)[i as int] == fp@);
                return true;
            }
            i = i + 1;
        }
        proof {
            if fingerprints(self.trusted_certificates@).contains(fp@) {
                let j = choose|j: int| 0 <= j < self.trusted_certificates@.len() && fingerprints(self.trusted_certificates@)[j] == fp@;
                assert(self.trusted_certificates@[j].fingerprint@ == fp@);
            }
        }
        false
    }

    /// Whether `cert_id` is revoked.
    pub fn is_certificate_revoked(&self, cert_id: &str) -> (b: bool)
        ensures
            b == revoked_ids(self.revoked()).contains(cert_id@),
    {
        let key = owned(cert_id);
        let mut i: usize = 0;
        while i < self.revoked_certificates.len()
            invariant
                i <= self.revoked_certificates@.len(),
                key@ == cert_id@,
                forall|j: int| 0 <= j < i ==> self.revoked_certificates@[j].0@ != cert_id@,
            decreases self.revoked_certificates@.len() - i,
        {
            if self.revoked_certificates[i].0 == key {
                assert(revoked_ids(self.revoked_certificates@)[i as int] == cert_id@);
                return true;
            }
            i = i + 1;
        }
        proof {
            if revoked_ids(self.revoked_certificates@).contains(cert_id@) {
                let j = choose|j: int| 0 <= j < self.revoked_certificates@.len() && revoked_ids(self.revoked_certificates@)[j] == cert_id@;
                assert(self.revoked_certificates@[j].0@ == cert_id@);
            }
        }
        false
    }

    /// Revokes `cert_id` at `now`.
    pub fn revoke_certificate(&mut self, cert_id: String, now_ms: i64)
        ensures
            final(self).node_cert() == old(self).node_cert(),
            final(self).trusted() == old(self).trusted(),
            revoked_ids(final(self).revoked()).contains(cert_id@),
            forall|k: Seq<char>| revoked_ids(old(self).revoked()).contains(k) ==> #[trigger] revoked_ids(final(self).revoked()).contains(k),
    {
        let ghost before = self.revoked_certificates@;
        let ghost id = cert_id@;
        self.revoked_certificates.push((cert_id, now_ms));
        proof {
            assert(revoked_ids(self.revoked_certificates@) =~= revoked_ids(before).push(id));
            assert(revoked_ids(self.revoked_certificates@)[before.len() as int] == id);
            assert forall|k: Seq<char>| revoked_ids(before).contains(k) implies #[trigger] revoked_ids(self.revoked_certificates@).contains(k) by {
                let j = choose|j: int| 0 <= j < revoked_ids(before).len() && revoked_ids(before)[j] == k;
                assert(revoked_ids(self.revoked_certificates@)[j] == k);
            }
        }
    }
}

} // verus!

verus! {

/// A blocked address stays refused until its block ends, and a refused
/// attempt while blocked changes nothing; closing connections (which only
/// lowers the count) does not lift the block either.
pub proof fn lemma_block_holds_until_it_ends(state: (usize, i64, Option<i64>), max: usize, window_s: u64, now: i64)
    requires
        state.2 matches Some(b) && now < b,
    ensures
        attempt(state, max, window_s, now) == (state, false),
        attempt((if state.0 > 0 { (state.0 - 1) as usize } else { 0usize }, state.1, state.2), max, window_s, now).1 == false,
{
}

/// An address at its cap is refused and blocked for the window.
pub proof fn lemma_cap_blocks(state: (usize, i64, Option<i64>), max: usize, window_s: u64, now: i64)
    requires
        state.0 >= max,
        !(state.2 matches Some(b) && now < b),
    ensures
        attempt(state, max, window_s, now) == ((state.0, state.1, Some((now + window_s * 1000) as i64)), false),
{
}

/// Below its cap and not blocked, an address is let in and its count grows
/// by one; from no connections, `max` attempts in a row are all let in.
pub proof fn lemma_first_max_attempts_pass(max: usize, window_s: u64, now: i64, k: nat)
    requires
        k < max,
    ensures
        attempt((k as usize, now, None), max, window_s, now) == (((k + 1) as usize, now, None::<i64>), true),
{
}


/// A known peer; `score` is in millionths, `last_seen_ms` in milliseconds
/// since the Unix epoch.
#[derive(Debug)]
pub struct PeerInfo {
    pub address: String,
    pub port: u16,
    pub last_seen_ms: i64,
    pub score: u32,
    pub cert_fingerprint: Option<[u8; 32]>,
}

/// A connection as the network keeps it; its streams belong to the
/// transport.
#[derive(Debug)]
pub struct SecureP2PConnection {
    pub id: String,
    pub remote_addr: String,
    pub state: ConnectionState,
    pub last_activity_ms: i64,
    pub score: u32,
    pub cert_fingerprint: Option<[u8; 32]>,
    pub security_level: SecurityLevel,
}

/// The settings of the security layer derived from the connection settings:
/// TLS, pinning, mutual TLS (with peer verification), rate limiting and the
/// per-address limit as configured; message encryption, connection
/// authentication, flood protection and forward secrecy on; strict
/// validation with peer verification; 30-second timeout; no
/// quantum-resistant encryption.
pub open spec fn security_config_for(c: SecureConnectionConfig) -> NetworkSecurityConfig {
    NetworkSecurityConfig {
        enable_tls: c.use_tls,
        enable_certificate_pinning: c.certificate_pinning,
        enable_mutual_tls: c.verify_peer,
        enable_message_encryption: true,
        enable_connection_auth: true,
        enable_rate_limiting: c.rate_limiting,
        enable_ddos_protection: true,
        max_connections_per_ip: c.max_connections_per_ip,
        connection_timeout: 30,
        strict_certificate_validation: c.verify_peer,
        enable_pfs: true,
        enable_quantum_resistant: false,
    }
}

/// Whether a connection counts as secured by TLS.
pub open spec fn is_tls(level: SecurityLevel) -> bool {
    level == SecurityLevel::Tls || level == SecurityLevel::CertificatePinned
}

/// The number of TLS connections in `cs`.
pub open spec fn tls_count(cs: Seq<SecureP2PConnection>) -> nat
    decreases cs.len(),
{
    if cs.len() == 0 {
        0
    } else {
        tls_count(cs.drop_last()) + if is_tls(cs.last().security_level) { 1nat } else { 0nat }
    }
}

/// A TLS-capable peer-to-peer node: its identity and addresses, its
/// connections and known peers, its certificate, the per-address connection
/// limits and the settings of its security layer.
pub struct SecureP2PNetwork {
    node_id: [u8; 32],
    node_address: String,
    listen_addr: String,
    connections: Vec<SecureP2PConnection>,
    known_peers: Vec<PeerInfo>,
    protocol_version: u32,
    max_connections: usize,
    connection_timeout_secs: u64,
    security_config: NetworkSecurityConfig,
    certificate_manager: CertificateManager,
    rate_limiter: RateLimiter,
    secure_config: SecureConnectionConfig,
}

impl SecureP2PNetwork {
    pub closed spec fn node(&self) -> [u8; 32] {
        self.node_id
    }

    pub closed spec fn address(&self) -> Seq<char> {
        self.node_address@
    }

    pub closed spec fn listen(&self) -> Seq<char> {
        self.listen_addr@
    }

    pub closed spec fn conns(&self) -> Seq<SecureP2PConnection> {
        self.connections@
    }

    pub closed spec fn peers(&self) -> Seq<PeerInfo> {
        self.known_peers@
    }

    pub closed spec fn version(&self) -> u32 {
        self.protocol_version
    }

    pub closed spec fn connection_limit(&self) -> usize {
        self.max_connections
    }

    pub closed spec fn timeout_secs(&self) -> u64 {
        self.connection_timeout_secs
    }

    pub closed spec fn security(&self) -> NetworkSecurityConfig {
        self.security_config
    }

    pub closed spec fn certificates(&self) -> CertificateManager {
        self.certificate_manager
    }

    pub closed spec fn limiter(&self) -> RateLimiter {
        self.rate_limiter
    }

    pub closed spec fn settings(&self) -> SecureConnectionConfig {
        self.secure_config
    }

    /// A node with no connections or peers, protocol version 1, up to 100
    /// connections with a 30-second timeout, the security settings derived
    /// from `secure_config`, a self-signed certificate made at `now_ms`, and
    /// a limit of `max_connections_per_ip` per address over five-minute
    /// windows.
    pub fn new(
        node_id: [u8; 32],
        node_address: String,
        listen_addr: String,
        secure_config: SecureConnectionConfig,
        now_ms: i64,
    ) -> (r: Result<Self, String>)
        requires
            now_ms <= i64::MAX - 31536000000,
        ensures
            r matches Ok(n) && {
                &&& n.node() == node_id
                &&& n.address() == node_address@
                &&& n.listen() == listen_addr@
                &&& n.conns().len() == 0
                &&& n.peers().len() == 0
                &&& n.version() == 1
                &&& n.connection_limit() == 100
                &&& n.timeout_secs() == 30
                &&& n.security() == security_config_for(secure_config)
                &&& n.certificates().node_cert() matches Some(c) && c.cert_id@ == "cert_"@ + hex_of(node_id@.take(8))
                    && c.issued_at_ms == now_ms && c.expires_at_ms == now_ms + 31536000000
                    && c.status == CertificateStatus::Valid
                &&& n.certificates().trusted().len() == 0
                &&& n.limiter().entries().len() == 0
                &&& n.limiter().max() == secure_config.max_connections_per_ip
                &&& n.limiter().window() == 300
                &&& n.settings() == secure_config
            },
    {
        let security_config = NetworkSecurityConfig {
            enable_tls: secure_config.use_tls,
            enable_certificate_pinning: secure_config.certificate_pinning,
            enable_mutual_tls: secure_config.verify_peer,
            enable_message_encryption: true,
            enable_connection_auth: true,
            enable_rate_limiting: secure_config.rate_limiting,
            enable_ddos_protection: true,
            max_connections_per_ip: secure_config.max_connections_per_ip,
            connection_timeout: 30,
            strict_certificate_validation: secure_config.verify_peer,
            enable_pfs: true,
            enable_quantum_resistant: false,
        };
        let mut certificate_manager = CertificateManager::new();
        certificate_manager.generate_self_signed_cert(&node_id, now_ms);
        let rate_limiter = RateLimiter::new(secure_config.max_connections_per_ip, 300);
        Ok(SecureP2PNetwork {
            node_id,
            node_address,
            listen_addr,
            connections: Vec::new(),
            known_peers: Vec::new(),
            protocol_version: 1,
            max_connections: 100,
            connection_timeout_secs: 30,
            security_config,
            certificate_manager,
            rate_limiter,
            secure_config,
        })
    }

    /// This node's id.
    pub fn node_id(&self) -> (r: [u8; 32])
        ensures
            r == self.node(),
    {
        self.node_id
    }

    /// The address the node listens on.
    pub fn listen_addr(&self) -> (r: &String)
        ensures
            r@ == self.listen(),
    {
        &self.listen_addr
    }

    /// The connection settings.
    pub fn secure_config(&self) -> (r: &SecureConnectionConfig)
        ensures
            *r == self.settings(),
    {
        &self.secure_config
    }

    /// Whether a connection to `ip` may be opened at `now_ms`: refused with
    /// "Rate limited" when the address is over its limit.
    pub fn connect_to_peer(&mut self, ip: &str, now_ms: i64) -> (r: Result<(), String>)
        requires
            old(self).limiter().window() <= 9223372036854775,
            now_ms as int + old(self).limiter().window() * 1000 <= i64::MAX,
        ensures
            final(self).limiter().max() == old(self).limiter().max(),
            final(self).limiter().window() == old(self).limiter().window(),
            match old(self).limiter().state_of(ip@) {
                Some(st) => {
                    let (ns, ok) = attempt(st, old(self).limiter().max(), old(self).limiter().window(), now_ms);
                    final(self).limiter().state_of(ip@) == Some(ns) && (r is Ok <==> ok)
                },
                None => final(self).limiter().state_of(ip@) == Some((1usize, now_ms, None::<i64>)) && r is Ok,
            },
            forall|k: Seq<char>| k != ip@ ==> #[trigger] final(self).limiter().state_of(k) == old(self).limiter().state_of(k),
            r matches Err(e) ==> e@ == "Rate limited"@,
            final(self).conns() == old(self).conns(),
            final(self).peers() == old(self).peers(),
            final(self).settings() == old(self).settings(),
            final(self).certificates() == old(self).certificates(),
    {
        if !self.rate_limiter.is_connection_allowed(ip, now_ms) {
            return Err(owned("Rate limited"));
        }
        Ok(())
    }

    /// Counts of connections (TLS and certificate-pinned ones count as
    /// TLS), peers and settings.
    pub fn get_network_stats(&self) -> (s: NetworkStats)
        ensures
            s.total_connections == self.conns().len(),
            s.tls_connections == tls_count(self.conns()),
            s.plain_connections == self.conns().len() - tls_count(self.conns()),
            s.total_peers == self.peers().len(),
            s.node_certificate_configured == self.certificates().node_cert() is Some,
            s.tls_enabled == self.settings().use_tls,
            s.rate_limiting_enabled == self.settings().rate_limiting,
    {
        let mut tls: usize = 0;
        let mut i: usize = 0;
        while i < self.connections.len()
            invariant
                i <= self.connections@.len(),
                tls == tls_count(self.connections@.take(i as int)),
                tls <= i,
            decreases self.connections@.len() - i,
        {
            proof {
                assert(self.connections@.take(i as int + 1).drop_last() =~= self.connections@.take(i as int));
            }
            let level = self.connections[i].security_level;
            if level == SecurityLevel::Tls || level == SecurityLevel::CertificatePinned {
                tls = tls + 1;
            }
            i = i + 1;
        }
        proof {
            assert(self.connections@.take(self.connections@.len() as int) =~= self.connections@);
        }
        NetworkStats {
            total_connections: self.connections.len(),
            tls_connections: tls,
            plain_connections: self.connections.len() - tls,
            total_peers: self.known_peers.len(),
            node_certificate_configured: self.certificate_manager.get_node_certificate().is_some(),
            tls_enabled: self.secure_config.use_tls,
            rate_limiting_enabled: self.secure_config.rate_limiting,
        }
    }
}

} // verus!
