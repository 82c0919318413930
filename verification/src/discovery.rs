//! Peer discovery: a bounded store of known peers with scores and bans, and
//! the service that fills it from bootstrap peers and discovery messages.

use vstd::prelude::*;
use crate::keyed::{Keyed, keys_of, lookup, stored, removed, find_key, store, remove_key,
    lemma_lookup_stored, lemma_lookup_stored_other, lemma_lookup_removed, lemma_lookup_removed_other};
use crate::strvec::{views, clone_strings};
use crate::text::{decimal, owned, concat, u64_to_string};

verus! {

/// What is known of a peer's reachability.
#[derive(Debug, Clone, Copy, PartialEq, Eq, Structural)]
pub enum PeerStatus {
    Unknown,
    Reachable,
    Unreachable,
    Connected,
}

/// A known peer. `last_seen` is in milliseconds since the Unix epoch;
/// `score` is in millionths (1_000_000 is a perfect score).
#[derive(Debug)]
pub struct PeerInfo {
    pub node_id: [u8; 32],
    pub address: String,
    pub port: u16,
    pub features: Vec<String>,
    pub last_seen: i64,
    pub score: u32,
    pub status: PeerStatus,
}

/// A node announcing itself; the time is in milliseconds since the Unix
/// epoch.
#[derive(Debug)]
pub struct PeerAnnouncement {
    pub node_id: [u8; 32],
    pub address: String,
    pub port: u16,
    pub features: Vec<String>,
    pub timestamp: i64,
    pub signature: Option<Vec<u8>>,
}

/// A request for up to `max_peers` peers.
#[derive(Debug)]
pub struct PeerRequest {
    pub node_id: [u8; 32],
    pub max_peers: u32,
    pub timestamp: i64,
}

/// Peers sent in answer to a request.
#[derive(Debug)]
pub struct PeerResponse {
    pub node_id: [u8; 32],
    pub peers: Vec<PeerInfo>,
    pub timestamp: i64,
}

/// A discovery ping.
#[derive(Debug)]
pub struct PingMessage {
    pub node_id: [u8; 32],
    pub nonce: u64,
    pub timestamp: i64,
}

/// The answer to a discovery ping.
#[derive(Debug)]
pub struct PongMessage {
    pub node_id: [u8; 32],
    pub nonce: u64,
    pub timestamp: i64,
}

/// A message of the discovery protocol.
#[derive(Debug)]
pub enum DiscoveryMessage {
    PeerAnnouncement(PeerAnnouncement),
    PeerRequest(PeerRequest),
    PeerResponse(PeerResponse),
    Ping(PingMessage),
    Pong(PongMessage),
}

/// A peer under its key.
#[derive(Debug)]
pub struct PeerEntry {
    pub key: String,
    pub info: PeerInfo,
}

/// A score under a peer key, in millionths.
#[derive(Debug)]
pub struct ScoreEntry {
    pub key: String,
    pub score: u32,
}

/// A ban under a peer key, until a time in milliseconds since the Unix
/// epoch.
#[derive(Debug)]
pub struct BanEntry {
    pub key: String,
    pub until: i64,
}

impl Keyed for PeerEntry {
    open spec fn key_view(&self) -> Seq<char> {
        self.key@
    }

    fn key(&self) -> (k: &String) {
        &self.key
    }
}

impl Keyed for ScoreEntry {
    open spec fn key_view(&self) -> Seq<char> {
        self.key@
    }

    fn key(&self) -> (k: &String) {
        &self.key
    }
}

impl Keyed for BanEntry {
    open spec fn key_view(&self) -> Seq<char> {
        self.key@
    }

    fn key(&self) -> (k: &String) {
        &self.key
    }
}

/// The key of a peer: its address, a colon and its port.
pub open spec fn peer_key(address: Seq<char>, port: u16) -> Seq<char> {
    address + ":"@ + decimal(port as nat)
}

/// The key of the peer at `address` and `port`.
pub fn make_peer_key(address: &str, port: u16) -> (k: String)
    ensures
        k@ == peer_key(address@, port),
{
    let head = concat(address, ":");
    let p = u64_to_string(port as u64);
    concat(head.as_str(), p.as_str())
}

/// Whether `a` and `b` describe the same peer.
pub open spec fn same_peer(a: PeerInfo, b: PeerInfo) -> bool {
    &&& a.node_id == b.node_id
    &&& a.address@ == b.address@
    &&& a.port == b.port
    &&& views(a.features@) == views(b.features@)
    &&& a.last_seen == b.last_seen
    &&& a.score == b.score
    &&& a.status == b.status
}

/// Copies a peer's description.
pub fn copy_peer(p: &PeerInfo) -> (c: PeerInfo)
    ensures
        same_peer(c, *p),
{
    PeerInfo {
        node_id: p.node_id,
        address: p.address.clone(),
        port: p.port,
        features: clone_strings(&p.features),
        last_seen: p.last_seen,
        score: p.score,
        status: p.status,
    }
}

/// The score a peer gets when it is added: a perfect one.
pub open spec fn initial_score() -> u32 {
    1_000_000
}

/// `score` kept between 0 and 1_000_000.
pub open spec fn clamped(score: i64) -> u32 {
    if score < 0 { 0 } else if score > 1_000_000 { 1_000_000 } else { score as u32 }
}

/// The score of the peer under `k`: the one kept, else zero.
pub open spec fn score_of(scores: Seq<ScoreEntry>, k: Seq<char>) -> u32 {
    match lookup(scores, k) {
        Some(e) => e.score,
        None => 0,
    }
}

/// Whether a ban on `k` still holds at `now_ms`.
pub open spec fn banned_at(bans: Seq<BanEntry>, k: Seq<char>, now_ms: i64) -> bool {
    match lookup(bans, k) {
        Some(b) => now_ms < b.until,
        None => false,
    }
}

/// The peers of `ps` whose score is at least `min`, in order.
pub open spec fn peers_scoring(ps: Seq<PeerEntry>, scores: Seq<ScoreEntry>, min: u32) -> Seq<PeerEntry>
    decreases ps.len(),
{
    if ps.len() == 0 {
        Seq::empty()
    } else {
        let rest = peers_scoring(ps.drop_last(), scores, min);
        if score_of(scores, ps.last().key@) >= min { rest.push(ps.last()) } else { rest }
    }
}

/// The bans of `bs` still in force after `now_ms`, in order.
pub open spec fn bans_after(bs: Seq<BanEntry>, now_ms: i64) -> Seq<BanEntry>
    decreases bs.len(),
{
    if bs.len() == 0 {
        Seq::empty()
    } else {
        let rest = bans_after(bs.drop_last(), now_ms);
        if bs.last().until > now_ms { rest.push(bs.last()) } else { rest }
    }
}

/// Known peers by key, with their scores and bans, up to `max_peers` peers.
pub struct Peerstore {
    peers: Vec<PeerEntry>,
    scores: Vec<ScoreEntry>,
    bans: Vec<BanEntry>,
    max_peers: usize,
}

impl Peerstore {
    /// The peers, in the order they were first added.
    pub closed spec fn peers(&self) -> Seq<PeerEntry> {
        self.peers@
    }

    /// The scores kept, by peer key.
    pub closed spec fn scores(&self) -> Seq<ScoreEntry> {
        self.scores@
    }

    /// The bans kept, by peer key.
    pub closed spec fn bans(&self) -> Seq<BanEntry> {
        self.bans@
    }

    /// How many peers the store takes.
    pub closed spec fn capacity(&self) -> nat {
        self.max_peers as nat
    }

    /// Keys are distinct in each table, and each peer is kept under the key
    /// of its address and port.
    pub open spec fn wf(&self) -> bool {
        &&& keys_of(self.peers()).no_duplicates()
        &&& keys_of(self.scores()).no_duplicates()
        &&& keys_of(self.bans()).no_duplicates()
        &&& forall|i: int| 0 <= i < self.peers().len() ==>
            (#[trigger] self.peers()[i]).key@ == peer_key(self.peers()[i].info.address@, self.peers()[i].info.port)
    }

    /// An empty store for up to `max_peers` peers.
    pub fn new(max_peers: usize) -> (s: Self)
        ensures
            s.wf(),
            s.peers().len() == 0,
            s.scores().len() == 0,
            s.bans().len() == 0,
            s.capacity() == max_peers,
    {
        Peerstore { peers: Vec::new(), scores: Vec::new(), bans: Vec::new(), max_peers }
    }

    /// Adds `peer_info` under its key with a perfect score, replacing what
    /// was kept under that key; nothing changes while the store is full.
    pub fn add_peer(&mut self, peer_info: PeerInfo) -> (r: Result<(), String>)
        requires
            old(self).wf(),
        ensures
            r is Ok,
            final(self).wf(),
            final(self).capacity() == old(self).capacity(),
            final(self).bans() == old(self).bans(),
            if old(self).peers().len() < old(self).capacity() {
                &&& exists|e: PeerEntry| #![auto]
                    e.key@ == peer_key(peer_info.address@, peer_info.port) && e.info == peer_info
                    && final(self).peers() == stored(old(self).peers(), e)
                &&& exists|e: ScoreEntry| #![auto]
                    e.key@ == peer_key(peer_info.address@, peer_info.port) && e.score == initial_score()
                    && final(self).scores() == stored(old(self).scores(), e)
            } else {
                &&& final(self).peers() == old(self).peers()
                &&& final(self).scores() == old(self).scores()
            },
    {
        if self.peers.len() < self.max_peers {
            let key = make_peer_key(peer_info.address.as_str(), peer_info.port);
            let score = ScoreEntry { key: key.clone(), score: 1_000_000 };
            let ghost se = score;
            let entry = PeerEntry { key, info: peer_info };
            let ghost pe = entry;
            let ghost before = self.peers@;
            store(&mut self.peers, entry);
            store(&mut self.scores, score);
            proof {
                assert forall|i: int| 0 <= i < self.peers().len() implies
                    (#[trigger] self.peers()[i]).key@ == peer_key(self.peers()[i].info.address@, self.peers()[i].info.port) by {
                    if i < before.len() && self.peers()[i] == before[i] {
                    } else {
                        assert(self.peers()[i] == pe) by {
                            keys_of(before).index_of_first_ensures(pe.key_view());
                        }
                    }
                }
            }
        }
        Ok(())
    }

    /// Forgets the peer at `address` and `port`, with its score and ban.
    pub fn remove_peer(&mut self, address: &str, port: u16) -> (r: Result<(), String>)
        requires
            old(self).wf(),
        ensures
            r is Ok,
            final(self).wf(),
            final(self).capacity() == old(self).capacity(),
            final(self).peers() == removed(old(self).peers(), peer_key(address@, port)),
            final(self).scores() == removed(old(self).scores(), peer_key(address@, port)),
            final(self).bans() == removed(old(self).bans(), peer_key(address@, port)),
    {
        let key = make_peer_key(address, port);
        let ghost before = self.peers@;
        remove_key(&mut self.peers, key.as_str());
        remove_key(&mut self.scores, key.as_str());
        remove_key(&mut self.bans, key.as_str());
        proof {
            keys_of(before).index_of_first_ensures(key@);
            assert forall|i: int| 0 <= i < self.peers().len() implies
                (#[trigger] self.peers()[i]).key@ == peer_key(self.peers()[i].info.address@, self.peers()[i].info.port) by {
                match keys_of(before).index_of_first(key@) {
                    Some(j) => {
                        let i2 = if i < j { i } else { i + 1 };
                        assert(self.peers()[i] == before[i2]);
                    },
                    None => {},
                }
            }
        }
        Ok(())
    }

    /// Sets the score of the peer at `address` and `port` to `score`
    /// (millionths) kept between 0 and 1_000_000.
    pub fn update_peer_score(&mut self, address: &str, port: u16, score: i64) -> (r: Result<(), String>)
        requires
            old(self).wf(),
        ensures
            r is Ok,
            final(self).wf(),
            final(self).capacity() == old(self).capacity(),
            final(self).peers() == old(self).peers(),
            final(self).bans() == old(self).bans(),
            exists|e: ScoreEntry| #![auto]
                e.key@ == peer_key(address@, port) && e.score == clamped(score)
                && final(self).scores() == stored(old(self).scores(), e),
    {
        let key = make_peer_key(address, port);
        let s: u32 = if score < 0 { 0 } else if score > 1_000_000 { 1_000_000 } else { score as u32 };
        let entry = ScoreEntry { key, score: s };
        let ghost e = entry;
        store(&mut self.scores, entry);
        proof {
            assert(e.key@ == peer_key(address@, port) && e.score == clamped(score));
        }
        Ok(())
    }

    /// Bans the peer at `address` and `port` for `duration_minutes` from
    /// `now_ms`.
    pub fn ban_peer(&mut self, address: &str, port: u16, duration_minutes: i64, now_ms: i64) -> (r: Result<(), String>)
        requires
            old(self).wf(),
            i64::MIN <= now_ms + duration_minutes * 60_000 <= i64::MAX,
            i64::MIN <= duration_minutes * 60_000 <= i64::MAX,
        ensures
            r is Ok,
            final(self).wf(),
            final(self).capacity() == old(self).capacity(),
            final(self).peers() == old(self).peers(),
            final(self).scores() == old(self).scores(),
            exists|e: BanEntry| #![auto]
                e.key@ == peer_key(address@, port) && e.until == now_ms + duration_minutes * 60_000
                && final(self).bans() == stored(old(self).bans(), e),
    {
        let key = make_peer_key(address, port);
        let span: i64 = duration_minutes * 60_000;
        let entry = BanEntry { key, until: now_ms + span };
        let ghost e = entry;
        store(&mut self.bans, entry);
        proof {
            assert(e.key@ == peer_key(address@, port) && e.until == now_ms + duration_minutes * 60_000);
        }
        Ok(())
    }

    /// Whether the peer at `address` and `port` is banned at `now_ms`.
    pub fn is_peer_banned(&self, address: &str, port: u16, now_ms: i64) -> (b: bool)
        ensures
            b == banned_at(self.bans(), peer_key(address@, port), now_ms),
    {
        let key = make_peer_key(address, port);
        match find_key(&self.bans, key.as_str()) {
            Some(i) => now_ms < self.bans[i].until,
            None => false,
        }
    }

    /// The score of the peer at `address` and `port`, zero when none is kept.
    pub fn get_peer_score(&self, address: &str, port: u16) -> (s: u32)
        ensures
            s == score_of(self.scores(), peer_key(address@, port)),
    {
        let key = make_peer_key(address, port);
        match find_key(&self.scores, key.as_str()) {
            Some(i) => self.scores[i].score,
            None => 0,
        }
    }

    /// Copies of all peers.
    pub fn get_all_peers(&self) -> (r: Vec<PeerInfo>)
        ensures
            r@.len() == self.peers().len(),
            forall|i: int| 0 <= i < r@.len() ==> same_peer(#[trigger] r@[i], self.peers()[i].info),
    {
        let mut r: Vec<PeerInfo> = Vec::new();
        let mut i: usize = 0;
        while i < self.peers.len()
            invariant
                i <= self.peers@.len(),
                r@.len() == i,
                forall|j: int| 0 <= j < i ==> same_peer(#[trigger] r@[j], self.peers@[j].info),
            decreases self.peers@.len() - i,
        {
            r.push(copy_peer(&self.peers[i].info));
            i = i + 1;
        }
        r
    }

    /// Copies of the peers whose score is at least `min_score`, in order.
    pub fn get_peers_with_min_score(&self, min_score: u32) -> (r: Vec<PeerInfo>)
        ensures
            r@.len() == peers_scoring(self.peers(), self.scores(), min_score).len(),
            forall|i: int| 0 <= i < r@.len() ==>
                same_peer(#[trigger] r@[i], peers_scoring(self.peers(), self.scores(), min_score)[i].info),
    {
        let mut r: Vec<PeerInfo> = Vec::new();
        let mut i: usize = 0;
        while i < self.peers.len()
            invariant
                i <= self.peers@.len(),
                r@.len() == peers_scoring(self.peers@.take(i as int), self.scores@, min_score).len(),
                forall|j: int| 0 <= j < r@.len() ==>
                    same_peer(#[trigger] r@[j], peers_scoring(self.peers@.take(i as int), self.scores@, min_score)[j].info),
            decreases self.peers@.len() - i,
        {
            proof {
                assert(self.peers@.take(i as int + 1).drop_last() =~= self.peers@.take(i as int));
            }
            let s = match find_key(&self.scores, self.peers[i].key.as_str()) {
                Some(k) => self.scores[k].score,
                None => 0,
            };
            if s >= min_score {
                r.push(copy_peer(&self.peers[i].info));
            }
            i = i + 1;
        }
        proof {
            assert(self.peers@.take(self.peers@.len() as int) =~= self.peers@);
        }
        r
    }

    /// Drops the bans that have run out by `now_ms`.
    pub fn cleanup_expired_bans(&mut self, now_ms: i64)
        requires
            old(self).wf(),
        ensures
            final(self).wf(),
            final(self).capacity() == old(self).capacity(),
            final(self).peers() == old(self).peers(),
            final(self).scores() == old(self).scores(),
            final(self).bans() == bans_after(old(self).bans(), now_ms),
    {
        let mut kept: Vec<BanEntry> = Vec::new();
        let mut rest: Vec<BanEntry> = Vec::new();
        core::mem::swap(&mut rest, &mut self.bans);
        let ghost all = rest@;
        for b in it: rest
            invariant
                it.seq() == all,
                kept@ == bans_after(all.take(it.index() as int), now_ms),
        {
            proof {
                assert(all.take(it.index() as int + 1).drop_last() =~= all.take(it.index() as int));
            }
            if b.until > now_ms {
                kept.push(b);
            }
        }
        proof {
            assert(all.take(all.len() as int) =~= all);
            lemma_bans_after_keys(all, now_ms);
        }
        self.bans = kept;
    }
}

/// Dropping bans keeps their keys distinct.
proof fn lemma_bans_after_keys(bs: Seq<BanEntry>, now_ms: i64)
    requires
        keys_of(bs).no_duplicates(),
    ensures
        keys_of(bans_after(bs, now_ms)).no_duplicates(),
        forall|k: Seq<char>| keys_of(bans_after(bs, now_ms)).contains(k) ==> keys_of(bs).contains(k),
    decreases bs.len(),
{
    if bs.len() > 0 {
        let init = bs.drop_last();
        assert(keys_of(init) =~= keys_of(bs).drop_last());
        assert forall|a: int, b: int| 0 <= a < keys_of(init).len() && 0 <= b < keys_of(init).len() && a != b
            implies keys_of(init)[a] != keys_of(init)[b] by {
            assert(keys_of(init)[a] == keys_of(bs)[a] && keys_of(init)[b] == keys_of(bs)[b]);
        }
        lemma_bans_after_keys(init, now_ms);
        let rest = bans_after(init, now_ms);
        let l = bs.last();
        if l.until > now_ms {
            let ks = keys_of(rest);
            let nks = keys_of(rest.push(l));
            assert(nks =~= ks.push(l.key@));
            if ks.contains(l.key@) {
                assert(keys_of(init).contains(l.key@));
                let j = choose|j: int| 0 <= j < keys_of(init).len() && keys_of(init)[j] == l.key@;
                assert(keys_of(bs)[j] == keys_of(bs)[bs.len() - 1]);
            }
            assert forall|a: int, b: int| 0 <= a < nks.len() && 0 <= b < nks.len() && a != b implies nks[a] != nks[b] by {
                if a < ks.len() && b < ks.len() {
                    assert(nks[a] == ks[a] && nks[b] == ks[b]);
                } else if a < ks.len() {
                    assert(nks[a] == ks[a]);
                } else if b < ks.len() {
                    assert(nks[b] == ks[b]);
                }
            }
            assert forall|k: Seq<char>| nks.contains(k) implies keys_of(bs).contains(k) by {
                let j = choose|j: int| 0 <= j < nks.len() && nks[j] == k;
                if j < ks.len() {
                    assert(nks[j] == ks[j]);
                    assert(ks.contains(k));
                    assert(keys_of(init).contains(k));
                    let m = choose|m: int| 0 <= m < keys_of(init).len() && keys_of(init)[m] == k;
                    assert(keys_of(bs)[m] == k);
                } else {
                    assert(keys_of(bs)[bs.len() - 1] == k);
                }
            }
        } else {
            assert forall|k: Seq<char>| keys_of(rest).contains(k) implies keys_of(bs).contains(k) by {
                assert(keys_of(init).contains(k));
                let m = choose|m: int| 0 <= m < keys_of(init).len() && keys_of(init)[m] == k;
                assert(keys_of(bs)[m] == k);
            }
        }
    }
}


/// A bootstrap peer: an IP address, as text, and a port.
#[derive(Debug)]
pub struct BootstrapPeer {
    pub ip: String,
    pub port: u16,
}

/// Ten minutes, in milliseconds: how long a peer may stay unseen.
pub open spec fn stale_after_ms() -> int {
    600_000
}

/// Whether a peer last seen at `last_seen` is stale at `now_ms`.
pub open spec fn is_stale(last_seen: i64, now_ms: i64) -> bool {
    now_ms - last_seen > stale_after_ms()
}

/// The score that counts a peer as reachable: one half.
pub open spec fn reachable_score() -> u32 {
    500_000
}

/// Finds peers and keeps the store of known peers.
pub struct DiscoveryService {
    node_id: [u8; 32],
    peerstore: Peerstore,
    bootstrap_peers: Vec<BootstrapPeer>,
    discovery_interval_secs: u64,
    peer_timeout_secs: u64,
    max_peers: usize,
    running: bool,
}

impl DiscoveryService {
    /// This node's id.
    pub closed spec fn node(&self) -> [u8; 32] {
        self.node_id
    }

    /// The store of known peers.
    pub closed spec fn store(&self) -> Peerstore {
        self.peerstore
    }

    /// The bootstrap peers.
    pub closed spec fn bootstrap(&self) -> Seq<BootstrapPeer> {
        self.bootstrap_peers@
    }

    /// The most peers the service keeps.
    pub closed spec fn peer_limit(&self) -> nat {
        self.max_peers as nat
    }

    /// Seconds between discovery rounds.
    pub closed spec fn interval_secs(&self) -> u64 {
        self.discovery_interval_secs
    }

    /// Seconds after which a peer times out.
    pub closed spec fn timeout_secs(&self) -> u64 {
        self.peer_timeout_secs
    }

    /// Whether the service runs.
    pub closed spec fn is_running(&self) -> bool {
        self.running
    }

    /// The store is well formed.
    pub open spec fn wf(&self) -> bool {
        self.store().wf()
    }

    /// A stopped service for `node_id`, with a store of 100 peers, rounds
    /// every minute and a five-minute peer timeout.
    pub fn new(node_id: [u8; 32], bootstrap_peers: Vec<BootstrapPeer>) -> (r: Result<Self, String>)
        ensures
            r matches Ok(s) && {
                &&& s.wf()
                &&& s.node() == node_id
                &&& s.bootstrap() == bootstrap_peers@
                &&& s.store().peers().len() == 0
                &&& s.store().scores().len() == 0
                &&& s.store().bans().len() == 0
                &&& s.store().capacity() == 100
                &&& s.peer_limit() == 100
                &&& s.interval_secs() == 60
                &&& s.timeout_secs() == 300
                &&& !s.is_running()
            },
    {
        Ok(DiscoveryService {
            node_id,
            peerstore: Peerstore::new(100),
            bootstrap_peers,
            discovery_interval_secs: 60,
            peer_timeout_secs: 300,
            max_peers: 100,
            running: false,
        })
    }

    /// The most peers the service keeps.
    pub fn max_peers(&self) -> (n: usize)
        ensures
            n == self.peer_limit(),
    {
        self.max_peers
    }

    /// The bootstrap peers.
    pub fn bootstrap_peers(&self) -> (r: &Vec<BootstrapPeer>)
        ensures
            r@ == self.bootstrap(),
    {
        &self.bootstrap_peers
    }

    /// Whether the service runs.
    pub fn running(&self) -> (b: bool)
        ensures
            b == self.is_running(),
    {
        self.running
    }

    /// Starting is switched off for now: the service stays as it is.
    pub fn start(&mut self) -> (r: Result<(), String>)
        ensures
            r is Ok,
            *final(self) == *old(self),
    {
        Ok(())
    }

    /// Marks the service stopped.
    pub fn stop(&mut self) -> (r: Result<(), String>)
        ensures
            r is Ok,
            !final(self).is_running(),
            final(self).store() == old(self).store(),
            final(self).bootstrap() == old(self).bootstrap(),
            final(self).node() == old(self).node(),
    {
        self.running = false;
        Ok(())
    }

    /// The announcement of this node at `address` and `port` with
    /// `features`, made at `now_ms`, to be broadcast; it carries no
    /// signature yet.
    pub fn announce_node(&self, address: String, port: u16, features: Vec<String>, now_ms: i64) -> (r: Result<DiscoveryMessage, String>)
        ensures
            r matches Ok(DiscoveryMessage::PeerAnnouncement(a)) && {
                &&& a.node_id == self.node()
                &&& a.address == address
                &&& a.port == port
                &&& a.features == features
                &&& a.timestamp == now_ms
                &&& a.signature is None
            },
    {
        Ok(DiscoveryMessage::PeerAnnouncement(PeerAnnouncement {
            node_id: self.node_id,
            address,
            port,
            features,
            timestamp: now_ms,
            signature: None,
        }))
    }

    /// The request for up to `max_peers` peers, made at `now_ms`, to be
    /// broadcast.
    pub fn request_peers(&self, max_peers: u32, now_ms: i64) -> (r: Result<DiscoveryMessage, String>)
        ensures
            r matches Ok(DiscoveryMessage::PeerRequest(q)) && {
                &&& q.node_id == self.node()
                &&& q.max_peers == max_peers
                &&& q.timestamp == now_ms
            },
    {
        Ok(DiscoveryMessage::PeerRequest(PeerRequest { node_id: self.node_id, max_peers, timestamp: now_ms }))
    }

    /// Adds a peer to the store.
    pub fn add_peer(&mut self, peer_info: PeerInfo) -> (r: Result<(), String>)
        requires
            old(self).wf(),
        ensures
            r is Ok,
            final(self).wf(),
            final(self).bootstrap() == old(self).bootstrap(),
            final(self).node() == old(self).node(),
            final(self).store().capacity() == old(self).store().capacity(),
            final(self).store().bans() == old(self).store().bans(),
            if old(self).store().peers().len() < old(self).store().capacity() {
                &&& exists|e: PeerEntry| #![auto]
                    e.key@ == peer_key(peer_info.address@, peer_info.port) && e.info == peer_info
                    && final(self).store().peers() == stored(old(self).store().peers(), e)
                &&& exists|e: ScoreEntry| #![auto]
                    e.key@ == peer_key(peer_info.address@, peer_info.port) && e.score == initial_score()
                    && final(self).store().scores() == stored(old(self).store().scores(), e)
            } else {
                &&& final(self).store().peers() == old(self).store().peers()
                &&& final(self).store().scores() == old(self).store().scores()
            },
    {
        self.peerstore.add_peer(peer_info)
    }

    /// Removes a peer from the store.
    pub fn remove_peer(&mut self, address: &str, port: u16) -> (r: Result<(), String>)
        requires
            old(self).wf(),
        ensures
            r is Ok,
            final(self).wf(),
            final(self).bootstrap() == old(self).bootstrap(),
            final(self).node() == old(self).node(),
            final(self).store().capacity() == old(self).store().capacity(),
            final(self).store().peers() == removed(old(self).store().peers(), peer_key(address@, port)),
            final(self).store().scores() == removed(old(self).store().scores(), peer_key(address@, port)),
            final(self).store().bans() == removed(old(self).store().bans(), peer_key(address@, port)),
    {
        self.peerstore.remove_peer(address, port)
    }

    /// Copies of the known peers.
    pub fn get_known_peers(&self) -> (r: Vec<PeerInfo>)
        ensures
            r@.len() == self.store().peers().len(),
            forall|i: int| 0 <= i < r@.len() ==> same_peer(#[trigger] r@[i], self.store().peers()[i].info),
    {
        self.peerstore.get_all_peers()
    }

    /// Copies of the peers scoring at least one half.
    pub fn get_reachable_peers(&self) -> (r: Vec<PeerInfo>)
        ensures
            r@.len() == peers_scoring(self.store().peers(), self.store().scores(), reachable_score()).len(),
            forall|i: int| 0 <= i < r@.len() ==>
                same_peer(#[trigger] r@[i], peers_scoring(self.store().peers(), self.store().scores(), reachable_score())[i].info),
    {
        self.peerstore.get_peers_with_min_score(500_000)
    }

    /// How many peers are known.
    pub fn get_peer_count(&self) -> (n: usize)
        ensures
            n == self.store().peers().len(),
    {
        self.peerstore.peers.len()
    }

    /// Adds each bootstrap peer to the store, seen at `now_ms`, with the
    /// feature "bootstrap", half a score and an unknown status. With room
    /// for all of them, each is then found under its key.
    pub fn discover_peers(&mut self, now_ms: i64)
        requires
            old(self).wf(),
        ensures
            final(self).wf(),
            final(self).bootstrap() == old(self).bootstrap(),
            final(self).node() == old(self).node(),
            final(self).store().capacity() == old(self).store().capacity(),
            final(self).store().bans() == old(self).store().bans(),
            final(self).store().peers().len() <= old(self).store().peers().len() + old(self).bootstrap().len(),
            forall|k: Seq<char>| #![auto] lookup(final(self).store().peers(), k) is None ==>
                lookup(old(self).store().peers(), k) is None,
            old(self).store().peers().len() + old(self).bootstrap().len() <= old(self).store().capacity() ==>
                forall|j: int| 0 <= j < old(self).bootstrap().len() ==>
                    bootstrap_found(final(self).store(), #[trigger] old(self).bootstrap()[j], now_ms),
    {
        let mut i: usize = 0;
        while i < self.bootstrap_peers.len()
            invariant
                i <= self.bootstrap_peers@.len(),
                self.wf(),
                self.bootstrap_peers@ == old(self).bootstrap_peers@,
                self.node_id == old(self).node_id,
                self.peerstore.max_peers == old(self).peerstore.max_peers,
                self.peerstore.bans@ == old(self).peerstore.bans@,
                self.peerstore.peers@.len() <= old(self).peerstore.peers@.len() + i,
                forall|k: Seq<char>| #![auto] lookup(self.peerstore.peers@, k) is None ==>
                    lookup(old(self).peerstore.peers@, k) is None,
                old(self).peerstore.peers@.len() + old(self).bootstrap_peers@.len() <= old(self).peerstore.max_peers ==>
                    forall|j: int| 0 <= j < i ==> bootstrap_found(self.peerstore, #[trigger] self.bootstrap_peers@[j], now_ms),
            decreases self.bootstrap_peers@.len() - i,
        {
            let info = PeerInfo {
                node_id: [0u8; 32],
                address: self.bootstrap_peers[i].ip.clone(),
                port: self.bootstrap_peers[i].port,
                features: vec![owned("bootstrap")],
                last_seen: now_ms,
                score: 500_000,
                status: PeerStatus::Unknown,
            };
            let ghost before = self.peerstore.peers@;
            let ghost before_scores = self.peerstore.scores@;
            let ghost k0 = peer_key(info.address@, info.port);
            proof {
                assert(views(info.features@) =~= seq!["bootstrap"@]);
                assert(info.node_id@ =~= Seq::new(32, |i: int| 0u8));
            }
            let ghost ps_before = self.peerstore;
            let _ = self.peerstore.add_peer(info);
            proof {
                if old(self).peerstore.peers@.len() + old(self).bootstrap_peers@.len() <= old(self).peerstore.max_peers {
                    let e = choose|e: PeerEntry| #![auto]
                        e.key@ == k0 && e.info == info && self.peerstore.peers@ == stored(before, e);
                    let se = choose|e: ScoreEntry| #![auto]
                        e.key@ == k0 && e.score == initial_score() && self.peerstore.scores@ == stored(before_scores, e);
                    lemma_lookup_stored(before, e);
                    lemma_lookup_stored(before_scores, se);
                    assert forall|j: int| 0 <= j < i + 1 implies bootstrap_found(self.peerstore, #[trigger] self.bootstrap_peers@[j], now_ms) by {
                        let kj = peer_key(self.bootstrap_peers@[j].ip@, self.bootstrap_peers@[j].port);
                        if kj != k0 {
                            lemma_lookup_stored_other(before, e, kj);
                            lemma_lookup_stored_other(before_scores, se, kj);
                            assert(bootstrap_found(ps_before, self.bootstrap_peers@[j], now_ms));
                        }
                    }
                }
                assert forall|k: Seq<char>| #![auto] lookup(self.peerstore.peers@, k) is None implies
                    lookup(before, k) is None by {
                    if self.peerstore.peers@ != before {
                        let e = choose|e: PeerEntry| #![auto]
                            e.key@ == k0 && self.peerstore.peers@ == stored(before, e);
                        if k == k0 {
                            lemma_lookup_stored(before, e);
                        } else {
                            lemma_lookup_stored_other(before, e, k);
                        }
                    }
                }
                keys_of(before).index_of_first_ensures(k0);
            }
            i = i + 1;
        }
    }
}


/// Whether the bootstrap peer `b` is in `store` as discovery at `now_ms`
/// puts it: no node id yet, the feature "bootstrap", seen at `now_ms`, half
/// a score, unknown status, and a perfect score kept for it.
pub open spec fn bootstrap_found(store: Peerstore, b: BootstrapPeer, now_ms: i64) -> bool {
    let k = peer_key(b.ip@, b.port);
    &&& lookup(store.peers(), k) matches Some(e) && {
        &&& e.info.node_id@ == Seq::new(32, |i: int| 0u8)
        &&& views(e.info.features@) == seq!["bootstrap"@]
        &&& e.info.last_seen == now_ms
        &&& e.info.score == 500_000
        &&& e.info.status == PeerStatus::Unknown
    }
    &&& score_of(store.scores(), k) == initial_score()
}


/// Whether `ps` holds a peer under `k` that is stale at `now_ms`.
pub open spec fn stale_key(ps: Seq<PeerEntry>, k: Seq<char>, now_ms: i64) -> bool {
    exists|j: int| 0 <= j < ps.len() && (#[trigger] ps[j]).key@ == k && is_stale(ps[j].info.last_seen, now_ms)
}

/// Whether one of the first `n` peers of `ps` is under `k` and stale.
pub open spec fn stale_among(ps: Seq<PeerEntry>, k: Seq<char>, n: int, now_ms: i64) -> bool {
    exists|j: int| 0 <= j < n && (#[trigger] ps[j]).key@ == k && is_stale(ps[j].info.last_seen, now_ms)
}

/// What a table holds under `k` once the stale peers' keys are dropped.
pub open spec fn without_stale<T: Keyed>(t: Seq<T>, ps: Seq<PeerEntry>, k: Seq<char>, n: int, now_ms: i64) -> Option<T> {
    if stale_among(ps, k, n, now_ms) { None } else { lookup(t, k) }
}

/// The key of a peer's description.
pub open spec fn info_key(p: PeerInfo) -> Seq<char> {
    peer_key(p.address@, p.port)
}

/// Whether `e` holds, under `k`, the last of the first `n` peers of `ps`
/// with that key.
pub open spec fn holds_last(e: PeerEntry, ps: Seq<PeerInfo>, k: Seq<char>, n: int) -> bool {
    exists|m: int| #![trigger ps[m]]
        0 <= m < n && info_key(ps[m]) == k && e.info == ps[m]
        && forall|m2: int| m < m2 < n ==> info_key(#[trigger] ps[m2]) != k
}

/// Whether `peers` holds under `k` the last of the first `n` of `ps` with
/// that key, and `scores` a perfect score for it.
pub open spec fn kept_last(peers: Seq<PeerEntry>, scores: Seq<ScoreEntry>, ps: Seq<PeerInfo>, k: Seq<char>, n: int) -> bool {
    &&& lookup(peers, k) matches Some(e) && holds_last(e, ps, k, n)
    &&& score_of(scores, k) == initial_score()
}

impl Peerstore {
    /// Adds each of `peers` in turn. With room for all of them, each key is
    /// then held by the last of them with that key.
    fn add_all(&mut self, peers: Vec<PeerInfo>)
        requires
            old(self).wf(),
        ensures
            final(self).wf(),
            final(self).capacity() == old(self).capacity(),
            final(self).bans() == old(self).bans(),
            final(self).peers().len() <= old(self).peers().len() + peers@.len(),
            forall|k: Seq<char>| #![auto] lookup(final(self).peers(), k) is None ==>
                lookup(old(self).peers(), k) is None,
            old(self).peers().len() + peers@.len() <= old(self).capacity() ==>
                forall|j: int| 0 <= j < peers@.len() ==>
                    kept_last(final(self).peers(), final(self).scores(), peers@, info_key(#[trigger] peers@[j]), peers@.len() as int),
    {
        let ghost ps = peers@;
        let ghost start = *self;
        for p in it: peers
            invariant
                it.seq() == ps,
                self.wf(),
                self.max_peers == start.max_peers,
                self.bans@ == start.bans@,
                self.peers@.len() <= start.peers@.len() + it.index(),
                forall|k: Seq<char>| #![auto] lookup(self.peers@, k) is None ==> lookup(start.peers@, k) is None,
                start.peers@.len() + ps.len() <= start.max_peers ==>
                    forall|j: int| 0 <= j < it.index() ==>
                        kept_last(self.peers@, self.scores@, ps, info_key(#[trigger] ps[j]), it.index() as int),
        {
            let ghost i = it.index() as int;
            let ghost before = self.peers@;
            let ghost before_scores = self.scores@;
            let ghost k0 = info_key(p);
            let ghost prev = *self;
            let _ = self.add_peer(p);
            proof {
                assert(ps[i] == p);
                assert forall|k: Seq<char>| #![auto] lookup(self.peers@, k) is None implies
                    lookup(start.peers@, k) is None by {
                    if self.peers@ != before {
                        let e = choose|e: PeerEntry| #![auto]
                            e.key@ == k0 && e.info == p && self.peers@ == stored(before, e);
                        if k == k0 {
                            lemma_lookup_stored(before, e);
                        } else {
                            lemma_lookup_stored_other(before, e, k);
                        }
                    }
                }
                keys_of(before).index_of_first_ensures(k0);
                if start.peers@.len() + ps.len() <= start.max_peers {
                    let e = choose|e: PeerEntry| #![auto]
                        e.key@ == k0 && e.info == p && self.peers@ == stored(before, e);
                    let se = choose|e: ScoreEntry| #![auto]
                        e.key@ == k0 && e.score == initial_score() && self.scores@ == stored(before_scores, e);
                    lemma_lookup_stored(before, e);
                    lemma_lookup_stored(before_scores, se);
                    assert(holds_last(e, ps, k0, i + 1)) by {
                        assert(info_key(ps[i]) == k0 && e.info == ps[i]);
                    }
                    assert forall|j: int| 0 <= j < i + 1 implies
                        kept_last(self.peers@, self.scores@, ps, info_key(#[trigger] ps[j]), i + 1) by {
                        let kj = info_key(ps[j]);
                        if kj != k0 {
                            lemma_lookup_stored_other(before, e, kj);
                            lemma_lookup_stored_other(before_scores, se, kj);
                            let e2 = lookup(before, kj)->0;
                            assert(holds_last(e2, ps, kj, i));
                            let m = choose|m: int| #![trigger ps[m]]
                                0 <= m < i && info_key(ps[m]) == kj && e2.info == ps[m]
                                && forall|m2: int| m < m2 < i ==> info_key(#[trigger] ps[m2]) != kj;
                            assert forall|m2: int| m < m2 < i + 1 implies info_key(#[trigger] ps[m2]) != kj by {
                                if m2 == i {
                                    assert(info_key(ps[i]) == k0);
                                }
                            }
                        }
                    }
                }
            }
        }
    }

    /// Forgets every peer unseen for more than ten minutes at `now_ms`, with
    /// its score and ban.
    pub fn remove_stale(&mut self, now_ms: i64)
        requires
            old(self).wf(),
        ensures
            final(self).wf(),
            final(self).capacity() == old(self).capacity(),
            forall|k: Seq<char>| #![auto]
                lookup(final(self).peers(), k) == if stale_key(old(self).peers(), k, now_ms) { None } else { lookup(old(self).peers(), k) },
            forall|k: Seq<char>| #![auto]
                lookup(final(self).scores(), k) == if stale_key(old(self).peers(), k, now_ms) { None } else { lookup(old(self).scores(), k) },
            forall|k: Seq<char>| #![auto]
                lookup(final(self).bans(), k) == if stale_key(old(self).peers(), k, now_ms) { None } else { lookup(old(self).bans(), k) },
    {
        let ghost start = *self;
        let ghost ps = self.peers@;
        let snapshot = self.get_all_peers();
        let mut i: usize = 0;
        while i < snapshot.len()
            invariant
                i <= snapshot@.len(),
                snapshot@.len() == ps.len(),
                forall|j: int| 0 <= j < snapshot@.len() ==> same_peer(#[trigger] snapshot@[j], ps[j].info),
                start.wf(),
                ps == start.peers@,
                self.wf(),
                self.max_peers == start.max_peers,
                forall|k: Seq<char>| #![auto] lookup(self.peers@, k) == without_stale(start.peers@, ps, k, i as int, now_ms),
                forall|k: Seq<char>| #![auto] lookup(self.scores@, k) == without_stale(start.scores@, ps, k, i as int, now_ms),
                forall|k: Seq<char>| #![auto] lookup(self.bans@, k) == without_stale(start.bans@, ps, k, i as int, now_ms),
            decreases snapshot@.len() - i,
        {
            let last: i128 = snapshot[i].last_seen as i128;
            let ghost ki = ps[i as int].key@;
            proof {
                assert(ps[i as int] == start.peers()[i as int]);
                assert(ki == peer_key(snapshot@[i as int].address@, snapshot@[i as int].port));
            }
            if (now_ms as i128) - last > 600_000 {
                let ghost before = *self;
                let _ = self.remove_peer(snapshot[i].address.as_str(), snapshot[i].port);
                proof {
                    assert forall|k: Seq<char>| #![auto] lookup(self.peers@, k) == without_stale(start.peers@, ps, k, i + 1, now_ms) by {
                        if k == ki {
                            lemma_lookup_removed(before.peers@, k);
                            assert(stale_among(ps, k, i + 1, now_ms)) by {
                                assert(ps[i as int].key@ == k);
                            }
                        } else {
                            lemma_lookup_removed_other(before.peers@, ki, k);
                            if stale_among(ps, k, i + 1, now_ms) {
                                let j = choose|j: int| 0 <= j < i + 1 && (#[trigger] ps[j]).key@ == k && is_stale(ps[j].info.last_seen, now_ms);
                                assert(j != i);
                            }
                        }
                    }
                    assert forall|k: Seq<char>| #![auto] lookup(self.scores@, k) == without_stale(start.scores@, ps, k, i + 1, now_ms) by {
                        if k == ki {
                            lemma_lookup_removed(before.scores@, k);
                            assert(ps[i as int].key@ == k);
                        } else {
                            lemma_lookup_removed_other(before.scores@, ki, k);
                            if stale_among(ps, k, i + 1, now_ms) {
                                let j = choose|j: int| 0 <= j < i + 1 && (#[trigger] ps[j]).key@ == k && is_stale(ps[j].info.last_seen, now_ms);
                                assert(j != i);
                            }
                        }
                    }
                    assert forall|k: Seq<char>| #![auto] lookup(self.bans@, k) == without_stale(start.bans@, ps, k, i + 1, now_ms) by {
                        if k == ki {
                            lemma_lookup_removed(before.bans@, k);
                            assert(ps[i as int].key@ == k);
                        } else {
                            lemma_lookup_removed_other(before.bans@, ki, k);
                            if stale_among(ps, k, i + 1, now_ms) {
                                let j = choose|j: int| 0 <= j < i + 1 && (#[trigger] ps[j]).key@ == k && is_stale(ps[j].info.last_seen, now_ms);
                                assert(j != i);
                            }
                        }
                    }
                }
            } else {
                proof {
                    assert forall|k: Seq<char>| stale_among(ps, k, i + 1, now_ms) == stale_among(ps, k, i as int, now_ms) by {
                        if stale_among(ps, k, i + 1, now_ms) {
                            let j = choose|j: int| 0 <= j < i + 1 && (#[trigger] ps[j]).key@ == k && is_stale(ps[j].info.last_seen, now_ms);
                            assert(j != i);
                        }
                    }
                }
            }
            i = i + 1;
        }
        proof {
            assert forall|k: Seq<char>| stale_among(ps, k, ps.len() as int, now_ms) == stale_key(ps, k, now_ms) by {}
        }
    }
}

impl DiscoveryService {
    /// Forgets every peer unseen for more than ten minutes at `now_ms`.
    pub fn cleanup_stale_peers(&mut self, now_ms: i64)
        requires
            old(self).wf(),
        ensures
            final(self).wf(),
            final(self).bootstrap() == old(self).bootstrap(),
            final(self).node() == old(self).node(),
            final(self).store().capacity() == old(self).store().capacity(),
            forall|k: Seq<char>| #![auto]
                lookup(final(self).store().peers(), k) == if stale_key(old(self).store().peers(), k, now_ms) { None } else { lookup(old(self).store().peers(), k) },
            forall|k: Seq<char>| #![auto]
                lookup(final(self).store().scores(), k) == if stale_key(old(self).store().peers(), k, now_ms) { None } else { lookup(old(self).store().scores(), k) },
            forall|k: Seq<char>| #![auto]
                lookup(final(self).store().bans(), k) == if stale_key(old(self).store().peers(), k, now_ms) { None } else { lookup(old(self).store().bans(), k) },
    {
        self.peerstore.remove_stale(now_ms);
    }

    /// Takes in a discovery message at `now_ms`: an announced node becomes a
    /// reachable peer with a perfect score, seen now; the peers of a
    /// response are added in turn; requests, pings and pongs change nothing.
    pub fn handle_discovery_message(message: DiscoveryMessage, peerstore: &mut Peerstore, now_ms: i64)
        requires
            old(peerstore).wf(),
        ensures
            final(peerstore).wf(),
            final(peerstore).capacity() == old(peerstore).capacity(),
            final(peerstore).bans() == old(peerstore).bans(),
            match message {
                DiscoveryMessage::PeerAnnouncement(a) => {
                    if old(peerstore).peers().len() < old(peerstore).capacity() {
                        &&& exists|e: PeerEntry| #![auto]
                            e.key@ == peer_key(a.address@, a.port)
                            && e.info == (PeerInfo {
                                node_id: a.node_id,
                                address: a.address,
                                port: a.port,
                                features: a.features,
                                last_seen: now_ms,
                                score: 1_000_000,
                                status: PeerStatus::Reachable,
                            })
                            && final(peerstore).peers() == stored(old(peerstore).peers(), e)
                        &&& exists|e: ScoreEntry| #![auto]
                            e.key@ == peer_key(a.address@, a.port) && e.score == initial_score()
                            && final(peerstore).scores() == stored(old(peerstore).scores(), e)
                    } else {
                        &&& final(peerstore).peers() == old(peerstore).peers()
                        &&& final(peerstore).scores() == old(peerstore).scores()
                    }
                },
                DiscoveryMessage::PeerResponse(r) => {
                    &&& final(peerstore).peers().len() <= old(peerstore).peers().len() + r.peers@.len()
                    &&& forall|k: Seq<char>| #![auto] lookup(final(peerstore).peers(), k) is None ==>
                        lookup(old(peerstore).peers(), k) is None
                    &&& old(peerstore).peers().len() + r.peers@.len() <= old(peerstore).capacity() ==>
                        forall|j: int| 0 <= j < r.peers@.len() ==>
                            kept_last(final(peerstore).peers(), final(peerstore).scores(), r.peers@,
                                info_key(#[trigger] r.peers@[j]), r.peers@.len() as int)
                },
                _ => {
                    &&& final(peerstore).peers() == old(peerstore).peers()
                    &&& final(peerstore).scores() == old(peerstore).scores()
                },
            },
    {
        match message {
            DiscoveryMessage::PeerAnnouncement(a) => {
                let info = PeerInfo {
                    node_id: a.node_id,
                    address: a.address,
                    port: a.port,
                    features: a.features,
                    last_seen: now_ms,
                    score: 1_000_000,
                    status: PeerStatus::Reachable,
                };
                let _ = peerstore.add_peer(info);
            },
            DiscoveryMessage::PeerResponse(r) => {
                peerstore.add_all(r.peers);
            },
            _ => {},
        }
    }
}

} // verus!
