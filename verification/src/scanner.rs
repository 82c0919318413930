//! Runtime security scanning: per-source rate limits, thresholds and
//! patterns raise security events, which are kept (up to a limit),
//! counted and queued for the monitoring system; offending sources are
//! blacklisted for a while.
//!
//! Times are milliseconds on one clock, passed in by the caller.

use vstd::prelude::*;
use crate::text::{owned, concat, u64_to_string, decimal, has_substring, str_contains};

verus! {

/// Kinds of threat.
#[derive(Debug, Clone, Copy, PartialEq, Eq, Structural)]
pub enum SecurityThreat {
    BruteForceAttack,
    DDoS,
    MaliciousTransaction,
    UnauthorizedAccess,
    DataExfiltration,
    NetworkIntrusion,
    ResourceExhaustion,
    ConsensusManipulation,
    StorageTampering,
    WalletCompromise,
}

/// Severity of an event, most severe first.
#[derive(Debug, Clone, Copy, PartialEq, Eq, Structural)]
pub enum SecuritySeverity {
    Critical,
    High,
    Medium,
    Low,
    Info,
}

/// One security event; `timestamp_ms` is when it happened and `evidence`
/// holds named values.
#[derive(Debug)]
pub struct SecurityEvent {
    pub id: String,
    pub threat_type: SecurityThreat,
    pub severity: SecuritySeverity,
    pub description: String,
    pub source_ip: Option<String>,
    pub source_node: Option<String>,
    pub timestamp_ms: u64,
    pub evidence: Vec<(String, String)>,
    pub action_taken: Option<String>,
    pub resolved: bool,
}

/// Counts of events; `last_event_time_ms` is the time of the latest one.
#[derive(Debug, Clone, Copy)]
pub struct SecurityMetrics {
    pub total_events: u64,
    pub critical_events: u64,
    pub high_events: u64,
    pub medium_events: u64,
    pub low_events: u64,
    pub blocked_attacks: u64,
    pub active_threats: u64,
    pub last_event_time_ms: Option<u64>,
}

/// Scanner settings; durations in milliseconds.
#[derive(Debug, Clone, Copy)]
pub struct ScannerConfig {
    pub enable_real_time_monitoring: bool,
    pub max_events_history: usize,
    pub blacklist_duration_ms: u64,
    pub rate_limit_window_ms: u64,
    pub max_requests_per_window: u32,
    pub alert_threshold: SecuritySeverity,
}

impl Default for ScannerConfig {
    /// Monitoring on, 10000 events kept, one-hour blacklisting, at most 100
    /// requests a minute, alerts from medium severity.
    fn default() -> (c: Self)
        ensures
            c.enable_real_time_monitoring,
            c.max_events_history == 10000,
            c.blacklist_duration_ms == 3600000,
            c.rate_limit_window_ms == 60000,
            c.max_requests_per_window == 100,
            c.alert_threshold == SecuritySeverity::Medium,
    {
        ScannerConfig {
            enable_real_time_monitoring: true,
            max_events_history: 10000,
            blacklist_duration_ms: 3600000,
            rate_limit_window_ms: 60000,
            max_requests_per_window: 100,
            alert_threshold: SecuritySeverity::Medium,
        }
    }
}

/// `t` is less than `window` before `now` (a time after `now` counts as no
/// time before it).
pub open spec fn within(now: u64, t: u64, window: u64) -> bool {
    (if now >= t { now - t } else { 0 }) < window
}

/// The times among `ts` less than `window` before `now`, in order.
pub open spec fn recent_times(ts: Seq<u64>, now: u64, window: u64) -> Seq<u64>
    decreases ts.len(),
{
    if ts.len() == 0 {
        Seq::empty()
    } else {
        recent_times(ts.drop_last(), now, window) + if within(now, ts.last(), window) { seq![ts.last()] } else { Seq::empty() }
    }
}

/// Admits at most `max_requests` requests per sliding window.
pub struct RateLimiter {
    requests: Vec<u64>,
    window_ms: u64,
    max_requests: u32,
}

impl RateLimiter {
    /// The admitted request times still on record.
    pub closed spec fn times(&self) -> Seq<u64> {
        self.requests@
    }

    pub closed spec fn window(&self) -> u64 {
        self.window_ms
    }

    pub closed spec fn limit(&self) -> u32 {
        self.max_requests
    }

    /// A limiter with no requests on record.
    pub fn new(window_ms: u64, max_requests: u32) -> (r: Self)
        ensures
            r.times().len() == 0,
            r.window() == window_ms,
            r.limit() == max_requests,
    {
        RateLimiter { requests: Vec::new(), window_ms, max_requests }
    }

    /// Forgets requests a full window old, then admits a request at `now`
    /// (recording it) unless `max_requests` are still on record.
    pub fn check_rate_limit(&mut self, now: u64) -> (ok: bool)
        ensures
            final(self).window() == old(self).window(),
            final(self).limit() == old(self).limit(),
            ({
                let kept = recent_times(old(self).times(), now, old(self).window());
                &&& ok == (kept.len() < old(self).limit())
                &&& final(self).times() == if ok { kept.push(now) } else { kept }
            }),
    {
        let mut kept: Vec<u64> = Vec::new();
        let mut i: usize = 0;
        while i < self.requests.len()
            invariant
                i <= self.requests@.len(),
                kept@ == recent_times(self.requests@.take(i as int), now, self.window_ms),
            decreases self.requests@.len() - i,
        {
            proof {
                assert(self.requests@.take(i + 1).drop_last() =~= self.requests@.take(i as int));
            }
            let t = self.requests[i];
            let age = if now >= t { now - t } else { 0 };
            if age < self.window_ms {
                kept.push(t);
            }
            proof {
                assert(kept@ =~= recent_times(self.requests@.take(i + 1), now, self.window_ms));
            }
            i = i + 1;
        }
        proof {
            assert(self.requests@.take(i as int) =~= self.requests@);
        }
        self.requests = kept;
        if self.requests.len() >= self.max_requests as usize {
            false
        } else {
            self.requests.push(now);
            true
        }
    }
}

/// A fresh random event id (`Uuid::new_v4`, hyphenated lower-case hex).
#[verifier::external_body]
fn new_event_id() -> (id: String)
    ensures
        id@.len() == 36,
{
    uuid::Uuid::new_v4().to_string()
}

} // verus!

verus! {

/// The text of an optional string.
pub open spec fn opt_text(s: Option<String>) -> Option<Seq<char>> {
    match s {
        Some(x) => Some(x@),
        None => None,
    }
}

/// Named values as text.
pub open spec fn pair_texts(s: Seq<(String, String)>) -> Seq<(Seq<char>, Seq<char>)> {
    s.map_values(|p: (String, String)| (p.0@, p.1@))
}

/// What an event says, with its strings as text.
#[verifier::ext_equal]
pub struct EventView {
    pub id: Seq<char>,
    pub threat_type: SecurityThreat,
    pub severity: SecuritySeverity,
    pub description: Seq<char>,
    pub source_ip: Option<Seq<char>>,
    pub source_node: Option<Seq<char>>,
    pub timestamp_ms: u64,
    pub evidence: Seq<(Seq<char>, Seq<char>)>,
    pub action_taken: Option<Seq<char>>,
    pub resolved: bool,
}

impl View for SecurityEvent {
    type V = EventView;

    open spec fn view(&self) -> EventView {
        EventView {
            id: self.id@,
            threat_type: self.threat_type,
            severity: self.severity,
            description: self.description@,
            source_ip: opt_text(self.source_ip),
            source_node: opt_text(self.source_node),
            timestamp_ms: self.timestamp_ms,
            evidence: pair_texts(self.evidence@),
            action_taken: opt_text(self.action_taken),
            resolved: self.resolved,
        }
    }
}

/// The views of a list of events.
pub open spec fn event_views(s: Seq<SecurityEvent>) -> Seq<EventView> {
    s.map_values(|e: SecurityEvent| e@)
}

/// The last `n` of `s` (all of it when it is no longer).
pub open spec fn keep_last<T>(s: Seq<T>, n: nat) -> Seq<T> {
    if s.len() > n {
        s.skip(s.len() - n)
    } else {
        s
    }
}

/// `m` once event `e` is counted.
pub open spec fn counted(m: SecurityMetrics, e: EventView) -> SecurityMetrics {
    SecurityMetrics {
        total_events: (m.total_events + 1) as u64,
        last_event_time_ms: Some(e.timestamp_ms),
        critical_events: if e.severity == SecuritySeverity::Critical { (m.critical_events + 1) as u64 } else { m.critical_events },
        high_events: if e.severity == SecuritySeverity::High { (m.high_events + 1) as u64 } else { m.high_events },
        medium_events: if e.severity == SecuritySeverity::Medium { (m.medium_events + 1) as u64 } else { m.medium_events },
        low_events: if e.severity == SecuritySeverity::Low { (m.low_events + 1) as u64 } else { m.low_events },
        blocked_attacks: if e.action_taken is Some { (m.blocked_attacks + 1) as u64 } else { m.blocked_attacks },
        ..m
    }
}

/// `m` can count one more event of any kind.
pub open spec fn can_count(m: SecurityMetrics) -> bool {
    &&& m.total_events < u64::MAX
    &&& m.critical_events < u64::MAX
    &&& m.high_events < u64::MAX
    &&& m.medium_events < u64::MAX
    &&& m.low_events < u64::MAX
    &&& m.blocked_attacks < u64::MAX
}

/// A copy of an optional string.
fn copy_opt(s: &Option<String>) -> (r: Option<String>)
    ensures
        opt_text(r) == opt_text(*s),
{
    match s {
        Some(x) => Some(x.clone()),
        None => None,
    }
}

/// A copy of an event.
fn copy_event(e: &SecurityEvent) -> (c: SecurityEvent)
    ensures
        c@ == e@,
{
    let mut evidence: Vec<(String, String)> = Vec::new();
    let mut i: usize = 0;
    while i < e.evidence.len()
        invariant
            i <= e.evidence@.len(),
            pair_texts(evidence@) == pair_texts(e.evidence@.take(i as int)),
        decreases e.evidence@.len() - i,
    {
        let a = e.evidence[i].0.clone();
        let b = e.evidence[i].1.clone();
        let ghost before = evidence@;
        let ghost pv = (a@, b@);
        evidence.push((a, b));
        proof {
            assert(pair_texts(evidence@) =~= pair_texts(before).push(pv));
            assert(pair_texts(e.evidence@.take(i + 1)) =~= pair_texts(e.evidence@.take(i as int)).push(pv));
        }
        i = i + 1;
    }
    proof {
        assert(e.evidence@.take(i as int) =~= e.evidence@);
    }
    let c = SecurityEvent {
        id: e.id.clone(),
        threat_type: e.threat_type,
        severity: e.severity,
        description: e.description.clone(),
        source_ip: copy_opt(&e.source_ip),
        source_node: copy_opt(&e.source_node),
        timestamp_ms: e.timestamp_ms,
        evidence,
        action_taken: copy_opt(&e.action_taken),
        resolved: e.resolved,
    };
    assert(c@ =~= e@);
    c
}

/// The sources blacklisted and since when, as text.
pub open spec fn stamped(s: Seq<(String, u64)>) -> Seq<(Seq<char>, u64)> {
    s.map_values(|p: (String, u64)| (p.0@, p.1))
}

/// Position of the first entry for `k`.
pub open spec fn stamp_index(s: Seq<(Seq<char>, u64)>, k: Seq<char>) -> Option<int> {
    s.map_values(|p: (Seq<char>, u64)| p.0).index_of_first(k)
}

/// `s` with `k` stamped at `t`: in place of its first entry, or at the end.
pub open spec fn stamp(s: Seq<(Seq<char>, u64)>, k: Seq<char>, t: u64) -> Seq<(Seq<char>, u64)> {
    match stamp_index(s, k) {
        Some(i) => s.update(i, (k, t)),
        None => s.push((k, t)),
    }
}

/// The entries of `s` stamped less than `d` before `now`, in order.
pub open spec fn fresh_stamps(s: Seq<(Seq<char>, u64)>, now: u64, d: u64) -> Seq<(Seq<char>, u64)>
    decreases s.len(),
{
    if s.len() == 0 {
        Seq::empty()
    } else {
        fresh_stamps(s.drop_last(), now, d) + if within(now, s.last().1, d) { seq![s.last()] } else { Seq::empty() }
    }
}

/// Runtime scanner state.
pub struct SecurityScanner {
    events: Vec<SecurityEvent>,
    metrics: SecurityMetrics,
    threat_patterns: Vec<(SecurityThreat, Vec<String>)>,
    rate_limiters: Vec<(String, RateLimiter)>,
    blacklist: Vec<(String, u64)>,
    config: ScannerConfig,
    pending: Vec<SecurityEvent>,
}

impl SecurityScanner {
    /// The kept events, oldest first.
    pub closed spec fn events_view(&self) -> Seq<EventView> {
        event_views(self.events@)
    }

    /// Events not yet handed to the monitoring system, oldest first.
    pub closed spec fn pending_view(&self) -> Seq<EventView> {
        event_views(self.pending@)
    }

    pub closed spec fn metrics_view(&self) -> SecurityMetrics {
        self.metrics
    }

    pub closed spec fn config_view(&self) -> ScannerConfig {
        self.config
    }

    /// Blacklisted sources and when they were blacklisted.
    pub closed spec fn blacklist_view(&self) -> Seq<(Seq<char>, u64)> {
        stamped(self.blacklist@)
    }

    /// The request times on record for `source`, if it has a limiter.
    pub closed spec fn limiter_times(&self, source: Seq<char>) -> Option<Seq<u64>> {
        match self.rate_limiters@.map_values(|p: (String, RateLimiter)| p.0@).index_of_first(source) {
            Some(i) => Some(self.rate_limiters@[i].1.times()),
            None => None,
        }
    }

    /// Every limiter has the configured window and limit.
    pub closed spec fn limiters_configured(&self) -> bool {
        forall|i: int| 0 <= i < self.rate_limiters@.len() ==> {
            &&& (#[trigger] self.rate_limiters@[i]).1.window() == self.config.rate_limit_window_ms
            &&& self.rate_limiters@[i].1.limit() == self.config.max_requests_per_window
        }
    }

    /// `self` after recording event `e` on `old`: kept (only the newest
    /// `max_events_history`), counted and queued.
    pub open spec fn logged(&self, old: &Self, e: EventView) -> bool {
        &&& self.events_view() == keep_last(old.events_view().push(e), old.config_view().max_events_history as nat)
        &&& self.pending_view() == old.pending_view().push(e)
        &&& self.metrics_view() == counted(old.metrics_view(), e)
    }
}

} // verus!

verus! {

/// The names of patterns for threat `t` (five threats have patterns).
pub open spec fn pattern_names(t: SecurityThreat) -> Seq<&'static str> {
    match t {
        SecurityThreat::BruteForceAttack => seq!["multiple_failed_logins", "rapid_password_attempts", "credential_stuffing"],
        SecurityThreat::DDoS => seq!["high_request_rate", "resource_exhaustion", "network_flooding"],
        SecurityThreat::MaliciousTransaction => seq!["double_spending", "invalid_signature", "suspicious_amount"],
        SecurityThreat::UnauthorizedAccess => seq!["invalid_permissions", "privilege_escalation", "unauthorized_api_call"],
        _ => seq!["large_data_transfer", "suspicious_export", "unauthorized_access"],
    }
}

/// Owned copies of three names.
fn three(a: &str, b: &str, c: &str) -> (v: Vec<String>)
    ensures
        v@.len() == 3 && v@[0]@ == a@ && v@[1]@ == b@ && v@[2]@ == c@,
{
    let mut v: Vec<String> = Vec::new();
    v.push(owned(a));
    v.push(owned(b));
    v.push(owned(c));
    v
}

/// The threat patterns: three names for each of brute force, DDoS,
/// malicious transactions, unauthorised access and data exfiltration.
fn initialize_threat_patterns() -> (p: Vec<(SecurityThreat, Vec<String>)>)
    ensures
        p@.len() == 5,
        p@[0].0 == SecurityThreat::BruteForceAttack && p@[1].0 == SecurityThreat::DDoS,
        p@[2].0 == SecurityThreat::MaliciousTransaction && p@[3].0 == SecurityThreat::UnauthorizedAccess,
        p@[4].0 == SecurityThreat::DataExfiltration,
        forall|i: int| 0 <= i < 5 ==> (#[trigger] p@[i]).1@.len() == 3
            && forall|k: int| 0 <= k < 3 ==> (#[trigger] p@[i].1@[k])@ == pattern_names(p@[i].0)[k]@,
{
    let mut p: Vec<(SecurityThreat, Vec<String>)> = Vec::new();
    p.push((SecurityThreat::BruteForceAttack, three("multiple_failed_logins", "rapid_password_attempts", "credential_stuffing")));
    p.push((SecurityThreat::DDoS, three("high_request_rate", "resource_exhaustion", "network_flooding")));
    p.push((SecurityThreat::MaliciousTransaction, three("double_spending", "invalid_signature", "suspicious_amount")));
    p.push((SecurityThreat::UnauthorizedAccess, three("invalid_permissions", "privilege_escalation", "unauthorized_api_call")));
    p.push((SecurityThreat::DataExfiltration, three("large_data_transfer", "suspicious_export", "unauthorized_access")));
    p
}

impl SecurityScanner {
    /// A scanner with `config`, no events, zero counts, no limiters and an
    /// empty blacklist.
    pub fn new(config: ScannerConfig) -> (s: Self)
        ensures
            s.config_view() == config,
            s.events_view().len() == 0,
            s.pending_view().len() == 0,
            s.blacklist_view().len() == 0,
            s.limiters_configured(),
            forall|k: Seq<char>| s.limiter_times(k) is None,
            s.metrics_view() == (SecurityMetrics {
                total_events: 0,
                critical_events: 0,
                high_events: 0,
                medium_events: 0,
                low_events: 0,
                blocked_attacks: 0,
                active_threats: 0,
                last_event_time_ms: None,
            }),
    {
        let s = SecurityScanner {
            events: Vec::new(),
            metrics: SecurityMetrics {
                total_events: 0,
                critical_events: 0,
                high_events: 0,
                medium_events: 0,
                low_events: 0,
                blocked_attacks: 0,
                active_threats: 0,
                last_event_time_ms: None,
            },
            threat_patterns: initialize_threat_patterns(),
            rate_limiters: Vec::new(),
            blacklist: Vec::new(),
            config,
            pending: Vec::new(),
        };
        assert(event_views(s.events@) =~= Seq::empty());
        assert(event_views(s.pending@) =~= Seq::empty());
        assert(stamped(s.blacklist@) =~= Seq::empty());
        assert forall|k: Seq<char>| s.limiter_times(k) is None by {
            s.rate_limiters@.map_values(|p: (String, RateLimiter)| p.0@).index_of_first_ensures(k);
        }
        s
    }

    /// Keeps `event` (dropping the oldest beyond `max_events_history`),
    /// counts it and queues it for the monitoring system.
    pub fn record_event(&mut self, event: SecurityEvent) -> (r: Result<(), String>)
        requires
            can_count(old(self).metrics_view()),
        ensures
            r is Ok,
            final(self).logged(old(self), event@),
            final(self).config_view() == old(self).config_view(),
            final(self).blacklist_view() == old(self).blacklist_view(),
            forall|k: Seq<char>| final(self).limiter_times(k) == old(self).limiter_times(k),
            old(self).limiters_configured() ==> final(self).limiters_configured(),
    {
        let copy = copy_event(&event);
        let ghost ev = event@;
        let ghost all = event_views(self.events@).push(ev);
        let e_severity = event.severity;
        let e_time = event.timestamp_ms;
        let e_blocked = event.action_taken.is_some();
        self.events.push(event);
        proof {
            assert(event_views(self.events@) =~= all);
        }
        let len = self.events.len();
        if len > self.config.max_events_history {
            let to_remove = len - self.config.max_events_history;
            let ghost before = self.events@;
            let rest = self.events.split_off(to_remove);
            self.events = rest;
            proof {
                assert(self.events@ =~= before.skip(to_remove as int));
                assert(event_views(self.events@) =~= all.skip(to_remove as int));
            }
        }
        let ghost pend = event_views(self.pending@);
        self.pending.push(copy);
        proof {
            assert(event_views(self.pending@) =~= pend.push(ev));
        }
        self.metrics.total_events = self.metrics.total_events + 1;
        self.metrics.last_event_time_ms = Some(e_time);
        match e_severity {
            SecuritySeverity::Critical => self.metrics.critical_events = self.metrics.critical_events + 1,
            SecuritySeverity::High => self.metrics.high_events = self.metrics.high_events + 1,
            SecuritySeverity::Medium => self.metrics.medium_events = self.metrics.medium_events + 1,
            SecuritySeverity::Low => self.metrics.low_events = self.metrics.low_events + 1,
            SecuritySeverity::Info => {},
        }
        if e_blocked {
            self.metrics.blocked_attacks = self.metrics.blocked_attacks + 1;
        }
        Ok(())
    }

    /// Hands over the queued events, oldest first, and empties the queue.
    pub fn take_pending_events(&mut self) -> (r: Vec<SecurityEvent>)
        ensures
            event_views(r@) == old(self).pending_view(),
            final(self).pending_view().len() == 0,
            final(self).events_view() == old(self).events_view(),
            final(self).metrics_view() == old(self).metrics_view(),
            final(self).config_view() == old(self).config_view(),
            final(self).blacklist_view() == old(self).blacklist_view(),
            forall|k: Seq<char>| final(self).limiter_times(k) == old(self).limiter_times(k),
            old(self).limiters_configured() ==> final(self).limiters_configured(),
    {
        let mut r: Vec<SecurityEvent> = Vec::new();
        core::mem::swap(&mut r, &mut self.pending);
        assert(event_views(self.pending@) =~= Seq::empty());
        r
    }

    /// Blacklists `source` as of `now` (restamping it if already there).
    fn blacklist_source(&mut self, source: &str, now: u64)
        ensures
            final(self).blacklist_view() == stamp(old(self).blacklist_view(), source@, now),
            final(self).events_view() == old(self).events_view(),
            final(self).pending_view() == old(self).pending_view(),
            final(self).metrics_view() == old(self).metrics_view(),
            final(self).config_view() == old(self).config_view(),
            forall|k: Seq<char>| final(self).limiter_times(k) == old(self).limiter_times(k),
            old(self).limiters_configured() ==> final(self).limiters_configured(),
    {
        let ghost before = stamped(self.blacklist@);
        let key = owned(source);
        let mut i: usize = 0;
        while i < self.blacklist.len()
            invariant
                i <= self.blacklist@.len(),
                key@ == source@,
                before == stamped(self.blacklist@),
                *self == *old(self),
                forall|j: int| 0 <= j < i ==> self.blacklist@[j].0@ != source@,
            decreases self.blacklist@.len() - i,
        {
            if self.blacklist[i].0 == key {
                proof {
                    let ks = before.map_values(|p: (Seq<char>, u64)| p.0);
                    ks.index_of_first_ensures(source@);
                    assert(ks[i as int] == source@);
                    let f = ks.index_of_first(source@)->0;
                    if f < i {
                        assert(ks[f] == self.blacklist@[f].0@);
                    }
                }
                let _ = self.blacklist.remove(i);
                self.blacklist.insert(i, (key, now));
                proof {
                    assert(stamped(self.blacklist@) =~= before.update(i as int, (source@, now)));
                }
                return;
            }
            i = i + 1;
        }
        proof {
            let ks = before.map_values(|p: (Seq<char>, u64)| p.0);
            ks.index_of_first_ensures(source@);
            if ks.contains(source@) {
                let j = choose|j: int| 0 <= j < ks.len() && ks[j] == source@;
                assert(ks[j] == self.blacklist@[j].0@);
            }
        }
        self.blacklist.push((key, now));
        proof {
            assert(stamped(self.blacklist@) =~= before.push((source@, now)));
        }
    }

    /// Whether `source` is blacklisted.
    pub fn is_blacklisted(&self, source: &str) -> (b: bool)
        ensures
            b == self.blacklist_view().map_values(|p: (Seq<char>, u64)| p.0).contains(source@),
    {
        let key = owned(source);
        let mut i: usize = 0;
        while i < self.blacklist.len()
            invariant
                i <= self.blacklist@.len(),
                key@ == source@,
                forall|j: int| 0 <= j < i ==> self.blacklist@[j].0@ != source@,
            decreases self.blacklist@.len() - i,
        {
            if self.blacklist[i].0 == key {
                proof {
                    assert(self.blacklist_view().map_values(|p: (Seq<char>, u64)| p.0)[i as int] == source@);
                }
                return true;
            }
            i = i + 1;
        }
        proof {
            let ks = self.blacklist_view().map_values(|p: (Seq<char>, u64)| p.0);
            if ks.contains(source@) {
                let j = choose|j: int| 0 <= j < ks.len() && ks[j] == source@;
                assert(ks[j] == self.blacklist@[j].0@);
            }
        }
        false
    }

    /// Drops the blacklist entries at least `blacklist_duration_ms` old at
    /// `now`.
    pub fn cleanup_blacklist(&mut self, now: u64)
        ensures
            final(self).blacklist_view() == fresh_stamps(old(self).blacklist_view(), now, old(self).config_view().blacklist_duration_ms),
            final(self).events_view() == old(self).events_view(),
            final(self).pending_view() == old(self).pending_view(),
            final(self).metrics_view() == old(self).metrics_view(),
            final(self).config_view() == old(self).config_view(),
            forall|k: Seq<char>| final(self).limiter_times(k) == old(self).limiter_times(k),
            old(self).limiters_configured() ==> final(self).limiters_configured(),
    {
        let d = self.config.blacklist_duration_ms;
        let ghost all = stamped(self.blacklist@);
        let mut kept: Vec<(String, u64)> = Vec::new();
        let mut i: usize = 0;
        while i < self.blacklist.len()
            invariant
                i <= self.blacklist@.len(),
                all == stamped(self.blacklist@),
                stamped(kept@) == fresh_stamps(all.take(i as int), now, d),
            decreases self.blacklist@.len() - i,
        {
            proof {
                assert(all.take(i + 1).drop_last() =~= all.take(i as int));
            }
            let t = self.blacklist[i].1;
            let age = if now >= t { now - t } else { 0 };
            if age < d {
                let k = self.blacklist[i].0.clone();
                let ghost before = stamped(kept@);
                kept.push((k, t));
                proof {
                    assert(stamped(kept@) =~= before.push(all[i as int]));
                }
            }
            i = i + 1;
        }
        proof {
            assert(all.take(i as int) =~= all);
        }
        self.blacklist = kept;
    }
}

} // verus!

verus! {

/// `v` is an unresolved event of type `t` and severity `s` at `now`, with
/// the given description, sources, evidence and action.
pub open spec fn event_is(v: EventView, t: SecurityThreat, s: SecuritySeverity, description: Seq<char>,
    source_ip: Option<Seq<char>>, source_node: Option<Seq<char>>, now: u64,
    evidence: Seq<(Seq<char>, Seq<char>)>, action: Seq<char>) -> bool {
    &&& v.threat_type == t
    &&& v.severity == s
    &&& v.description == description
    &&& v.source_ip == source_ip
    &&& v.source_node == source_node
    &&& v.timestamp_ms == now
    &&& v.evidence == evidence
    &&& v.action_taken == Some(action)
    &&& !v.resolved
}

/// Builds an unresolved event with a fresh id.
fn make_event(t: SecurityThreat, s: SecuritySeverity, description: String, source_ip: Option<String>,
    source_node: Option<String>, now: u64, evidence: Vec<(String, String)>, action: &str) -> (e: SecurityEvent)
    ensures
        event_is(e@, t, s, description@, opt_text(source_ip), opt_text(source_node), now, pair_texts(evidence@), action@),
{
    SecurityEvent {
        id: new_event_id(),
        threat_type: t,
        severity: s,
        description,
        source_ip,
        source_node,
        timestamp_ms: now,
        evidence,
        action_taken: Some(owned(action)),
        resolved: false,
    }
}

/// A named value.
fn named(name: &str, value: &str) -> (p: (String, String))
    ensures
        p.0@ == name@ && p.1@ == value@,
{
    (owned(name), owned(value))
}

impl SecurityScanner {
    /// The limiters' keys.
    pub closed spec fn limiter_keys(&self) -> Seq<Seq<char>> {
        self.rate_limiters@.map_values(|p: (String, RateLimiter)| p.0@)
    }

    /// Position of the limiter for `source`, adding a fresh one (with the
    /// configured window and limit) when there is none.
    fn limiter_for(&mut self, source: &str) -> (i: usize)
        requires
            old(self).limiters_configured(),
        ensures
            i < final(self).rate_limiters@.len(),
            final(self).limiter_keys().index_of_first(source@) == Some(i as int),
            final(self).limiter_times(source@) == Some(match old(self).limiter_times(source@) {
                Some(ts) => ts,
                None => Seq::<u64>::empty(),
            }),
            forall|k: Seq<char>| k != source@ ==> final(self).limiter_times(k) == old(self).limiter_times(k),
            final(self).limiters_configured(),
            final(self).events_view() == old(self).events_view(),
            final(self).pending_view() == old(self).pending_view(),
            final(self).metrics_view() == old(self).metrics_view(),
            final(self).config_view() == old(self).config_view(),
            final(self).blacklist_view() == old(self).blacklist_view(),
    {
        let key = owned(source);
        let ghost ks = self.limiter_keys();
        let mut i: usize = 0;
        while i < self.rate_limiters.len()
            invariant
                i <= self.rate_limiters@.len(),
                key@ == source@,
                ks == self.limiter_keys(),
                *self == *old(self),
                old(self).limiters_configured(),
                forall|j: int| 0 <= j < i ==> self.rate_limiters@[j].0@ != source@,
            decreases self.rate_limiters@.len() - i,
        {
            if self.rate_limiters[i].0 == key {
                proof {
                    ks.index_of_first_ensures(source@);
                    assert(ks[i as int] == source@);
                    let f = ks.index_of_first(source@)->0;
                    if f < i {
                        assert(ks[f] == self.rate_limiters@[f].0@);
                    }
                }
                return i;
            }
            i = i + 1;
        }
        proof {
            ks.index_of_first_ensures(source@);
            if ks.contains(source@) {
                let j = choose|j: int| 0 <= j < ks.len() && ks[j] == source@;
                assert(ks[j] == self.rate_limiters@[j].0@);
            }
        }
        let ghost before = self.rate_limiters@;
        let lim = RateLimiter::new(self.config.rate_limit_window_ms, self.config.max_requests_per_window);
        self.rate_limiters.push((key, lim));
        proof {
            let nks = self.limiter_keys();
            assert(nks =~= ks.push(source@));
            assert(nks[ks.len() as int] == source@);
            nks.index_of_first_ensures(source@);
            let f = nks.index_of_first(source@)->0;
            if f < ks.len() {
                assert(ks[f] == nks[f]);
            }
            assert forall|k: Seq<char>| k != source@ implies self.limiter_times(k) == old(self).limiter_times(k) by {
                ks.index_of_first_ensures(k);
                nks.index_of_first_ensures(k);
                match ks.index_of_first(k) {
                    Some(j) => {
                        assert(nks[j] == k);
                        let g = nks.index_of_first(k)->0;
                        if g < j {
                            assert(ks[g] == nks[g]);
                        }
                        assert(self.rate_limiters@[j] == before[j]);
                    },
                    None => {
                        if nks.contains(k) {
                            let g = nks.index_of_first(k)->0;
                            assert(g < ks.len());
                            assert(ks[g] == nks[g]);
                        }
                    },
                }
            }
            assert forall|j: int| 0 <= j < self.rate_limiters@.len() implies {
                &&& (#[trigger] self.rate_limiters@[j]).1.window() == self.config.rate_limit_window_ms
                &&& self.rate_limiters@[j].1.limit() == self.config.max_requests_per_window
            } by {
                if j < before.len() {
                    assert(self.rate_limiters@[j] == before[j]);
                }
            }
        }
        i
    }

    /// Counts a login attempt from `source` at `now`: a failed one must
    /// pass the source's rate limit; when it does not, a brute-force event
    /// is recorded, the source is blacklisted and the answer is true.
    /// Successful attempts only make sure the source has a limiter.
    pub fn check_brute_force_attack(&mut self, source_ip: &str, success: bool, now: u64) -> (r: Result<bool, String>)
        requires
            can_count(old(self).metrics_view()),
            old(self).limiters_configured(),
        ensures
            final(self).config_view() == old(self).config_view(),
            final(self).limiters_configured(),
            forall|k: Seq<char>| k != source_ip@ ==> final(self).limiter_times(k) == old(self).limiter_times(k),
            ({
                let ts = match old(self).limiter_times(source_ip@) { Some(ts) => ts, None => Seq::<u64>::empty() };
                let kept = recent_times(ts, now, old(self).config_view().rate_limit_window_ms);
                let admitted = kept.len() < old(self).config_view().max_requests_per_window;
                let attack = !success && !admitted;
                &&& r == Ok::<bool, String>(attack)
                &&& final(self).limiter_times(source_ip@) == Some(if success { ts } else if admitted { kept.push(now) } else { kept })
                &&& attack ==> {
                    let v = final(self).pending_view().last();
                    &&& final(self).logged(old(self), v)
                    &&& event_is(v, SecurityThreat::BruteForceAttack, SecuritySeverity::High,
                        "Potential brute force attack from "@ + source_ip@, Some(source_ip@), None, now, Seq::empty(), "Rate limited"@)
                    &&& final(self).blacklist_view() == stamp(old(self).blacklist_view(), source_ip@, now)
                }
                &&& !attack ==> {
                    &&& final(self).events_view() == old(self).events_view()
                    &&& final(self).pending_view() == old(self).pending_view()
                    &&& final(self).metrics_view() == old(self).metrics_view()
                    &&& final(self).blacklist_view() == old(self).blacklist_view()
                }
            }),
    {
        let i = self.limiter_for(source_ip);
        if success {
            return Ok(false);
        }
        let ghost mid = *self;
        let (k, mut lim) = self.rate_limiters.remove(i);
        let ok = lim.check_rate_limit(now);
        self.rate_limiters.insert(i, (k, lim));
        proof {
            assert(self.rate_limiters@ =~= mid.rate_limiters@.update(i as int, (k, lim)));
            assert(self.limiter_keys() =~= mid.limiter_keys());
            assert forall|x: Seq<char>| x != source_ip@ implies self.limiter_times(x) == mid.limiter_times(x) by {
                let ks = mid.limiter_keys();
                ks.index_of_first_ensures(x);
                ks.index_of_first_ensures(source_ip@);
                if let Some(j) = ks.index_of_first(x) {
                    assert(ks[j] == x);
                    assert(ks[i as int] == source_ip@);
                    assert(j != i);
                }
            }
            assert forall|j: int| 0 <= j < self.rate_limiters@.len() implies {
                &&& (#[trigger] self.rate_limiters@[j]).1.window() == self.config.rate_limit_window_ms
                &&& self.rate_limiters@[j].1.limit() == self.config.max_requests_per_window
            } by {
                if j != i {
                    assert(self.rate_limiters@[j] == mid.rate_limiters@[j]);
                } else {
                    assert(mid.rate_limiters@[j].1.window() == self.config.rate_limit_window_ms);
                }
            }
        }
        if !ok {
            let desc = concat("Potential brute force attack from ", source_ip);
            let event = make_event(SecurityThreat::BruteForceAttack, SecuritySeverity::High, desc,
                Some(owned(source_ip)), None, now, Vec::new(), "Rate limited");
            proof {
                assert(pair_texts(Seq::<(String, String)>::empty()) =~= Seq::empty());
            }
            let _ = self.record_event(event);
            self.blacklist_source(source_ip, now);
            return Ok(true);
        }
        Ok(false)
    }
}

} // verus!

verus! {

/// Suspicious transaction pattern `k`.
pub open spec fn suspicious(k: int) -> &'static str {
    if k == 0 {
        "double_spend"
    } else if k == 1 {
        "invalid_signature"
    } else if k == 2 {
        "suspicious_amount"
    } else {
        "malicious_script"
    }
}

/// Suspicious transaction pattern `k`.
fn suspicious_pattern(k: usize) -> (s: &'static str)
    ensures
        s == suspicious(k as int),
{
    if k == 0 {
        "double_spend"
    } else if k == 1 {
        "invalid_signature"
    } else if k == 2 {
        "suspicious_amount"
    } else {
        "malicious_script"
    }
}

/// The first of the suspicious patterns that occurs in `data`, if any.
pub open spec fn first_suspicious(data: Seq<char>) -> Option<int> {
    if has_substring(data, suspicious(0)@) {
        Some(0)
    } else if has_substring(data, suspicious(1)@) {
        Some(1)
    } else if has_substring(data, suspicious(2)@) {
        Some(2)
    } else if has_substring(data, suspicious(3)@) {
        Some(3)
    } else {
        None
    }
}

/// Whether `user` may do `action` on `resource`: admins anything, users
/// anything public, nobody else anything.
pub open spec fn permitted(user: Seq<char>, resource: Seq<char>, action: Seq<char>) -> bool {
    user == "admin"@ || (user == "user"@ && resource == "public"@)
}

/// Largest transfer allowed, in bytes (100 MiB).
pub const MAX_TRANSFER_BYTES: u64 = 104857600;

/// Decimal text of `n`, as an owned string.
fn number_text(n: u64) -> (s: String)
    ensures
        s@ == decimal(n as nat),
{
    u64_to_string(n)
}

impl SecurityScanner {
    /// Flags `source_ip` when `request_count` exceeds ten times the
    /// per-window limit: records a DDoS event and blacklists the source.
    pub fn check_ddos_attack(&mut self, source_ip: &str, request_count: u32, now: u64) -> (r: Result<bool, String>)
        requires
            can_count(old(self).metrics_view()),
            old(self).config_view().max_requests_per_window * 10 <= u32::MAX,
        ensures
            final(self).config_view() == old(self).config_view(),
            forall|k: Seq<char>| final(self).limiter_times(k) == old(self).limiter_times(k),
            old(self).limiters_configured() ==> final(self).limiters_configured(),
            ({
                let threshold = old(self).config_view().max_requests_per_window * 10;
                let attack = request_count > threshold;
                &&& r == Ok::<bool, String>(attack)
                &&& attack ==> {
                    let v = final(self).pending_view().last();
                    &&& final(self).logged(old(self), v)
                    &&& event_is(v, SecurityThreat::DDoS, SecuritySeverity::Critical,
                        "DDoS attack detected from "@ + source_ip@ + " ("@ + decimal(request_count as nat) + " requests)"@,
                        Some(source_ip@), None, now,
                        seq![("request_count"@, decimal(request_count as nat)), ("threshold"@, decimal(threshold as nat))],
                        "Blocked IP"@)
                    &&& final(self).blacklist_view() == stamp(old(self).blacklist_view(), source_ip@, now)
                }
                &&& !attack ==> *final(self) == *old(self)
            }),
    {
        let threshold = self.config.max_requests_per_window * 10;
        if request_count > threshold {
            let count_text = number_text(request_count as u64);
            let mut desc = concat("DDoS attack detected from ", source_ip);
            desc.append(" (");
            desc.append(count_text.as_str());
            desc.append(" requests)");
            let mut evidence: Vec<(String, String)> = Vec::new();
            let threshold_text = number_text(threshold as u64);
            evidence.push(named("request_count", count_text.as_str()));
            evidence.push(named("threshold", threshold_text.as_str()));
            let event = make_event(SecurityThreat::DDoS, SecuritySeverity::Critical, desc, Some(owned(source_ip)), None,
                now, evidence, "Blocked IP");
            proof {
                assert(pair_texts(evidence@) =~= seq![("request_count"@, decimal(request_count as nat)),
                    ("threshold"@, decimal(threshold as nat))]);
            }
            let _ = self.record_event(event);
            self.blacklist_source(source_ip, now);
            return Ok(true);
        }
        Ok(false)
    }

    /// Flags a transaction whose data contains a suspicious pattern
    /// (double spend, invalid signature, suspicious amount, malicious
    /// script; the first found is reported) and records the event.
    pub fn check_malicious_transaction(&mut self, transaction_data: &str, now: u64) -> (r: Result<bool, String>)
        requires
            can_count(old(self).metrics_view()),
        ensures
            final(self).config_view() == old(self).config_view(),
            final(self).blacklist_view() == old(self).blacklist_view(),
            forall|k: Seq<char>| final(self).limiter_times(k) == old(self).limiter_times(k),
            old(self).limiters_configured() ==> final(self).limiters_configured(),
            r == Ok::<bool, String>(first_suspicious(transaction_data@) is Some),
            first_suspicious(transaction_data@) matches Some(k) ==> {
                let v = final(self).pending_view().last();
                &&& final(self).logged(old(self), v)
                &&& event_is(v, SecurityThreat::MaliciousTransaction, SecuritySeverity::High,
                    "Malicious transaction detected: "@ + suspicious(k)@, None, None, now,
                    seq![("pattern"@, suspicious(k)@), ("transaction_data"@, transaction_data@)],
                    "Transaction rejected"@)
            },
            first_suspicious(transaction_data@) is None ==> *final(self) == *old(self),
    {
        let mut k: usize = 0;
        while k < 4
            invariant
                k <= 4,
                forall|j: int| 0 <= j < k ==> !has_substring(transaction_data@, suspicious(j)@),
                *self == *old(self),
                can_count(old(self).metrics_view()),
            decreases 4 - k,
        {
            let pattern = suspicious_pattern(k);
            if str_contains(transaction_data, pattern) {
                proof {
                    assert(first_suspicious(transaction_data@) == Some(k as int));
                }
                let desc = concat("Malicious transaction detected: ", pattern);
                let mut evidence: Vec<(String, String)> = Vec::new();
                evidence.push(named("pattern", pattern));
                evidence.push(named("transaction_data", transaction_data));
                let event = make_event(SecurityThreat::MaliciousTransaction, SecuritySeverity::High, desc, None, None,
                    now, evidence, "Transaction rejected");
                proof {
                    assert(pair_texts(evidence@) =~= seq![("pattern"@, suspicious(k as int)@),
                        ("transaction_data"@, transaction_data@)]);
                }
                let _ = self.record_event(event);
                return Ok(true);
            }
            k = k + 1;
        }
        Ok(false)
    }

    /// Whether `user_id` may do `action` on `resource`.
    fn check_permissions(&self, user_id: &str, resource: &str, action: &str) -> (b: bool)
        ensures
            b == permitted(user_id@, resource@, action@),
    {
        let admin = owned("admin");
        let user = owned("user");
        let public = owned("public");
        let u = owned(user_id);
        let res = owned(resource);
        u == admin || (u == user && res == public)
    }

    /// Flags an action `user_id` may not do on `resource`, recording the
    /// attempt.
    pub fn check_unauthorized_access(&mut self, user_id: &str, resource: &str, action: &str, now: u64) -> (r: Result<bool, String>)
        requires
            can_count(old(self).metrics_view()),
        ensures
            final(self).config_view() == old(self).config_view(),
            final(self).blacklist_view() == old(self).blacklist_view(),
            forall|k: Seq<char>| final(self).limiter_times(k) == old(self).limiter_times(k),
            old(self).limiters_configured() ==> final(self).limiters_configured(),
            r == Ok::<bool, String>(!permitted(user_id@, resource@, action@)),
            !permitted(user_id@, resource@, action@) ==> {
                let v = final(self).pending_view().last();
                &&& final(self).logged(old(self), v)
                &&& event_is(v, SecurityThreat::UnauthorizedAccess, SecuritySeverity::Medium,
                    "Unauthorized access attempt: "@ + user_id@ + " "@ + action@ + " "@ + resource@, None, Some(user_id@), now,
                    seq![("user_id"@, user_id@), ("resource"@, resource@), ("action"@, action@)],
                    "Access denied"@)
            },
            permitted(user_id@, resource@, action@) ==> *final(self) == *old(self),
    {
        if !self.check_permissions(user_id, resource, action) {
            let mut desc = concat("Unauthorized access attempt: ", user_id);
            desc.append(" ");
            desc.append(action);
            desc.append(" ");
            desc.append(resource);
            let mut evidence: Vec<(String, String)> = Vec::new();
            evidence.push(named("user_id", user_id));
            evidence.push(named("resource", resource));
            evidence.push(named("action", action));
            let event = make_event(SecurityThreat::UnauthorizedAccess, SecuritySeverity::Medium, desc, None,
                Some(owned(user_id)), now, evidence, "Access denied");
            proof {
                assert(pair_texts(evidence@) =~= seq![("user_id"@, user_id@), ("resource"@, resource@), ("action"@, action@)]);
            }
            let _ = self.record_event(event);
            return Ok(true);
        }
        Ok(false)
    }

    /// Flags a transfer of more than 100 MiB, recording it.
    pub fn check_data_exfiltration(&mut self, data_size: u64, destination: &str, now: u64) -> (r: Result<bool, String>)
        requires
            can_count(old(self).metrics_view()),
        ensures
            final(self).config_view() == old(self).config_view(),
            final(self).blacklist_view() == old(self).blacklist_view(),
            forall|k: Seq<char>| final(self).limiter_times(k) == old(self).limiter_times(k),
            old(self).limiters_configured() ==> final(self).limiters_configured(),
            r == Ok::<bool, String>(data_size > MAX_TRANSFER_BYTES),
            data_size > MAX_TRANSFER_BYTES ==> {
                let v = final(self).pending_view().last();
                &&& final(self).logged(old(self), v)
                &&& event_is(v, SecurityThreat::DataExfiltration, SecuritySeverity::High,
                    "Large data transfer detected: "@ + decimal(data_size as nat) + " bytes to "@ + destination@, None, None, now,
                    seq![("data_size"@, decimal(data_size as nat)), ("destination"@, destination@),
                        ("max_allowed"@, decimal(MAX_TRANSFER_BYTES as nat))],
                    "Transfer blocked"@)
            },
            data_size <= MAX_TRANSFER_BYTES ==> *final(self) == *old(self),
    {
        if data_size > MAX_TRANSFER_BYTES {
            let size_text = number_text(data_size);
            let max_text = number_text(MAX_TRANSFER_BYTES);
            let mut desc = concat("Large data transfer detected: ", size_text.as_str());
            desc.append(" bytes to ");
            desc.append(destination);
            let mut evidence: Vec<(String, String)> = Vec::new();
            evidence.push(named("data_size", size_text.as_str()));
            evidence.push(named("destination", destination));
            evidence.push(named("max_allowed", max_text.as_str()));
            let event = make_event(SecurityThreat::DataExfiltration, SecuritySeverity::High, desc, None, None, now,
                evidence, "Transfer blocked");
            proof {
                assert(pair_texts(evidence@) =~= seq![("data_size"@, decimal(data_size as nat)), ("destination"@, destination@),
                    ("max_allowed"@, decimal(MAX_TRANSFER_BYTES as nat))]);
            }
            let _ = self.record_event(event);
            return Ok(true);
        }
        Ok(false)
    }
}

} // verus!

verus! {

/// One hour, in milliseconds.
pub const HOUR_MS: u64 = 3600000;

/// The events among `s` less than an hour before `now` (or later).
pub open spec fn active_events(s: Seq<EventView>, now: u64) -> nat
    decreases s.len(),
{
    if s.len() == 0 {
        0
    } else {
        active_events(s.drop_last(), now) + if within(now, s.last().timestamp_ms, HOUR_MS) { 1nat } else { 0nat }
    }
}

/// `t` is at most `span` before `now` (or later).
pub open spec fn not_older(now: u64, t: u64, span: int) -> bool {
    t + span >= now
}

/// The events among `s` at most `span` before `now` (or later), in order.
pub open spec fn events_since(s: Seq<EventView>, now: u64, span: int) -> Seq<EventView>
    decreases s.len(),
{
    if s.len() == 0 {
        Seq::empty()
    } else {
        events_since(s.drop_last(), now, span) + if not_older(now, s.last().timestamp_ms, span) {
            seq![s.last()]
        } else {
            Seq::empty()
        }
    }
}

/// How often each threat type occurs in `s`, in order of first occurrence.
pub open spec fn tally(s: Seq<SecurityThreat>) -> Seq<(SecurityThreat, nat)>
    decreases s.len(),
{
    if s.len() == 0 {
        Seq::empty()
    } else {
        let prev = tally(s.drop_last());
        match prev.map_values(|p: (SecurityThreat, nat)| p.0).index_of_first(s.last()) {
            Some(i) => prev.update(i, (s.last(), prev[i].1 + 1)),
            None => prev.push((s.last(), 1nat)),
        }
    }
}

/// The threat types of some events.
pub open spec fn threat_types(s: Seq<EventView>) -> Seq<SecurityThreat> {
    s.map_values(|e: EventView| e.threat_type)
}

/// Counts of threat types, with the counts as plain numbers.
pub open spec fn tally_view(s: Seq<(SecurityThreat, u32)>) -> Seq<(SecurityThreat, nat)> {
    s.map_values(|p: (SecurityThreat, u32)| (p.0, p.1 as nat))
}

/// The tally of `s` has at most one entry per event and counts at most
/// every event.
pub proof fn lemma_tally_bounds(s: Seq<SecurityThreat>)
    ensures
        tally(s).len() <= s.len(),
        forall|i: int| 0 <= i < tally(s).len() ==> #[trigger] tally(s)[i].1 <= s.len(),
    decreases s.len(),
{
    if s.len() > 0 {
        lemma_tally_bounds(s.drop_last());
        let prev = tally(s.drop_last());
        prev.map_values(|p: (SecurityThreat, nat)| p.0).index_of_first_ensures(s.last());
    }
}

/// A security report: counts, the last day's events, how often each
/// threat type occurred among them, and when it was made.
#[derive(Debug)]
pub struct SecurityReport {
    pub metrics: SecurityMetrics,
    pub recent_events: Vec<SecurityEvent>,
    pub threat_counts: Vec<(SecurityThreat, u32)>,
    pub generated_at_ms: u64,
}

impl SecurityScanner {
    /// Counts the events less than an hour before `now` as the active
    /// threats.
    pub fn update_active_threats(&mut self, now: u64)
        ensures
            final(self).metrics_view() == (SecurityMetrics {
                active_threats: active_events(old(self).events_view(), now) as u64,
                ..old(self).metrics_view()
            }),
            final(self).events_view() == old(self).events_view(),
            final(self).pending_view() == old(self).pending_view(),
            final(self).config_view() == old(self).config_view(),
            final(self).blacklist_view() == old(self).blacklist_view(),
            forall|k: Seq<char>| final(self).limiter_times(k) == old(self).limiter_times(k),
            old(self).limiters_configured() ==> final(self).limiters_configured(),
    {
        let ghost es = event_views(self.events@);
        let mut n: u64 = 0;
        let mut i: usize = 0;
        while i < self.events.len()
            invariant
                i <= self.events@.len(),
                es == event_views(self.events@),
                n == active_events(es.take(i as int), now),
                n <= i,
                i <= usize::MAX,
            decreases self.events@.len() - i,
        {
            proof {
                assert(es.take(i + 1).drop_last() =~= es.take(i as int));
            }
            let t = self.events[i].timestamp_ms;
            let age = if now >= t { now - t } else { 0 };
            if age < HOUR_MS {
                n = n + 1;
            }
            i = i + 1;
        }
        proof {
            assert(es.take(i as int) =~= es);
        }
        self.metrics.active_threats = n;
    }

    /// The counts.
    pub fn get_metrics(&self) -> (m: SecurityMetrics)
        ensures
            m == self.metrics_view(),
    {
        self.metrics
    }

    /// Copies of the events of the last `hours` hours before `now` (and
    /// any later ones), oldest first.
    pub fn get_recent_events(&self, hours: u32, now: u64) -> (r: Vec<SecurityEvent>)
        ensures
            event_views(r@) == events_since(self.events_view(), now, hours * HOUR_MS),
    {
        let span: u64 = (hours as u64) * HOUR_MS;
        let ghost es = event_views(self.events@);
        let mut r: Vec<SecurityEvent> = Vec::new();
        let mut i: usize = 0;
        while i < self.events.len()
            invariant
                i <= self.events@.len(),
                es == event_views(self.events@),
                span == hours * HOUR_MS,
                event_views(r@) == events_since(es.take(i as int), now, span as int),
            decreases self.events@.len() - i,
        {
            proof {
                assert(es.take(i + 1).drop_last() =~= es.take(i as int));
            }
            let t = self.events[i].timestamp_ms;
            if now <= t || now - t <= span {
                let c = copy_event(&self.events[i]);
                let ghost before = event_views(r@);
                r.push(c);
                proof {
                    assert(event_views(r@) =~= before.push(es[i as int]));
                }
            }
            i = i + 1;
        }
        proof {
            assert(es.take(i as int) =~= es);
        }
        r
    }

    /// Marks the first event with id `event_id` resolved (nothing happens
    /// when there is none).
    pub fn resolve_event(&mut self, event_id: &str) -> (r: Result<(), String>)
        ensures
            r is Ok,
            match self_ids(old(self).events_view()).index_of_first(event_id@) {
                Some(i) => final(self).events_view() == old(self).events_view().update(i,
                    EventView { resolved: true, ..old(self).events_view()[i] }),
                None => final(self).events_view() == old(self).events_view(),
            },
            final(self).pending_view() == old(self).pending_view(),
            final(self).metrics_view() == old(self).metrics_view(),
            final(self).config_view() == old(self).config_view(),
            final(self).blacklist_view() == old(self).blacklist_view(),
            forall|k: Seq<char>| final(self).limiter_times(k) == old(self).limiter_times(k),
            old(self).limiters_configured() ==> final(self).limiters_configured(),
    {
        let key = owned(event_id);
        let ghost es = event_views(self.events@);
        let ghost ks = self_ids(es);
        let mut i: usize = 0;
        while i < self.events.len()
            invariant
                i <= self.events@.len(),
                key@ == event_id@,
                es == event_views(self.events@),
                ks == self_ids(es),
                *self == *old(self),
                forall|j: int| 0 <= j < i ==> self.events@[j].id@ != event_id@,
            decreases self.events@.len() - i,
        {
            if self.events[i].id == key {
                proof {
                    ks.index_of_first_ensures(event_id@);
                    assert(ks[i as int] == event_id@);
                    let f = ks.index_of_first(event_id@)->0;
                    if f < i {
                        assert(ks[f] == self.events@[f].id@);
                    }
                }
                let mut e = self.events.remove(i);
                e.resolved = true;
                let ghost ev = e@;
                self.events.insert(i, e);
                proof {
                    assert(event_views(self.events@) =~= es.update(i as int, ev));
                    assert(ev =~= (EventView { resolved: true, ..es[i as int] }));
                }
                return Ok(());
            }
            i = i + 1;
        }
        proof {
            ks.index_of_first_ensures(event_id@);
            if ks.contains(event_id@) {
                let j = choose|j: int| 0 <= j < ks.len() && ks[j] == event_id@;
                assert(ks[j] == self.events@[j].id@);
            }
        }
        Ok(())
    }

    /// A report at `now`: the counts, the events of the last 24 hours and
    /// how often each threat type occurred among them.
    pub fn generate_security_report(&self, now: u64) -> (r: SecurityReport)
        requires
            self.events_view().len() <= u32::MAX,
        ensures
            r.metrics == self.metrics_view(),
            event_views(r.recent_events@) == events_since(self.events_view(), now, 24 * HOUR_MS),
            tally_view(r.threat_counts@) == tally(threat_types(event_views(r.recent_events@))),
            r.generated_at_ms == now,
    {
        let metrics = self.get_metrics();
        let recent = self.get_recent_events(24, now);
        let ghost rv = event_views(recent@);
        proof {
            lemma_events_since_len(self.events_view(), now, 24 * HOUR_MS);
        }
        let mut counts: Vec<(SecurityThreat, u32)> = Vec::new();
        let mut i: usize = 0;
        while i < recent.len()
            invariant
                i <= recent@.len(),
                rv == event_views(recent@),
                recent@.len() <= u32::MAX,
                tally_view(counts@) == tally(threat_types(rv).take(i as int)),
            decreases recent@.len() - i,
        {
            let t = recent[i].threat_type;
            let ghost ts = threat_types(rv).take(i + 1);
            proof {
                assert(ts.drop_last() =~= threat_types(rv).take(i as int));
                assert(ts.last() == t);
                lemma_tally_bounds(ts.drop_last());
            }
            let ghost prev = tally_view(counts@);
            let mut j: usize = 0;
            while j < counts.len() && counts[j].0 != t
                invariant
                    j <= counts@.len(),
                    prev == tally_view(counts@),
                    forall|q: int| 0 <= q < j ==> counts@[q].0 != t,
                decreases counts@.len() - j,
            {
                j = j + 1;
            }
            let ghost tys = prev.map_values(|p: (SecurityThreat, nat)| p.0);
            proof {
                tys.index_of_first_ensures(t);
            }
            if j < counts.len() {
                proof {
                    assert(tys[j as int] == t);
                    let f = tys.index_of_first(t)->0;
                    if f < j {
                        assert(tys[f] == counts@[f].0);
                    }
                    assert(prev[j as int].1 <= i);
                }
                let (ty, c) = counts.remove(j);
                counts.insert(j, (ty, c + 1));
                proof {
                    assert(tally_view(counts@) =~= prev.update(j as int, (t, prev[j as int].1 + 1)));
                }
            } else {
                proof {
                    if tys.contains(t) {
                        let q = choose|q: int| 0 <= q < tys.len() && tys[q] == t;
                        assert(tys[q] == counts@[q].0);
                    }
                }
                counts.push((t, 1));
                proof {
                    assert(tally_view(counts@) =~= prev.push((t, 1nat)));
                }
            }
            i = i + 1;
        }
        proof {
            assert(threat_types(rv).take(i as int) =~= threat_types(rv));
        }
        SecurityReport { metrics, recent_events: recent, threat_counts: counts, generated_at_ms: now }
    }
}

/// The ids of some events.
pub open spec fn self_ids(s: Seq<EventView>) -> Seq<Seq<char>> {
    s.map_values(|e: EventView| e.id)
}

/// Filtering keeps at most every event.
pub proof fn lemma_events_since_len(s: Seq<EventView>, now: u64, span: int)
    ensures
        events_since(s, now, span).len() <= s.len(),
    decreases s.len(),
{
    if s.len() > 0 {
        lemma_events_since_len(s.drop_last(), now, span);
    }
}

} // verus!

verus! {

/// Forgetting old requests keeps at most what was on record.
pub proof fn lemma_recent_times_len(ts: Seq<u64>, now: u64, window: u64)
    ensures
        recent_times(ts, now, window).len() <= ts.len(),
    decreases ts.len(),
{
    if ts.len() > 0 {
        lemma_recent_times_len(ts.drop_last(), now, window);
    }
}

/// A rate limiter never has more than its limit of requests on record: if
/// it had at most `limit` before a check, it has at most `limit` after.
pub proof fn lemma_limiter_stays_within_limit(ts: Seq<u64>, now: u64, window: u64, limit: u32)
    requires
        ts.len() <= limit,
    ensures
        ({
            let kept = recent_times(ts, now, window);
            let after = if kept.len() < limit { kept.push(now) } else { kept };
            after.len() <= limit
        }),
{
    lemma_recent_times_len(ts, now, window);
}

/// Keeping the newest `n` events keeps at most `n` of them, and the newest
/// one always when `n` is positive.
pub proof fn lemma_history_bounded(s: Seq<EventView>, e: EventView, n: nat)
    ensures
        keep_last(s.push(e), n).len() <= n || keep_last(s.push(e), n).len() == s.len() + 1,
        keep_last(s.push(e), n).len() <= if n < s.len() + 1 { n } else { s.len() + 1 },
        n > 0 ==> keep_last(s.push(e), n).last() == e,
{
}

} // verus!
