//! Advanced caching: entries keyed by string, with TTL, tags, priorities,
//! statistics and six eviction policies. Values are stored as encoded bytes
//! (optionally deflate-compressed, then optionally XOR-scrambled).
//!
//! Time is passed in by the caller as milliseconds since the Unix epoch.

use vstd::prelude::*;
use crate::strvec::{views, remove_value_n, count_of, remove_first, clone_strings, KeyedLists, position_of, copies, lemma_count_push, lemma_remove_value_n_step};
use crate::text::owned;
use std::io::Read;
use std::io::Write;
use rand::seq::SliceRandom;

verus! {

/// Cache priority levels.
#[derive(Debug, Clone, Copy, PartialEq, Eq, Structural)]
pub enum CachePriority {
    Low,
    Normal,
    High,
    Critical,
}

/// Eviction policies.
#[derive(Debug, Clone, Copy, PartialEq, Eq, Structural)]
pub enum EvictionPolicy {
    LRU,
    LFU,
    FIFO,
    TTL,
    Random,
    Priority,
}

/// Cache configuration.
#[derive(Debug, Clone, Copy)]
pub struct CacheConfig {
    pub max_size_bytes: u64,
    pub max_entries: u64,
    pub default_ttl_seconds: u64,
    pub cleanup_interval_seconds: u64,
    pub eviction_policy: EvictionPolicy,
    pub enable_compression: bool,
    pub enable_encryption: bool,
    pub enable_statistics: bool,
    pub enable_metrics: bool,
}

/// A stored entry.
#[derive(Debug)]
pub struct CacheEntry {
    pub key: String,
    pub value: Vec<u8>,
    pub created_at_ms: i64,
    pub accessed_at_ms: i64,
    pub access_count: u64,
    pub size_bytes: usize,
    pub ttl_seconds: Option<u64>,
    pub tags: Vec<String>,
    pub priority: CachePriority,
}

/// Integer statistics of the cache. Rates and percentages are derived from
/// these counters by the caller.
#[derive(Debug, Clone, Copy)]
pub struct CacheStats {
    pub total_entries: u64,
    pub total_size_bytes: u64,
    pub hit_count: u64,
    pub miss_count: u64,
    pub eviction_count: u64,
    /// `total_size_bytes` as it was right after the last `set`; memory usage is
    /// measured against it.
    pub size_basis_bytes: u64,
}

/// Operation metrics.
#[derive(Debug, Clone, Copy)]
pub struct CacheMetrics {
    pub operation_count: u64,
    /// Sum of the recorded operation times, in milliseconds (saturating).
    pub total_operation_time_ms: u128,
    pub slow_operations: u64,
    pub memory_pressure_events: u64,
}

/// Errors of the cache.
#[derive(Debug, Clone, Copy, PartialEq, Eq, Structural)]
pub enum CacheError {
    /// The compressor reported an error.
    Compression,
    /// The stored bytes could not be decompressed.
    Decompression,
    /// A statistics counter would pass `u64::MAX`.
    CounterOverflow,
    /// The given eviction order is not a permutation of the entries.
    InvalidOrder,
}

/// What a lookup found.
#[derive(Debug)]
pub enum GetOutcome {
    /// The decoded bytes of a live entry.
    Hit(Vec<u8>),
    /// No entry with that key.
    Miss,
    /// The entry had outlived its TTL and was dropped from the entry table.
    Expired,
}

/// Rank of a priority in eviction order (lowest first).
pub open spec fn priority_rank(p: CachePriority) -> nat {
    match p {
        CachePriority::Low => 0,
        CachePriority::Normal => 1,
        CachePriority::High => 2,
        CachePriority::Critical => 3,
    }
}

// ---------------------------------------------------------------------------
// Per-priority key lists

/// One list of keys per priority.
pub struct PriorityLists {
    low: Vec<String>,
    normal: Vec<String>,
    high: Vec<String>,
    critical: Vec<String>,
}

impl PriorityLists {
    pub closed spec fn list(&self, p: CachePriority) -> Seq<Seq<char>> {
        match p {
            CachePriority::Low => views(self.low@),
            CachePriority::Normal => views(self.normal@),
            CachePriority::High => views(self.high@),
            CachePriority::Critical => views(self.critical@),
        }
    }

    pub fn new() -> (r: Self)
        ensures
            forall|p: CachePriority| #[trigger] r.list(p) == Seq::<Seq<char>>::empty(),
    {
        let r = PriorityLists { low: Vec::new(), normal: Vec::new(), high: Vec::new(), critical: Vec::new() };
        assert forall|p: CachePriority| #[trigger] r.list(p) == Seq::<Seq<char>>::empty() by {
            match p {
                CachePriority::Low => assert(views(r.low@) =~= Seq::<Seq<char>>::empty()),
                CachePriority::Normal => assert(views(r.normal@) =~= Seq::<Seq<char>>::empty()),
                CachePriority::High => assert(views(r.high@) =~= Seq::<Seq<char>>::empty()),
                CachePriority::Critical => assert(views(r.critical@) =~= Seq::<Seq<char>>::empty()),
            }
        }
        r
    }

    fn slot(&mut self, p: CachePriority) -> (v: &mut Vec<String>)
        ensures
            views(v@) == old(self).list(p),
            forall|q: CachePriority| q != p ==> #[trigger] final(self).list(q) == old(self).list(q),
            views(final(v)@) == final(self).list(p),
    {
        match p {
            CachePriority::Low => &mut self.low,
            CachePriority::Normal => &mut self.normal,
            CachePriority::High => &mut self.high,
            CachePriority::Critical => &mut self.critical,
        }
    }

    pub fn push(&mut self, p: CachePriority, key: &String)
        ensures
            final(self).list(p) == old(self).list(p).push(key@),
            forall|q: CachePriority| q != p ==> #[trigger] final(self).list(q) == old(self).list(q),
    {
        let v = self.slot(p);
        let ghost before = v@;
        v.push(key.clone());
        assert(views(v@) =~= views(before).push(key@));
    }

    pub fn remove_item(&mut self, p: CachePriority, key: &String)
        ensures
            final(self).list(p) == old(self).list(p).remove_value(key@),
            forall|q: CachePriority| q != p ==> #[trigger] final(self).list(q) == old(self).list(q),
    {
        let v = self.slot(p);
        remove_first(v, key);
    }

    pub fn get(&self, p: CachePriority) -> (r: Vec<String>)
        ensures
            views(r@) == self.list(p),
    {
        match p {
            CachePriority::Low => clone_strings(&self.low),
            CachePriority::Normal => clone_strings(&self.normal),
            CachePriority::High => clone_strings(&self.high),
            CachePriority::Critical => clone_strings(&self.critical),
        }
    }
}

// ---------------------------------------------------------------------------
// Model of entries and of purging a sequence of victims

/// The keys of a sequence of entries.
pub open spec fn key_views(es: Seq<CacheEntry>) -> Seq<Seq<char>> {
    es.map_values(|e: CacheEntry| e.key@)
}

/// The tags of an entry.
pub open spec fn tag_views(e: CacheEntry) -> Seq<Seq<char>> {
    views(e.tags@)
}

/// `es` without its entry keyed `k` (unchanged when there is none).
pub open spec fn without_key(es: Seq<CacheEntry>, k: Seq<char>) -> Seq<CacheEntry> {
    match key_views(es).index_of_first(k) {
        Some(i) => es.remove(i),
        None => es,
    }
}

/// `es` after removing the entries keyed by `ks`, one after the other.
pub open spec fn without_keys(es: Seq<CacheEntry>, ks: Seq<Seq<char>>) -> Seq<CacheEntry>
    decreases ks.len(),
{
    if ks.len() == 0 {
        es
    } else {
        without_key(without_keys(es, ks.drop_last()), ks.last())
    }
}

/// The access order after purging the victims `vs` in turn (first occurrence
/// of each victim's key removed).
pub open spec fn order_after(order: Seq<Seq<char>>, vs: Seq<CacheEntry>) -> Seq<Seq<char>>
    decreases vs.len(),
{
    if vs.len() == 0 {
        order
    } else {
        order_after(order, vs.drop_last()).remove_value(vs.last().key@)
    }
}

/// The key list of priority `p` after purging the victims `vs` in turn: a
/// victim leaves the list of its own priority only.
pub open spec fn plist_after(l: Seq<Seq<char>>, p: CachePriority, vs: Seq<CacheEntry>) -> Seq<
    Seq<char>,
>
    decreases vs.len(),
{
    if vs.len() == 0 {
        l
    } else if vs.last().priority == p {
        plist_after(l, p, vs.drop_last()).remove_value(vs.last().key@)
    } else {
        plist_after(l, p, vs.drop_last())
    }
}

/// The key list of tag `t` after purging the victims `vs` in turn: a victim
/// leaves it once for every time it carries `t`.
pub open spec fn tags_after(l: Seq<Seq<char>>, t: Seq<char>, vs: Seq<CacheEntry>) -> Seq<Seq<char>>
    decreases vs.len(),
{
    if vs.len() == 0 {
        l
    } else {
        remove_value_n(tags_after(l, t, vs.drop_last()), vs.last().key@, count_of(tag_views(vs.last()), t))
    }
}

/// The entry keyed `k`, if any.
pub open spec fn entry_of(es: Seq<CacheEntry>, k: Seq<char>) -> Option<CacheEntry> {
    match key_views(es).index_of_first(k) {
        Some(i) => Some(es[i]),
        None => None,
    }
}

/// Whole seconds in `ms` milliseconds, truncated toward zero.
pub open spec fn whole_seconds(ms: int) -> int {
    if ms >= 0 { ms / 1000 } else { -((-ms) / 1000) }
}

/// An entry created at `created` with TTL `ttl` has expired at `now`: its
/// age in whole seconds exceeds the TTL read as a signed 64-bit number.
pub open spec fn is_expired(created: i64, ttl: Option<u64>, now: i64) -> bool {
    match ttl {
        Some(t) => whole_seconds(now - created) > (t as i64) as int,
        None => false,
    }
}

/// Number of leading items needed for their sizes to reach `required`
/// (all items when they never do).
pub open spec fn covering_len(sizes: Seq<nat>, required: nat) -> nat
    decreases sizes.len(),
{
    if required == 0 || sizes.len() == 0 {
        0
    } else {
        1 + covering_len(sizes.drop_first(), if required > sizes[0] {
            (required - sizes[0]) as nat
        } else {
            0nat
        })
    }
}

/// The sizes of the entries at the positions `perm`.
pub open spec fn sizes_at(es: Seq<CacheEntry>, perm: Seq<usize>) -> Seq<nat> {
    perm.map_values(|j: usize| es[j as int].size_bytes as nat)
}

/// The entries at the positions `perm`.
pub open spec fn entries_at(es: Seq<CacheEntry>, perm: Seq<usize>) -> Seq<CacheEntry> {
    perm.map_values(|j: usize| es[j as int])
}

/// The sum of `sizes`.
pub open spec fn size_sum(sizes: Seq<nat>) -> nat
    decreases sizes.len(),
{
    if sizes.len() == 0 { 0 } else { sizes[0] + size_sum(sizes.drop_first()) }
}

/// The covering prefix is the shortest that reaches `required`: nothing is
/// taken for nothing required, the prefix reaches the amount unless it is
/// everything, and one item fewer would not reach it.
pub proof fn lemma_covering_is_shortest(sizes: Seq<nat>, required: nat)
    ensures
        covering_len(sizes, required) <= sizes.len(),
        required == 0 ==> covering_len(sizes, required) == 0,
        size_sum(sizes.take(covering_len(sizes, required) as int)) >= required
            || covering_len(sizes, required) == sizes.len(),
        covering_len(sizes, required) > 0 ==> size_sum(sizes.take(covering_len(sizes, required) - 1)) < required,
    decreases sizes.len(),
{
    if required == 0 || sizes.len() == 0 {
        assert(sizes.take(0) =~= Seq::<nat>::empty());
    } else {
        let rest = sizes.drop_first();
        let r2: nat = if required > sizes[0] { (required - sizes[0]) as nat } else { 0nat };
        lemma_covering_is_shortest(rest, r2);
        let c2 = covering_len(rest, r2);
        let c = covering_len(sizes, required);
        assert(c == c2 + 1);
        assert(sizes.take(c as int).drop_first() =~= rest.take(c2 as int));
        assert(size_sum(sizes.take(c as int)) == sizes[0] + size_sum(rest.take(c2 as int)));
        if c2 > 0 {
            assert(sizes.take(c - 1).drop_first() =~= rest.take(c2 - 1));
            assert(size_sum(sizes.take(c - 1)) == sizes[0] + size_sum(rest.take(c2 - 1)));
        } else {
            assert(sizes.take(0) =~= Seq::<nat>::empty());
        }
    }
}

/// Under the Priority policy eviction goes Low, then Normal, then High, then
/// Critical: walking the table in the policy's order, no entry is evicted
/// while an entry of strictly lower priority is left.
pub proof fn lemma_priority_evicts_lowest_first(es: Seq<CacheEntry>, perm: Seq<usize>, required: nat)
    requires
        is_permutation(perm, es.len()),
        sorted_by(perm, rank_keys(es, EvictionPolicy::Priority)),
    ensures
        ({
            let walk = entries_at(es, perm);
            let c = covering_len(sizes_at(es, perm), required);
            forall|i: int, j: int| 0 <= i < c <= j < walk.len() ==> !(
                (#[trigger] walk[j]).priority == CachePriority::Low && (#[trigger] walk[i]).priority != CachePriority::Low
                || walk[j].priority == CachePriority::Normal && (walk[i].priority == CachePriority::High || walk[i].priority == CachePriority::Critical)
                || walk[j].priority == CachePriority::High && walk[i].priority == CachePriority::Critical)
        }),
{
    lemma_ranked_victims(es, perm, required, EvictionPolicy::Priority);
}

/// Ranked eviction takes the lowest-ranked entries first: walking a table
/// in ascending rank order, each victim ranks no higher than every entry
/// left, the victims' sizes reach `required` unless every entry goes, one
/// victim fewer would not reach it, and nothing goes when nothing is
/// required.
pub proof fn lemma_ranked_victims(es: Seq<CacheEntry>, perm: Seq<usize>, required: nat, policy: EvictionPolicy)
    requires
        is_permutation(perm, es.len()),
        sorted_by(perm, rank_keys(es, policy)),
    ensures
        ({
            let walk = entries_at(es, perm);
            let sizes = sizes_at(es, perm);
            let c = covering_len(sizes, required);
            &&& victims_in_order(es, perm, required) == walk.take(c as int)
            &&& c <= walk.len()
            &&& forall|i: int, j: int| 0 <= i < c <= j < walk.len()
                ==> rank_key(#[trigger] walk[i], policy) <= rank_key(#[trigger] walk[j], policy)
            &&& size_sum(sizes.take(c as int)) >= required || c == walk.len()
            &&& c > 0 ==> size_sum(sizes.take(c - 1)) < required
            &&& required == 0 ==> c == 0
        }),
{
    let walk = entries_at(es, perm);
    let sizes = sizes_at(es, perm);
    lemma_covering_is_shortest(sizes, required);
    let c = covering_len(sizes, required);
    let keys = rank_keys(es, policy);
    assert forall|i: int, j: int| 0 <= i < c <= j < walk.len()
        implies rank_key(#[trigger] walk[i], policy) <= rank_key(#[trigger] walk[j], policy) by {
        assert(ranked_before(keys[perm[i] as int] as int, perm[i], keys[perm[j] as int] as int, perm[j]));
        assert(walk[i] == es[perm[i] as int]);
        assert(walk[j] == es[perm[j] as int]);
    }
}

/// The entries evicted when the table `es` is walked in the order `perm`
/// until their sizes reach `required`.
pub open spec fn victims_in_order(es: Seq<CacheEntry>, perm: Seq<usize>, required: nat) -> Seq<CacheEntry> {
    entries_at(es, perm).take(covering_len(sizes_at(es, perm), required) as int)
}

/// The number by which `policy` ranks an entry for eviction (lowest goes
/// first): its access count for LFU, its creation time for FIFO, its
/// priority rank for Priority.
pub open spec fn rank_key(e: CacheEntry, policy: EvictionPolicy) -> i128 {
    match policy {
        EvictionPolicy::LFU => e.access_count as i128,
        EvictionPolicy::FIFO => e.created_at_ms as i128,
        EvictionPolicy::Priority => priority_rank(e.priority) as i128,
        _ => 0,
    }
}

/// The eviction ranks of a table under `policy`.
pub open spec fn rank_keys(es: Seq<CacheEntry>, policy: EvictionPolicy) -> Seq<i128> {
    es.map_values(|e: CacheEntry| rank_key(e, policy))
}

/// Least-recently-used eviction of the table `es` with access order `order`:
/// keys are taken from the front of the order while `required` bytes are
/// still wanted; a key with an entry drops that entry. Gives the number of
/// keys taken and the entries dropped, in order.
pub open spec fn lru_run(order: Seq<Seq<char>>, es: Seq<CacheEntry>, required: nat) -> (nat, Seq<CacheEntry>)
    decreases order.len(),
{
    if required == 0 || order.len() == 0 {
        (0, Seq::empty())
    } else {
        let k = order[0];
        match entry_of(es, k) {
            Some(e) => {
                let rest = lru_run(order.drop_first(), without_key(es, k), if required > e.size_bytes {
                    (required - e.size_bytes) as nat
                } else {
                    0nat
                });
                (rest.0 + 1, seq![e] + rest.1)
            },
            None => {
                let rest = lru_run(order.drop_first(), es, required);
                (rest.0 + 1, rest.1)
            },
        }
    }
}

/// The entries of `es` that have expired at `now`, in table order.
pub open spec fn expired_entries(es: Seq<CacheEntry>, now: i64) -> Seq<CacheEntry>
    decreases es.len(),
{
    if es.len() == 0 {
        Seq::empty()
    } else {
        let sub = expired_entries(es.drop_last(), now);
        if is_expired(es.last().created_at_ms, es.last().ttl_seconds, now) {
            sub.push(es.last())
        } else {
            sub
        }
    }
}

/// Storing `len` more bytes would pass the size limit, or the entry limit
/// is already reached.
pub open spec fn should_evict(stats: CacheStats, config: CacheConfig, len: nat) -> bool {
    stats.total_size_bytes + len > config.max_size_bytes || stats.total_entries >= config.max_entries
}

/// `e` is the entry that a store of `data` under `key` at `now` creates.
pub open spec fn fresh_entry(
    e: CacheEntry,
    key: Seq<char>,
    data: Seq<u8>,
    ttl: Option<u64>,
    tags: Seq<Seq<char>>,
    priority: CachePriority,
    now: i64,
) -> bool {
    &&& e.key@ == key
    &&& e.value@ == data
    &&& e.created_at_ms == now
    &&& e.accessed_at_ms == now
    &&& e.access_count == 0
    &&& e.size_bytes == data.len()
    &&& e.ttl_seconds == ttl
    &&& tag_views(e) == tags
    &&& e.priority == priority
}

/// `perm` lists every position below `n` exactly once.
pub open spec fn is_permutation(perm: Seq<usize>, n: nat) -> bool {
    &&& perm.len() == n
    &&& perm.no_duplicates()
    &&& forall|i: int| 0 <= i < perm.len() ==> #[trigger] perm[i] < n
}

// ---------------------------------------------------------------------------
// The cache

/// The cache: an entry table plus an access order, per-priority key lists
/// and per-tag key lists.
pub struct AdvancedCacheSystem {
    entries: Vec<CacheEntry>,
    config: CacheConfig,
    stats: CacheStats,
    metrics: CacheMetrics,
    access_order: Vec<String>,
    priority_queues: PriorityLists,
    tag_index: KeyedLists,
    compression_enabled: bool,
    encryption_enabled: bool,
}

impl AdvancedCacheSystem {
    /// The entry table, in insertion order.
    pub closed spec fn entries(&self) -> Seq<CacheEntry> {
        self.entries@
    }

    /// Keys in access order (least recently used first).
    pub closed spec fn order(&self) -> Seq<Seq<char>> {
        views(self.access_order@)
    }

    /// Keys filed under priority `p`.
    pub closed spec fn plist(&self, p: CachePriority) -> Seq<Seq<char>> {
        self.priority_queues.list(p)
    }

    /// Keys filed under tag `t`.
    pub closed spec fn tag_list(&self, t: Seq<char>) -> Seq<Seq<char>> {
        self.tag_index.list(t)
    }

    pub closed spec fn stats_view(&self) -> CacheStats {
        self.stats
    }

    pub closed spec fn metrics_view(&self) -> CacheMetrics {
        self.metrics
    }

    pub closed spec fn config_view(&self) -> CacheConfig {
        self.config
    }

    pub closed spec fn compression(&self) -> bool {
        self.compression_enabled
    }

    pub closed spec fn encryption(&self) -> bool {
        self.encryption_enabled
    }

    /// Keys of the entry table are distinct.
    pub open spec fn wf(&self) -> bool {
        key_views(self.entries()).no_duplicates()
    }

    /// Configuration, flags, statistics and metrics agree.
    pub open spec fn same_settings(&self, other: &Self) -> bool {
        &&& self.config_view() == other.config_view()
        &&& self.compression() == other.compression()
        &&& self.encryption() == other.encryption()
    }

    /// `new` is `old` with the victims `vs` dropped, one after the other, from
    /// the entry table, the priority lists and the tag lists.
    pub open spec fn dropped(old: &Self, new: &Self, vs: Seq<CacheEntry>) -> bool {
        &&& new.entries() == without_keys(old.entries(), key_views(vs))
        &&& forall|p: CachePriority| #[trigger] new.plist(p) == plist_after(old.plist(p), p, vs)
        &&& forall|t: Seq<char>| #[trigger] new.tag_list(t) == tags_after(old.tag_list(t), t, vs)
    }

    /// `new` is `old` with the victims `vs` purged, one after the other, from
    /// the entry table, the access order, the priority lists and the tag lists.
    pub open spec fn purged(old: &Self, new: &Self, vs: Seq<CacheEntry>) -> bool {
        &&& Self::dropped(old, new, vs)
        &&& new.order() == order_after(old.order(), vs)
    }

    /// A cache with no entries.
    pub fn new(config: CacheConfig) -> (c: Self)
        ensures
            c.wf(),
            c.entries().len() == 0,
            c.order().len() == 0,
            forall|p: CachePriority| #[trigger] c.plist(p).len() == 0,
            forall|t: Seq<char>| #[trigger] c.tag_list(t).len() == 0,
            c.config_view() == config,
            c.compression() == config.enable_compression,
            c.encryption() == config.enable_encryption,
            c.stats_view() == (CacheStats {
                total_entries: 0,
                total_size_bytes: 0,
                hit_count: 0,
                miss_count: 0,
                eviction_count: 0,
                size_basis_bytes: 0,
            }),
            c.metrics_view() == (CacheMetrics {
                operation_count: 0,
                total_operation_time_ms: 0,
                slow_operations: 0,
                memory_pressure_events: 0,
            }),
    {
        let c = AdvancedCacheSystem {
            entries: Vec::new(),
            config,
            stats: CacheStats {
                total_entries: 0,
                total_size_bytes: 0,
                hit_count: 0,
                miss_count: 0,
                eviction_count: 0,
                size_basis_bytes: 0,
            },
            metrics: CacheMetrics {
                operation_count: 0,
                total_operation_time_ms: 0,
                slow_operations: 0,
                memory_pressure_events: 0,
            },
            access_order: Vec::new(),
            priority_queues: PriorityLists::new(),
            tag_index: KeyedLists::new(),
            compression_enabled: config.enable_compression,
            encryption_enabled: config.enable_encryption,
        };
        assert(key_views(c.entries@) =~= Seq::<Seq<char>>::empty());
        assert(views(c.access_order@) =~= Seq::<Seq<char>>::empty());
        c
    }

    /// Position of the entry keyed `key`.
    fn find_entry(&self, key: &String) -> (r: Option<usize>)
        ensures
            match r {
                Some(i) => key_views(self.entries()).index_of_first(key@) == Some(i as int) && i
                    < self.entries().len(),
                None => key_views(self.entries()).index_of_first(key@) is None,
            },
    {
        let mut i: usize = 0;
        while i < self.entries.len()
            invariant
                i <= self.entries@.len(),
                forall|j: int| 0 <= j < i ==> self.entries@[j].key@ != key@,
            decreases self.entries@.len() - i,
        {
            if self.entries[i].key == *key {
                proof {
                    let ks = key_views(self.entries@);
                    ks.index_of_first_ensures(key@);
                    assert(ks[i as int] == key@);
                    let f = ks.index_of_first(key@)->0;
                    if f < i {
                        assert(ks[f] == self.entries@[f].key@);
                    }
                }
                return Some(i);
            }
            i = i + 1;
        }
        proof {
            let ks = key_views(self.entries@);
            ks.index_of_first_ensures(key@);
            if ks.contains(key@) {
                let j = choose|j: int| 0 <= j < ks.len() && ks[j] == key@;
                assert(self.entries@[j].key@ == key@);
            }
        }
        None
    }

    /// Removes `key` from the tag list of every tag in `tags` (once per
    /// occurrence of the tag).
    fn untag(&mut self, tags: &Vec<String>, key: &String)
        ensures
            forall|t: Seq<char>| #[trigger] final(self).tag_list(t) == remove_value_n(
                old(self).tag_list(t),
                key@,
                count_of(views(tags@), t),
            ),
            final(self).entries == old(self).entries,
            final(self).access_order == old(self).access_order,
            final(self).priority_queues == old(self).priority_queues,
            final(self).stats == old(self).stats,
            final(self).metrics == old(self).metrics,
            final(self).config == old(self).config,
            final(self).compression_enabled == old(self).compression_enabled,
            final(self).encryption_enabled == old(self).encryption_enabled,
    {
        let mut j: usize = 0;
        while j < tags.len()
            invariant
                j <= tags@.len(),
                forall|t: Seq<char>| #[trigger] self.tag_list(t) == remove_value_n(
                    old(self).tag_list(t),
                    key@,
                    count_of(views(tags@).take(j as int), t),
                ),
                self.entries == old(self).entries,
                self.access_order == old(self).access_order,
                self.priority_queues == old(self).priority_queues,
                self.stats == old(self).stats,
                self.metrics == old(self).metrics,
                self.config == old(self).config,
                self.compression_enabled == old(self).compression_enabled,
                self.encryption_enabled == old(self).encryption_enabled,
            decreases tags@.len() - j,
        {
            let ghost before = *self;
            self.tag_index.remove_item(&tags[j], key);
            proof {
                let tv = views(tags@);
                assert(tv.take(j + 1) =~= tv.take(j as int).push(tv[j as int]));
                assert(tv[j as int] == tags@[j as int]@);
                assert forall|t: Seq<char>| #[trigger] self.tag_list(t) == remove_value_n(
                    old(self).tag_list(t),
                    key@,
                    count_of(tv.take(j + 1), t),
                ) by {
                    let c = count_of(tv.take(j as int), t);
                    assert(before.tag_list(t) == remove_value_n(old(self).tag_list(t), key@, c));
                    lemma_count_push(tv.take(j as int), tv[j as int], t);
                    lemma_remove_value_n_step(old(self).tag_list(t), key@, c);
                    if t == tv[j as int] {
                        assert(self.tag_list(t) == before.tag_list(t).remove_value(key@));
                    } else {
                        assert(self.tag_list(t) == before.tag_list(t));
                    }
                }
            }
            j = j + 1;
        }
        assert(views(tags@).take(j as int) =~= views(tags@));
    }

    /// Drops the entry keyed `key` from the table, its priority list and its
    /// tag lists (the access order is left alone); returns its size, or `None`
    /// (changing nothing) when there is no such entry.
    fn drop_entry(&mut self, key: &String) -> (r: Option<usize>)
        requires
            old(self).wf(),
        ensures
            final(self).wf(),
            final(self).same_settings(old(self)),
            final(self).stats_view() == old(self).stats_view(),
            final(self).metrics_view() == old(self).metrics_view(),
            final(self).access_order == old(self).access_order,
            match entry_of(old(self).entries(), key@) {
                Some(e) => r == Some(e.size_bytes) && Self::dropped(old(self), final(self), seq![e]),
                None => r is None && Self::dropped(old(self), final(self), Seq::empty()),
            },
    {
        match self.find_entry(key) {
            None => {
                proof {
                    let es = self.entries@;
                    assert(without_keys(es, key_views(Seq::<CacheEntry>::empty())) == es);
                }
                None
            },
            Some(i) => {
                let ghost old_self = *self;
                let e = self.entries.remove(i);
                self.priority_queues.remove_item(e.priority, key);
                self.untag(&e.tags, key);
                proof {
                    let es = old_self.entries@;
                    let vs = seq![e];
                    key_views(es).index_of_first_ensures(key@);
                    assert(e == es[i as int]);
                    assert(e.key@ == key@);
                    assert(key_views(vs) =~= seq![key@]);
                    assert(key_views(vs).drop_last() =~= Seq::<Seq<char>>::empty());
                    assert(vs.drop_last() =~= Seq::<CacheEntry>::empty());
                    assert(without_keys(es, Seq::<Seq<char>>::empty()) == es);
                    assert(without_keys(es, key_views(vs)) == without_key(without_keys(es, key_views(vs).drop_last()), key_views(vs).last()));
                    assert(without_keys(es, key_views(vs)) == without_key(es, key@));
                    assert(key_views(self.entries@) =~= key_views(es).remove(i as int));
                    lemma_no_dup_remove(key_views(es), i as int);
                    assert forall|p: CachePriority| #[trigger] self.plist(p) == plist_after(old_self.plist(p), p, vs) by {
                        assert(plist_after(old_self.plist(p), p, vs.drop_last()) == old_self.plist(p));
                    }
                    assert forall|t: Seq<char>| #[trigger] self.tag_list(t) == tags_after(old_self.tag_list(t), t, vs) by {
                        assert(tags_after(old_self.tag_list(t), t, vs.drop_last()) == old_self.tag_list(t));
                    }
                }
                Some(e.size_bytes)
            },
        }
    }

    /// Purges the entry keyed `key` from the table and every index; returns
    /// its size, or `None` (changing nothing) when there is no such entry.
    fn purge(&mut self, key: &String) -> (r: Option<usize>)
        requires
            old(self).wf(),
        ensures
            final(self).wf(),
            final(self).same_settings(old(self)),
            final(self).stats_view() == old(self).stats_view(),
            final(self).metrics_view() == old(self).metrics_view(),
            match entry_of(old(self).entries(), key@) {
                Some(e) => r == Some(e.size_bytes) && Self::purged(old(self), final(self), seq![e]),
                None => r is None && Self::purged(old(self), final(self), Seq::empty()),
            },
    {
        let ghost old_self = *self;
        let r = self.drop_entry(key);
        match r {
            None => {
                assert(order_after(old_self.order(), Seq::empty()) == old_self.order());
            },
            Some(_) => {
                let ghost mid = *self;
                remove_first(&mut self.access_order, key);
                proof {
                    assert(self.entries() == mid.entries());
                    assert(forall|p: CachePriority| #[trigger] self.plist(p) == mid.plist(p));
                    assert(forall|t: Seq<char>| #[trigger] self.tag_list(t) == mid.tag_list(t));
                    let e = entry_of(old_self.entries(), key@)->0;
                    key_views(old_self.entries@).index_of_first_ensures(key@);
                    let i = key_views(old_self.entries@).index_of_first(key@)->0;
                    assert(e.key@ == key_views(old_self.entries@)[i]);
                    assert(seq![e].drop_last() =~= Seq::<CacheEntry>::empty());
                    assert(order_after(old_self.order(), seq![e].drop_last()) == old_self.order());
                }
            },
        }
        r
    }

    /// Dropping `vs` and then `e` is dropping `vs` followed by `e`.
    proof fn lemma_dropped_push(a: &Self, b: &Self, c: &Self, vs: Seq<CacheEntry>, e: CacheEntry)
        requires
            Self::dropped(a, b, vs),
            Self::dropped(b, c, seq![e]),
        ensures
            Self::dropped(a, c, vs.push(e)),
    {
        let ws = vs.push(e);
        assert(ws.drop_last() =~= vs);
        assert(seq![e].drop_last() =~= Seq::<CacheEntry>::empty());
        assert(key_views(ws).drop_last() =~= key_views(vs));
        assert(key_views(seq![e]).drop_last() =~= Seq::<Seq<char>>::empty());
        assert(key_views(seq![e]).last() == e.key@);
        assert(key_views(ws).last() == e.key@);
        assert(without_keys(b.entries(), Seq::<Seq<char>>::empty()) == b.entries());
        assert(c.entries() == without_key(b.entries(), e.key@));
        assert forall|p: CachePriority| #[trigger] c.plist(p) == plist_after(a.plist(p), p, ws) by {
            assert(plist_after(b.plist(p), p, Seq::<CacheEntry>::empty()) == b.plist(p));
            assert(c.plist(p) == plist_after(b.plist(p), p, seq![e]));
        }
        assert forall|t: Seq<char>| #[trigger] c.tag_list(t) == tags_after(a.tag_list(t), t, ws) by {
            assert(tags_after(b.tag_list(t), t, Seq::<CacheEntry>::empty()) == b.tag_list(t));
            assert(c.tag_list(t) == tags_after(b.tag_list(t), t, seq![e]));
        }
    }

    /// Purging `vs` and then `e` is purging `vs` followed by `e`.
    proof fn lemma_purged_push(a: &Self, b: &Self, c: &Self, vs: Seq<CacheEntry>, e: CacheEntry)
        requires
            Self::purged(a, b, vs),
            Self::purged(b, c, seq![e]),
        ensures
            Self::purged(a, c, vs.push(e)),
    {
        Self::lemma_dropped_push(a, b, c, vs, e);
        let ws = vs.push(e);
        assert(ws.drop_last() =~= vs);
        assert(seq![e].drop_last() =~= Seq::<CacheEntry>::empty());
        assert(order_after(b.order(), Seq::<CacheEntry>::empty()) == b.order());
    }

    /// Purges the entries `vs`, whose keys are `keys`, one after the other.
    fn purge_all(&mut self, keys: &Vec<String>, Ghost(vs): Ghost<Seq<CacheEntry>>)
        requires
            old(self).wf(),
            views(keys@) == key_views(vs),
            key_views(vs).no_duplicates(),
            forall|i: int| 0 <= i < vs.len() ==> entry_of(old(self).entries(), #[trigger] vs[i].key@) == Some(vs[i]),
        ensures
            final(self).wf(),
            final(self).same_settings(old(self)),
            final(self).stats_view() == old(self).stats_view(),
            final(self).metrics_view() == old(self).metrics_view(),
            Self::purged(old(self), final(self), vs),
    {
        let ghost start = *self;
        proof {
            assert(vs.take(0) =~= Seq::<CacheEntry>::empty());
            assert(views(keys@).len() == keys@.len());
            assert(key_views(vs).len() == vs.len());
            assert(key_views(Seq::<CacheEntry>::empty()) =~= Seq::<Seq<char>>::empty());
            assert(without_keys(start.entries(), Seq::<Seq<char>>::empty()) == start.entries());
            assert(order_after(start.order(), Seq::<CacheEntry>::empty()) == start.order());
            assert forall|p: CachePriority| #[trigger] start.plist(p) == plist_after(start.plist(p), p, Seq::<CacheEntry>::empty()) by {}
            assert forall|t: Seq<char>| #[trigger] start.tag_list(t) == tags_after(start.tag_list(t), t, Seq::<CacheEntry>::empty()) by {}
        }
        let mut i: usize = 0;
        while i < keys.len()
            invariant
                i <= keys@.len(),
                vs.len() == keys@.len(),
                views(keys@) == key_views(vs),
                key_views(vs).no_duplicates(),
                self.wf(),
                self.same_settings(&start),
                self.stats_view() == start.stats_view(),
                self.metrics_view() == start.metrics_view(),
                Self::purged(&start, self, vs.take(i as int)),
                forall|j: int| i <= j < vs.len() ==> entry_of(self.entries(), #[trigger] vs[j].key@) == Some(vs[j]),
            decreases keys@.len() - i,
        {
            let ghost cur = *self;
            proof {
                assert(keys@[i as int]@ == views(keys@)[i as int]);
                assert(key_views(vs)[i as int] == vs[i as int].key@);
            }
            let _ = self.purge(&keys[i]);
            proof {
                let e = vs[i as int];
                assert(entry_of(cur.entries(), e.key@) == Some(e));
                Self::lemma_purged_push(&start, &cur, self, vs.take(i as int), e);
                assert(vs.take(i + 1) =~= vs.take(i as int).push(e));
                assert(key_views(seq![e]) =~= seq![e.key@]);
                assert(key_views(seq![e]).drop_last() =~= Seq::<Seq<char>>::empty());
                assert(without_keys(cur.entries(), Seq::<Seq<char>>::empty()) == cur.entries());
                assert(self.entries() == without_key(cur.entries(), e.key@));
                assert forall|j: int| i + 1 <= j < vs.len() implies entry_of(self.entries(), #[trigger] vs[j].key@) == Some(vs[j]) by {
                    assert(key_views(vs)[j] == vs[j].key@);
                    assert(key_views(vs)[j] != key_views(vs)[i as int]);
                    lemma_entry_of_without(cur.entries(), e.key@, vs[j].key@);
                }
            }
            i = i + 1;
        }
        proof {
            assert(vs.take(i as int) =~= vs);
        }
    }

    /// Keys of the leading entries, in the order `perm`, whose sizes reach
    /// `required` (all of them when they never do).
    fn covering_keys(&self, perm: &Vec<usize>, required: usize) -> (r: Vec<String>)
        requires
            is_permutation(perm@, self.entries().len()),
        ensures
            views(r@) == key_views(victims_in_order(self.entries(), perm@, required as nat)),
            covering_len(sizes_at(self.entries(), perm@), required as nat) <= perm@.len(),
    {
        let ghost es = self.entries@;
        let ghost sizes = sizes_at(es, perm@);
        let mut r: Vec<String> = Vec::new();
        let mut remaining: usize = required;
        let mut i: usize = 0;
        proof {
            assert(sizes.skip(0) =~= sizes);
        }
        while i < perm.len() && remaining > 0
            invariant
                i <= perm@.len(),
                sizes.len() == perm@.len(),
                es == self.entries@,
                sizes == sizes_at(es, perm@),
                is_permutation(perm@, es.len()),
                covering_len(sizes, required as nat) == i + covering_len(sizes.skip(i as int), remaining as nat),
                views(r@) == key_views(entries_at(es, perm@).take(i as int)),
            decreases perm@.len() - i,
        {
            let j = perm[i];
            let size = self.entries[j].size_bytes;
            proof {
                let t = sizes.skip(i as int);
                assert(t[0] == sizes[i as int]);
                assert(t.drop_first() =~= sizes.skip(i + 1));
                assert(sizes[i as int] == size as nat);
            }
            let ghost before = r@;
            let k = self.entries[j].key.clone();
            r.push(k);
            remaining = if size >= remaining { 0 } else { remaining - size };
            i = i + 1;
            proof {
                assert(views(r@) =~= views(before).push(k@));
                assert(entries_at(es, perm@).take(i as int) =~= entries_at(es, perm@).take(i - 1).push(es[j as int]));
                assert(key_views(entries_at(es, perm@).take(i as int)) =~= key_views(entries_at(es, perm@).take(i - 1)).push(es[j as int].key@));
            }
        }
        proof {
            assert(covering_len(sizes.skip(i as int), remaining as nat) == 0);
        }
        r
    }

    /// Evicts the leading entries, in the order `perm`, whose sizes reach
    /// `required`, and counts one eviction run.
    fn evict_in_order(&mut self, perm: &Vec<usize>, required: usize)
        requires
            old(self).wf(),
            is_permutation(perm@, old(self).entries().len()),
            old(self).stats_view().eviction_count < u64::MAX,
        ensures
            final(self).wf(),
            final(self).same_settings(old(self)),
            final(self).metrics_view() == old(self).metrics_view(),
            Self::purged(old(self), final(self), victims_in_order(old(self).entries(), perm@, required as nat)),
            final(self).stats_view() == (CacheStats {
                eviction_count: (old(self).stats_view().eviction_count + 1) as u64,
                ..old(self).stats_view()
            }),
    {
        let keys = self.covering_keys(perm, required);
        let ghost es = self.entries@;
        let ghost vs = victims_in_order(es, perm@, required as nat);
        proof {
            let c = covering_len(sizes_at(es, perm@), required as nat) as int;
            assert forall|a: int, b: int| 0 <= a < vs.len() && 0 <= b < vs.len() && a != b implies
                key_views(vs)[a] != key_views(vs)[b] by {
                assert(vs[a] == es[perm@[a] as int]);
                assert(vs[b] == es[perm@[b] as int]);
                assert(perm@[a] != perm@[b]);
                assert(key_views(es)[perm@[a] as int] == es[perm@[a] as int].key@);
                assert(key_views(es)[perm@[b] as int] == es[perm@[b] as int].key@);
            }
            assert forall|i: int| 0 <= i < vs.len() implies entry_of(es, #[trigger] vs[i].key@) == Some(vs[i]) by {
                assert(vs[i] == es[perm@[i] as int]);
                lemma_entry_of_index(es, perm@[i] as int);
            }
        }
        self.purge_all(&keys, Ghost(vs));
        let ghost mid = *self;
        self.stats.eviction_count = self.stats.eviction_count + 1;
        proof {
            assert(self.entries() == mid.entries());
            assert(self.order() == mid.order());
            assert(forall|p: CachePriority| #[trigger] self.plist(p) == mid.plist(p));
            assert(forall|t: Seq<char>| #[trigger] self.tag_list(t) == mid.tag_list(t));
        }
    }

    /// The eviction ranks of the entries under `policy`.
    fn ranks(&self, policy: EvictionPolicy) -> (r: Vec<i128>)
        ensures
            r@ == rank_keys(self.entries(), policy),
    {
        let mut r: Vec<i128> = Vec::new();
        let mut i: usize = 0;
        while i < self.entries.len()
            invariant
                i <= self.entries@.len(),
                r@ == rank_keys(self.entries@.take(i as int), policy),
            decreases self.entries@.len() - i,
        {
            let e = &self.entries[i];
            let k: i128 = match policy {
                EvictionPolicy::LFU => e.access_count as i128,
                EvictionPolicy::FIFO => e.created_at_ms as i128,
                EvictionPolicy::Priority => match e.priority {
                    CachePriority::Low => 0,
                    CachePriority::Normal => 1,
                    CachePriority::High => 2,
                    CachePriority::Critical => 3,
                },
                _ => 0,
            };
            let ghost before = r@;
            r.push(k);
            i = i + 1;
            assert(rank_keys(self.entries@.take(i as int), policy) =~= rank_keys(self.entries@.take(i - 1), policy).push(k));
            assert(r@ =~= before.push(k));
        }
        assert(self.entries@.take(i as int) =~= self.entries@);
        r
    }

    /// Evicts entries in ascending rank under `policy` (ties in table order)
    /// until `required` bytes are freed.
    fn evict_ranked(&mut self, policy: EvictionPolicy, required: usize)
        requires
            old(self).wf(),
            old(self).stats_view().eviction_count < u64::MAX,
        ensures
            final(self).wf(),
            final(self).same_settings(old(self)),
            final(self).metrics_view() == old(self).metrics_view(),
            exists|p: Seq<usize>| {
                &&& is_permutation(p, old(self).entries().len())
                &&& sorted_by(p, rank_keys(old(self).entries(), policy))
                &&& Self::purged(old(self), final(self), victims_in_order(old(self).entries(), p, required as nat))
            },
            final(self).stats_view() == (CacheStats {
                eviction_count: (old(self).stats_view().eviction_count + 1) as u64,
                ..old(self).stats_view()
            }),
    {
        let keys = self.ranks(policy);
        let perm = order_by_key(&keys);
        proof {
            assert(keys@.len() == self.entries@.len());
        }
        self.evict_in_order(&perm, required);
    }

    /// Evicts keys from the front of the access order, dropping the entries
    /// they name, until `required` bytes are freed or the order is empty.
    fn evict_lru(&mut self, required: usize)
        requires
            old(self).wf(),
            old(self).stats_view().eviction_count < u64::MAX,
        ensures
            final(self).wf(),
            final(self).same_settings(old(self)),
            final(self).metrics_view() == old(self).metrics_view(),
            ({
                let run = lru_run(old(self).order(), old(self).entries(), required as nat);
                &&& Self::dropped(old(self), final(self), run.1)
                &&& final(self).order() == old(self).order().skip(run.0 as int)
            }),
            final(self).stats_view() == (CacheStats {
                eviction_count: (old(self).stats_view().eviction_count + 1) as u64,
                ..old(self).stats_view()
            }),
    {
        let ghost start = *self;
        let ghost total = lru_run(start.order(), start.entries(), required as nat);
        let ghost mut popped: nat = 0;
        let ghost mut victims: Seq<CacheEntry> = Seq::empty();
        let mut remaining: usize = required;
        proof {
            assert(start.order().skip(0) =~= start.order());
            assert(key_views(Seq::<CacheEntry>::empty()) =~= Seq::<Seq<char>>::empty());
            assert(without_keys(start.entries(), Seq::<Seq<char>>::empty()) == start.entries());
            assert forall|p: CachePriority| #[trigger] start.plist(p) == plist_after(start.plist(p), p, Seq::<CacheEntry>::empty()) by {}
            assert forall|t: Seq<char>| #[trigger] start.tag_list(t) == tags_after(start.tag_list(t), t, Seq::<CacheEntry>::empty()) by {}
            assert(Seq::<CacheEntry>::empty() + total.1 =~= total.1);
        }
        while remaining > 0 && self.access_order.len() > 0
            invariant
                self.wf(),
                self.same_settings(&start),
                self.stats_view() == start.stats_view(),
                self.metrics_view() == start.metrics_view(),
                Self::dropped(&start, self, victims),
                popped <= start.order().len(),
                self.order() == start.order().skip(popped as int),
                ({
                    let rest = lru_run(self.order(), self.entries(), remaining as nat);
                    total.0 == popped + rest.0 && total.1 == victims + rest.1
                }),
            decreases self.access_order@.len(),
        {
            let ghost cur = *self;
            let ghost rest = lru_run(cur.order(), cur.entries(), remaining as nat);
            let key = self.access_order.remove(0);
            let ghost mid = *self;
            proof {
                assert(cur.order()[0] == key@);
                assert(mid.order() =~= cur.order().drop_first());
                assert(mid.order() =~= start.order().skip(popped as int + 1));
                assert(mid.entries() == cur.entries());
                assert(forall|p: CachePriority| #[trigger] mid.plist(p) == cur.plist(p));
                assert(forall|t: Seq<char>| #[trigger] mid.tag_list(t) == cur.tag_list(t));
                assert(Self::dropped(&start, &mid, victims));
            }
            let r = self.drop_entry(&key);
            proof {
                popped = popped + 1;
            }
            match r {
                Some(size) => {
                    proof {
                        let e = entry_of(cur.entries(), key@)->0;
                        key_views(cur.entries()).index_of_first_ensures(key@);
                        let fi = key_views(cur.entries()).index_of_first(key@)->0;
                        assert(key_views(cur.entries())[fi] == e.key@);
                        Self::lemma_dropped_push(&start, &mid, self, victims, e);
                        assert(key_views(seq![e]) =~= seq![key@]);
                        assert(key_views(seq![e]).drop_last() =~= Seq::<Seq<char>>::empty());
                        assert(without_keys(mid.entries(), Seq::<Seq<char>>::empty()) == mid.entries());
                        assert(self.entries() == without_key(cur.entries(), key@));
                        let nrest = lru_run(self.order(), self.entries(), if remaining > size {
                            (remaining - size) as nat
                        } else {
                            0nat
                        });
                        assert(rest == (nrest.0 + 1, seq![e] + nrest.1));
                        assert(victims + rest.1 =~= victims.push(e) + nrest.1);
                        victims = victims.push(e);
                    }
                    remaining = if size >= remaining { 0 } else { remaining - size };
                },
                None => {
                    proof {
                        assert(self.entries() == cur.entries()) by {
                            assert(key_views(Seq::<CacheEntry>::empty()) =~= Seq::<Seq<char>>::empty());
                        }
                        assert forall|p: CachePriority| #[trigger] self.plist(p) == mid.plist(p) by {
                            assert(plist_after(mid.plist(p), p, Seq::<CacheEntry>::empty()) == mid.plist(p));
                        }
                        assert forall|t: Seq<char>| #[trigger] self.tag_list(t) == mid.tag_list(t) by {
                            assert(tags_after(mid.tag_list(t), t, Seq::<CacheEntry>::empty()) == mid.tag_list(t));
                        }
                        assert(Self::dropped(&start, self, victims));
                    }
                },
            }
        }
        proof {
            let rest = lru_run(self.order(), self.entries(), remaining as nat);
            assert(rest.0 == 0 && rest.1 =~= Seq::<CacheEntry>::empty());
            assert(victims + rest.1 =~= victims);
        }
        let ghost mid2 = *self;
        self.stats.eviction_count = self.stats.eviction_count + 1;
        proof {
            assert(self.entries() == mid2.entries());
            assert(self.order() == mid2.order());
            assert(forall|p: CachePriority| #[trigger] self.plist(p) == mid2.plist(p));
            assert(forall|t: Seq<char>| #[trigger] self.tag_list(t) == mid2.tag_list(t));
        }
    }

    /// Whether the entry at `i` has expired at `now`.
    fn expired_at(&self, i: usize, now: i64) -> (b: bool)
        requires
            i < self.entries().len(),
        ensures
            b == is_expired(self.entries()[i as int].created_at_ms, self.entries()[i as int].ttl_seconds, now),
    {
        let e = &self.entries[i];
        match e.ttl_seconds {
            None => false,
            Some(t) => {
                let age_ms: i128 = now as i128 - e.created_at_ms as i128;
                let secs: i128 = if age_ms >= 0 { age_ms / 1000 } else { -((-age_ms) / 1000) };
                secs > (t as i64) as i128
            },
        }
    }

    /// Evicts every entry that has expired at `now`, in table order, and
    /// counts one eviction run.
    fn evict_expired(&mut self, now: i64)
        requires
            old(self).wf(),
            old(self).stats_view().eviction_count < u64::MAX,
        ensures
            final(self).wf(),
            final(self).same_settings(old(self)),
            final(self).metrics_view() == old(self).metrics_view(),
            Self::purged(old(self), final(self), expired_entries(old(self).entries(), now)),
            final(self).stats_view() == (CacheStats {
                eviction_count: (old(self).stats_view().eviction_count + 1) as u64,
                ..old(self).stats_view()
            }),
    {
        let ghost es = self.entries@;
        let ghost mut pos: Seq<int> = Seq::empty();
        let ghost mut victims: Seq<CacheEntry> = Seq::empty();
        let mut keys: Vec<String> = Vec::new();
        let mut i: usize = 0;
        proof {
            assert(es.take(0) =~= Seq::<CacheEntry>::empty());
            assert(key_views(Seq::<CacheEntry>::empty()) =~= Seq::<Seq<char>>::empty());
        }
        while i < self.entries.len()
            invariant
                i <= es.len(),
                es == self.entries@,
                victims == expired_entries(es.take(i as int), now),
                victims.len() == pos.len(),
                forall|k: int| 0 <= k < pos.len() ==> 0 <= #[trigger] pos[k] < i,
                forall|k: int| 0 <= k < pos.len() ==> victims[k] == es[#[trigger] pos[k]],
                forall|a: int, b: int| 0 <= a < b < pos.len() ==> #[trigger] pos[a] < #[trigger] pos[b],
                views(keys@) == key_views(victims),
            decreases es.len() - i,
        {
            let exp = self.expired_at(i, now);
            proof {
                assert(es.take(i + 1).drop_last() =~= es.take(i as int));
                assert(es.take(i + 1).last() == es[i as int]);
            }
            if exp {
                let ghost before = keys@;
                let k = self.entries[i].key.clone();
                keys.push(k);
                proof {
                    pos = pos.push(i as int);
                    victims = victims.push(es[i as int]);
                    assert(views(keys@) =~= views(before).push(k@));
                    assert(key_views(victims) =~= key_views(victims.drop_last()).push(es[i as int].key@));
                    assert(victims.drop_last() =~= expired_entries(es.take(i as int), now));
                }
            }
            i = i + 1;
        }
        proof {
            assert(es.take(i as int) =~= es);
            assert forall|a: int, b: int| 0 <= a < victims.len() && 0 <= b < victims.len() && a != b implies
                key_views(victims)[a] != key_views(victims)[b] by {
                assert(pos[a] != pos[b]) by {
                    if a < b { assert(pos[a] < pos[b]); } else { assert(pos[b] < pos[a]); }
                }
                assert(key_views(es)[pos[a]] == es[pos[a]].key@);
                assert(key_views(es)[pos[b]] == es[pos[b]].key@);
            }
            assert forall|k: int| 0 <= k < victims.len() implies entry_of(es, #[trigger] victims[k].key@) == Some(victims[k]) by {
                assert(victims[k] == es[pos[k]]);
                lemma_entry_of_index(es, pos[k]);
            }
        }
        self.purge_all(&keys, Ghost(victims));
        let ghost mid = *self;
        self.stats.eviction_count = self.stats.eviction_count + 1;
        proof {
            assert(self.entries() == mid.entries());
            assert(self.order() == mid.order());
            assert(forall|p: CachePriority| #[trigger] self.plist(p) == mid.plist(p));
            assert(forall|t: Seq<char>| #[trigger] self.tag_list(t) == mid.tag_list(t));
        }
    }

    /// Evicts entries in a random order until `required` bytes are freed.
    fn evict_random(&mut self, required: usize)
        requires
            old(self).wf(),
            old(self).stats_view().eviction_count < u64::MAX,
        ensures
            final(self).wf(),
            final(self).same_settings(old(self)),
            final(self).metrics_view() == old(self).metrics_view(),
            exists|p: Seq<usize>| {
                &&& is_permutation(p, old(self).entries().len())
                &&& Self::purged(old(self), final(self), victims_in_order(old(self).entries(), p, required as nat))
            },
            final(self).stats_view() == (CacheStats {
                eviction_count: (old(self).stats_view().eviction_count + 1) as u64,
                ..old(self).stats_view()
            }),
    {
        let mut perm = positions(self.entries.len());
        let ghost before = perm@;
        shuffle_positions(&mut perm);
        proof {
            lemma_rearranged_permutation(before, perm@, self.entries@.len());
        }
        self.evict_in_order(&perm, required);
    }

    /// Evicts by the configured policy to make room for `required` bytes;
    /// expired entries (at `now`) go under TTL.
    fn evict_entries(&mut self, required: usize, now: i64)
        requires
            old(self).wf(),
            old(self).stats_view().eviction_count < u64::MAX,
        ensures
            final(self).wf(),
            final(self).same_settings(old(self)),
            final(self).metrics_view() == old(self).metrics_view(),
            final(self).stats_view() == (CacheStats {
                eviction_count: (old(self).stats_view().eviction_count + 1) as u64,
                ..old(self).stats_view()
            }),
            Self::evicted_by_policy(old(self), final(self), required as nat, now),
    {
        match self.config.eviction_policy {
            EvictionPolicy::LRU => self.evict_lru(required),
            EvictionPolicy::LFU => self.evict_ranked(EvictionPolicy::LFU, required),
            EvictionPolicy::FIFO => self.evict_ranked(EvictionPolicy::FIFO, required),
            EvictionPolicy::TTL => self.evict_expired(now),
            EvictionPolicy::Random => self.evict_random(required),
            EvictionPolicy::Priority => self.evict_ranked(EvictionPolicy::Priority, required),
        }
    }

    /// What one eviction run under the configured policy does to the entry
    /// table and its indexes.
    pub open spec fn evicted_by_policy(old: &Self, new: &Self, required: nat, now: i64) -> bool {
        let es = old.entries();
        match old.config_view().eviction_policy {
            EvictionPolicy::LRU => {
                let run = lru_run(old.order(), es, required);
                &&& Self::dropped(old, new, run.1)
                &&& new.order() == old.order().skip(run.0 as int)
            },
            EvictionPolicy::TTL => Self::purged(old, new, expired_entries(es, now)),
            EvictionPolicy::Random => exists|p: Seq<usize>| {
                &&& is_permutation(p, es.len())
                &&& Self::purged(old, new, victims_in_order(es, p, required))
            },
            policy => exists|p: Seq<usize>| {
                &&& is_permutation(p, es.len())
                &&& sorted_by(p, rank_keys(es, policy))
                &&& Self::purged(old, new, victims_in_order(es, p, required))
            },
        }
    }

    /// Files `key` under every tag of `tags` (once per occurrence).
    fn tag_all(&mut self, tags: &Vec<String>, key: &String)
        ensures
            forall|t: Seq<char>| #[trigger] final(self).tag_list(t) == old(self).tag_list(t) + copies(
                key@,
                count_of(views(tags@), t),
            ),
            final(self).entries == old(self).entries,
            final(self).access_order == old(self).access_order,
            final(self).priority_queues == old(self).priority_queues,
            final(self).stats == old(self).stats,
            final(self).metrics == old(self).metrics,
            final(self).config == old(self).config,
            final(self).compression_enabled == old(self).compression_enabled,
            final(self).encryption_enabled == old(self).encryption_enabled,
    {
        let mut j: usize = 0;
        proof {
            assert forall|t: Seq<char>| #[trigger] self.tag_list(t) == old(self).tag_list(t) + copies(
                key@,
                count_of(views(tags@).take(0), t),
            ) by {
                assert(views(tags@).take(0).len() == 0);
                assert(old(self).tag_list(t) + copies(key@, 0) =~= old(self).tag_list(t));
            }
        }
        while j < tags.len()
            invariant
                j <= tags@.len(),
                forall|t: Seq<char>| #[trigger] self.tag_list(t) == old(self).tag_list(t) + copies(
                    key@,
                    count_of(views(tags@).take(j as int), t),
                ),
                self.entries == old(self).entries,
                self.access_order == old(self).access_order,
                self.priority_queues == old(self).priority_queues,
                self.stats == old(self).stats,
                self.metrics == old(self).metrics,
                self.config == old(self).config,
                self.compression_enabled == old(self).compression_enabled,
                self.encryption_enabled == old(self).encryption_enabled,
            decreases tags@.len() - j,
        {
            let ghost before = *self;
            self.tag_index.push(&tags[j], key);
            proof {
                let tv = views(tags@);
                assert(tv.take(j + 1) =~= tv.take(j as int).push(tv[j as int]));
                assert(tv[j as int] == tags@[j as int]@);
                assert forall|t: Seq<char>| #[trigger] self.tag_list(t) == old(self).tag_list(t) + copies(
                    key@,
                    count_of(tv.take(j + 1), t),
                ) by {
                    let c = count_of(tv.take(j as int), t);
                    lemma_count_push(tv.take(j as int), tv[j as int], t);
                    assert(before.tag_list(t) == old(self).tag_list(t) + copies(key@, c));
                    if t == tv[j as int] {
                        assert(self.tag_list(t) == before.tag_list(t).push(key@));
                        assert(copies(key@, c + 1) =~= copies(key@, c).push(key@));
                        assert(old(self).tag_list(t) + copies(key@, c + 1) =~= (old(self).tag_list(t) + copies(key@, c)).push(key@));
                    } else {
                        assert(self.tag_list(t) == before.tag_list(t));
                    }
                }
            }
            j = j + 1;
        }
        assert(views(tags@).take(j as int) =~= views(tags@));
    }

    /// `new` is `mid` with a fresh entry for `key` stored (replacing any
    /// entry with that key in place, else appended) and `key` appended to the
    /// access order, to the list of `priority` and to the list of every tag.
    pub open spec fn stored(
        mid: &Self,
        new: &Self,
        key: Seq<char>,
        data: Seq<u8>,
        ttl: Option<u64>,
        tags: Seq<Seq<char>>,
        priority: CachePriority,
        now: i64,
    ) -> bool {
        &&& match key_views(mid.entries()).index_of_first(key) {
            Some(i) => {
                &&& new.entries() == mid.entries().update(i, new.entries()[i])
                &&& fresh_entry(new.entries()[i], key, data, ttl, tags, priority, now)
            },
            None => {
                &&& new.entries().len() == mid.entries().len() + 1
                &&& new.entries().drop_last() == mid.entries()
                &&& fresh_entry(new.entries().last(), key, data, ttl, tags, priority, now)
            },
        }
        &&& new.order() == mid.order().push(key)
        &&& new.plist(priority) == mid.plist(priority).push(key)
        &&& forall|q: CachePriority| q != priority ==> #[trigger] new.plist(q) == mid.plist(q)
        &&& forall|t: Seq<char>| #[trigger] new.tag_list(t) == mid.tag_list(t) + copies(key, count_of(tags, t))
    }

    /// `new` is `old` after storing `data` under `key`: an eviction run
    /// first when `should_evict` says so, then the store, then the totals.
    pub open spec fn inserted(
        old: &Self,
        new: &Self,
        key: Seq<char>,
        data: Seq<u8>,
        ttl: Option<u64>,
        tags: Seq<Seq<char>>,
        priority: CachePriority,
        now: i64,
    ) -> bool {
        let evict = should_evict(old.stats_view(), old.config_view(), data.len());
        &&& new.wf()
        &&& new.same_settings(old)
        &&& new.metrics_view() == old.metrics_view()
        &&& exists|mid: Self| {
            &&& if evict {
                Self::evicted_by_policy(old, &mid, data.len(), now)
            } else {
                &&& mid.entries() == old.entries()
                &&& mid.order() == old.order()
                &&& forall|p: CachePriority| #[trigger] mid.plist(p) == old.plist(p)
                &&& forall|t: Seq<char>| #[trigger] mid.tag_list(t) == old.tag_list(t)
            }
            &&& Self::stored(&mid, new, key, data, ttl, tags, priority, now)
        }
        &&& new.stats_view() == (CacheStats {
            total_entries: (old.stats_view().total_entries + 1) as u64,
            total_size_bytes: (old.stats_view().total_size_bytes + data.len()) as u64,
            size_basis_bytes: (old.stats_view().total_size_bytes + data.len()) as u64,
            eviction_count: (old.stats_view().eviction_count + if evict { 1int } else { 0int }) as u64,
            ..old.stats_view()
        })
    }

    /// Whether the counters can take one more store of `len` bytes.
    pub open spec fn room_for(&self, len: nat) -> bool {
        &&& self.stats_view().total_entries < u64::MAX
        &&& self.stats_view().total_size_bytes + len <= u64::MAX
        &&& should_evict(self.stats_view(), self.config_view(), len) ==> self.stats_view().eviction_count < u64::MAX
    }

    /// Stores already-encoded bytes under `key`, evicting first when the
    /// size or entry limit would be passed.
    pub fn insert_encoded(
        &mut self,
        key: &str,
        data: Vec<u8>,
        ttl_seconds: Option<u64>,
        tags: Vec<String>,
        priority: CachePriority,
        now_ms: i64,
    )
        requires
            old(self).wf(),
            old(self).room_for(data@.len()),
        ensures
            Self::inserted(old(self), final(self), key@, data@, ttl_seconds, views(tags@), priority, now_ms),
    {
        let ghost start = *self;
        let size = data.len();
        let evict = (self.stats.total_size_bytes as u128) + (size as u128) > (self.config.max_size_bytes as u128)
            || self.stats.total_entries >= self.config.max_entries;
        if evict {
            self.evict_entries(size, now_ms);
        }
        let ghost mid = *self;
        let k = owned(key);
        let entry = CacheEntry {
            key: k.clone(),
            value: data,
            created_at_ms: now_ms,
            accessed_at_ms: now_ms,
            access_count: 0,
            size_bytes: size,
            ttl_seconds,
            tags: clone_strings(&tags),
            priority,
        };
        match self.find_entry(&k) {
            Some(i) => {
                self.entries.set(i, entry);
                proof {
                    key_views(mid.entries@).index_of_first_ensures(key@);
                    assert(key_views(self.entries@) =~= key_views(mid.entries@));
                }
            },
            None => {
                self.entries.push(entry);
                proof {
                    key_views(mid.entries@).index_of_first_ensures(key@);
                    assert(key_views(self.entries@) =~= key_views(mid.entries@).push(key@));
                    assert(self.entries@.drop_last() =~= mid.entries@);
                }
            },
        }
        let ghost m1 = *self;
        self.access_order.push(k.clone());
        self.priority_queues.push(priority, &k);
        let ghost m2 = *self;
        self.tag_all(&tags, &k);
        let ghost m3 = *self;
        self.stats.total_entries = self.stats.total_entries + 1;
        self.stats.total_size_bytes = self.stats.total_size_bytes + size as u64;
        self.stats.size_basis_bytes = self.stats.total_size_bytes;
        proof {
            assert(views(m2.access_order@) =~= views(mid.access_order@).push(key@));
            assert(self.order() == m2.order());
            assert(self.entries() == m1.entries());
            assert(forall|p: CachePriority| #[trigger] self.plist(p) == m2.plist(p));
            assert(forall|p: CachePriority| #[trigger] m2.plist(p) == m1.plist(p) || p == priority);
            assert(forall|p: CachePriority| #[trigger] m1.plist(p) == mid.plist(p));
            assert(forall|t: Seq<char>| #[trigger] m2.tag_list(t) == mid.tag_list(t));
            assert(forall|t: Seq<char>| #[trigger] self.tag_list(t) == m3.tag_list(t));
            assert(self.order() == mid.order().push(key@));
            assert(self.plist(priority) == mid.plist(priority).push(key@));
            assert(forall|t: Seq<char>| #[trigger] self.tag_list(t) == mid.tag_list(t) + copies(key@, count_of(views(tags@), t)));
            match key_views(mid.entries()).index_of_first(key@) {
                Some(i) => {
                    assert(self.entries() == mid.entries().update(i, self.entries()[i]));
                    assert(fresh_entry(self.entries()[i], key@, data@, ttl_seconds, views(tags@), priority, now_ms));
                },
                None => {
                    assert(fresh_entry(self.entries().last(), key@, data@, ttl_seconds, views(tags@), priority, now_ms));
                },
            }
            assert(Self::stored(&mid, self, key@, data@, ttl_seconds, views(tags@), priority, now_ms));
        }
    }

    /// Stores `value` under `key`: the bytes are compressed and scrambled as
    /// configured, then stored as `insert_encoded` does.
    pub fn set(
        &mut self,
        key: &str,
        value: &[u8],
        ttl_seconds: Option<u64>,
        tags: Vec<String>,
        priority: CachePriority,
        now_ms: i64,
    ) -> (r: Result<(), CacheError>)
        requires
            old(self).wf(),
        ensures
            ({
                let stored = encoded(value@, old(self).compression(), old(self).encryption());
                match r {
                    Ok(()) => old(self).room_for(stored.len())
                        && decoded(stored, old(self).compression(), old(self).encryption()) == Some(value@)
                        && Self::inserted(old(self), final(self), key@, stored, ttl_seconds, views(tags@), priority, now_ms),
                    Err(CacheError::Compression) => old(self).compression() && *final(self) == *old(self),
                    Err(CacheError::CounterOverflow) => !old(self).room_for(stored.len()) && *final(self) == *old(self),
                    Err(_) => false,
                }
            }),
            r is Ok <==> old(self).room_for(encoded(value@, old(self).compression(), old(self).encryption()).len()),
            !old(self).compression() ==> (r is Ok <==> old(self).room_for(value@.len())),
    {
        let data = match encode(value, self.compression_enabled, self.encryption_enabled) {
            Some(d) => d,
            None => return Err(CacheError::Compression),
        };
        proof {
            if !self.compression_enabled {
                assert(scrambled(value@).len() == value@.len());
            }
        }
        let len = data.len();
        let evict = (self.stats.total_size_bytes as u128) + (len as u128) > (self.config.max_size_bytes as u128)
            || self.stats.total_entries >= self.config.max_entries;
        if self.stats.total_entries == u64::MAX
            || (self.stats.total_size_bytes as u128) + (len as u128) > (u64::MAX as u128)
            || (evict && self.stats.eviction_count == u64::MAX)
        {
            return Err(CacheError::CounterOverflow);
        }
        self.insert_encoded(key, data, ttl_seconds, tags, priority, now_ms);
        Ok(())
    }

    /// Whether a lookup of `key` now would overflow no counter.
    pub fn can_get(&self, key: &str) -> (b: bool)
        ensures
            b == (self.stats_view().hit_count < u64::MAX && self.stats_view().miss_count < u64::MAX
                && (entry_of(self.entries(), key@) matches Some(e) ==> e.access_count < u64::MAX)),
    {
        if self.stats.hit_count == u64::MAX || self.stats.miss_count == u64::MAX {
            return false;
        }
        let k = owned(key);
        match self.find_entry(&k) {
            Some(i) => self.entries[i].access_count < u64::MAX,
            None => true,
        }
    }

    /// Looks `key` up at `now`. A live entry has its access time and count
    /// updated and its key moved to the back of the access order; its bytes
    /// are then decoded (`Err(Decompression)` when that fails, after the
    /// access update, without counting a hit). An expired entry is dropped
    /// from the entry table (its keys stay in the other indexes) and counts
    /// as a miss, as does a missing key.
    pub fn get(&mut self, key: &str, now_ms: i64) -> (r: Result<GetOutcome, CacheError>)
        requires
            old(self).wf(),
            old(self).stats_view().hit_count < u64::MAX,
            old(self).stats_view().miss_count < u64::MAX,
            entry_of(old(self).entries(), key@) matches Some(e) ==> e.access_count < u64::MAX,
        ensures
            final(self).wf(),
            final(self).same_settings(old(self)),
            final(self).metrics_view() == old(self).metrics_view(),
            match entry_of(old(self).entries(), key@) {
                None => {
                    &&& r matches Ok(GetOutcome::Miss)
                    &&& final(self).entries() == old(self).entries()
                    &&& final(self).order() == old(self).order()
                    &&& final(self).stats_view() == (CacheStats { miss_count: (old(self).stats_view().miss_count + 1) as u64, ..old(self).stats_view() })
                },
                Some(e) => if is_expired(e.created_at_ms, e.ttl_seconds, now_ms) {
                    &&& r matches Ok(GetOutcome::Expired)
                    &&& final(self).entries() == without_key(old(self).entries(), key@)
                    &&& final(self).order() == old(self).order()
                    &&& final(self).stats_view() == (CacheStats { miss_count: (old(self).stats_view().miss_count + 1) as u64, ..old(self).stats_view() })
                } else {
                    let i = key_views(old(self).entries()).index_of_first(key@)->0;
                    &&& final(self).entries() == old(self).entries().update(i, final(self).entries()[i])
                    &&& final(self).entries()[i].accessed_at_ms == now_ms
                    &&& final(self).entries()[i].access_count == e.access_count + 1
                    &&& final(self).entries()[i].key == e.key
                    &&& final(self).entries()[i].value == e.value
                    &&& final(self).entries()[i].created_at_ms == e.created_at_ms
                    &&& final(self).entries()[i].size_bytes == e.size_bytes
                    &&& final(self).entries()[i].ttl_seconds == e.ttl_seconds
                    &&& final(self).entries()[i].tags == e.tags
                    &&& final(self).entries()[i].priority == e.priority
                    &&& final(self).order() == old(self).order().remove_value(key@).push(key@)
                    &&& match decoded(e.value@, old(self).compression(), old(self).encryption()) {
                        Some(d) => {
                            &&& r matches Ok(GetOutcome::Hit(v)) && v@ == d
                            &&& final(self).stats_view() == (CacheStats { hit_count: (old(self).stats_view().hit_count + 1) as u64, ..old(self).stats_view() })
                        },
                        None => {
                            &&& r matches Err(CacheError::Decompression)
                            &&& final(self).stats_view() == old(self).stats_view()
                        },
                    }
                },
            },
            forall|p: CachePriority| #[trigger] final(self).plist(p) == old(self).plist(p),
            forall|t: Seq<char>| #[trigger] final(self).tag_list(t) == old(self).tag_list(t),
    {
        let k = owned(key);
        proof {
            key_views(self.entries@).index_of_first_ensures(key@);
        }
        match self.find_entry(&k) {
            None => {
                self.stats.miss_count = self.stats.miss_count + 1;
                Ok(GetOutcome::Miss)
            },
            Some(i) => {
                if self.expired_at(i, now_ms) {
                    let ghost before = self.entries@;
                    let _ = self.entries.remove(i);
                    proof {
                        assert(key_views(self.entries@) =~= key_views(before).remove(i as int));
                        lemma_no_dup_remove(key_views(before), i as int);
                    }
                    self.stats.miss_count = self.stats.miss_count + 1;
                    return Ok(GetOutcome::Expired);
                }
                let ghost before = self.entries@;
                let mut e = self.entries.remove(i);
                e.accessed_at_ms = now_ms;
                e.access_count = e.access_count + 1;
                let value = vstd::slice::slice_to_vec(e.value.as_slice());
                self.entries.insert(i, e);
                proof {
                    assert(self.entries@ =~= before.update(i as int, self.entries@[i as int]));
                    assert(key_views(self.entries@) =~= key_views(before));
                }
                remove_first(&mut self.access_order, &k);
                let ghost o1 = self.access_order@;
                self.access_order.push(k);
                proof {
                    assert(views(self.access_order@) =~= views(o1).push(key@));
                }
                match decode(value.as_slice(), self.compression_enabled, self.encryption_enabled) {
                    Some(d) => {
                        self.stats.hit_count = self.stats.hit_count + 1;
                        Ok(GetOutcome::Hit(d))
                    },
                    None => Err(CacheError::Decompression),
                }
            },
        }
    }

    /// Records one operation that took `elapsed_ms` milliseconds; one over
    /// 100 ms counts as slow.
    pub fn record_operation(&mut self, elapsed_ms: u128)
        requires
            old(self).metrics_view().operation_count < u64::MAX,
            old(self).metrics_view().slow_operations < u64::MAX,
        ensures
            final(self).wf() == old(self).wf(),
            final(self).same_settings(old(self)),
            final(self).entries() == old(self).entries(),
            final(self).order() == old(self).order(),
            forall|p: CachePriority| #[trigger] final(self).plist(p) == old(self).plist(p),
            forall|t: Seq<char>| #[trigger] final(self).tag_list(t) == old(self).tag_list(t),
            final(self).stats_view() == old(self).stats_view(),
            final(self).metrics_view() == (CacheMetrics {
                operation_count: (old(self).metrics_view().operation_count + 1) as u64,
                total_operation_time_ms: if old(self).metrics_view().total_operation_time_ms + elapsed_ms > u128::MAX {
                    u128::MAX
                } else {
                    (old(self).metrics_view().total_operation_time_ms + elapsed_ms) as u128
                },
                slow_operations: (old(self).metrics_view().slow_operations + if elapsed_ms > 100 { 1int } else { 0int }) as u64,
                ..old(self).metrics_view()
            }),
    {
        self.metrics.operation_count = self.metrics.operation_count + 1;
        self.metrics.total_operation_time_ms = self.metrics.total_operation_time_ms.saturating_add(elapsed_ms);
        if elapsed_ms > 100 {
            self.metrics.slow_operations = self.metrics.slow_operations + 1;
        }
    }

    /// Removes every entry filed under `tag` (as `remove` does, one key at a
    /// time) and returns how many entries there were.
    pub fn invalidate_by_tag(&mut self, tag: &str) -> (r: u64)
        requires
            old(self).wf(),
        ensures
            final(self).wf(),
            final(self).same_settings(old(self)),
            final(self).metrics_view() == old(self).metrics_view(),
            final(self).entries() == without_keys(old(self).entries(), old(self).tag_list(tag@)),
            r == old(self).entries().len() - final(self).entries().len(),
            exists|vs: Seq<CacheEntry>| vs.len() == r && #[trigger] Self::purged(old(self), final(self), vs),
            final(self).stats_view() == (CacheStats {
                total_entries: sat_sub(old(self).stats_view().total_entries, r),
                total_size_bytes: sat_sub_int(
                    old(self).stats_view().total_size_bytes as int,
                    size_total(old(self).entries()) - size_total(final(self).entries()),
                ) as u64,
                ..old(self).stats_view()
            }),
    {
        let keys = self.get_by_tag(tag);
        let ghost start = *self;
        let ghost tl = views(keys@);
        let ghost mut victims: Seq<CacheEntry> = Seq::empty();
        let mut count: u64 = 0;
        let mut i: usize = 0;
        proof {
            assert(tl.take(0) =~= Seq::<Seq<char>>::empty());
            assert(key_views(Seq::<CacheEntry>::empty()) =~= Seq::<Seq<char>>::empty());
            assert(without_keys(start.entries(), Seq::<Seq<char>>::empty()) == start.entries());
            assert(order_after(start.order(), Seq::<CacheEntry>::empty()) == start.order());
            assert forall|p: CachePriority| #[trigger] start.plist(p) == plist_after(start.plist(p), p, Seq::<CacheEntry>::empty()) by {}
            assert forall|t: Seq<char>| #[trigger] start.tag_list(t) == tags_after(start.tag_list(t), t, Seq::<CacheEntry>::empty()) by {}
        }
        while i < keys.len()
            invariant
                i <= keys@.len(),
                tl == views(keys@),
                tl == start.tag_list(tag@),
                start.wf(),
                self.wf(),
                self.same_settings(&start),
                self.metrics_view() == start.metrics_view(),
                self.entries() == without_keys(start.entries(), tl.take(i as int)),
                count as int == start.entries().len() - self.entries().len(),
                count <= i,
                victims.len() == count,
                Self::purged(&start, self, victims),
                self.stats_view() == (CacheStats {
                    total_entries: sat_sub(start.stats_view().total_entries, count),
                    total_size_bytes: sat_sub_int(
                        start.stats_view().total_size_bytes as int,
                        size_total(start.entries()) - size_total(self.entries()),
                    ) as u64,
                    ..start.stats_view()
                }),
                size_total(self.entries()) <= size_total(start.entries()),
            decreases keys@.len() - i,
        {
            let ghost cur = *self;
            let k = &keys[i];
            proof {
                assert(tl[i as int] == k@);
                assert(tl.take(i + 1).drop_last() =~= tl.take(i as int));
                assert(tl.take(i + 1).last() == k@);
                key_views(cur.entries()).index_of_first_ensures(k@);
            }
            let removed = self.remove(k.as_str());
            proof {
                match entry_of(cur.entries(), k@) {
                    Some(e) => {
                        let ks = key_views(cur.entries());
                        let j = ks.index_of_first(k@)->0;
                        assert(ks[j] == e.key@);
                        assert(key_views(seq![e]) =~= seq![k@]);
                        assert(key_views(seq![e]).drop_last() =~= Seq::<Seq<char>>::empty());
                        assert(without_keys(cur.entries(), Seq::<Seq<char>>::empty()) == cur.entries());
                        assert(self.entries() == without_key(cur.entries(), k@));
                        lemma_size_total_remove(cur.entries(), j);
                        Self::lemma_purged_push(&start, &cur, self, victims, e);
                        victims = victims.push(e);
                    },
                    None => {
                        assert(key_views(Seq::<CacheEntry>::empty()) =~= Seq::<Seq<char>>::empty());
                        assert(self.entries() == cur.entries());
                        assert(self.order() == cur.order());
                        assert forall|p: CachePriority| #[trigger] self.plist(p) == cur.plist(p) by {
                            assert(plist_after(cur.plist(p), p, Seq::<CacheEntry>::empty()) == cur.plist(p));
                        }
                        assert forall|t: Seq<char>| #[trigger] self.tag_list(t) == cur.tag_list(t) by {
                            assert(tags_after(cur.tag_list(t), t, Seq::<CacheEntry>::empty()) == cur.tag_list(t));
                        }
                    },
                }
            }
            if removed {
                count = count + 1;
            }
            i = i + 1;
        }
        proof {
            assert(tl.take(i as int) =~= tl);
        }
        count
    }

    /// After a store of `data` (kept as `stored`, which decodes back to
    /// `data`), the entry under `key` is the fresh entry and decodes to
    /// `data`; without a TTL it never expires.
    pub proof fn lemma_lookup_after_store(
        old: &Self,
        new: &Self,
        key: Seq<char>,
        stored: Seq<u8>,
        data: Seq<u8>,
        ttl: Option<u64>,
        tags: Seq<Seq<char>>,
        priority: CachePriority,
        now: i64,
    )
        requires
            Self::inserted(old, new, key, stored, ttl, tags, priority, now),
            decoded(stored, old.compression(), old.encryption()) == Some(data),
        ensures
            entry_of(new.entries(), key) matches Some(e) && fresh_entry(e, key, stored, ttl, tags, priority, now)
                && decoded(e.value@, new.compression(), new.encryption()) == Some(data),
            ttl is None ==> forall|later: i64| !is_expired(now, ttl, later),
    {
        let mid = choose|mid: Self| {
            &&& if should_evict(old.stats_view(), old.config_view(), stored.len()) {
                Self::evicted_by_policy(old, &mid, stored.len(), now)
            } else {
                &&& mid.entries() == old.entries()
                &&& mid.order() == old.order()
                &&& forall|p: CachePriority| #[trigger] mid.plist(p) == old.plist(p)
                &&& forall|t: Seq<char>| #[trigger] mid.tag_list(t) == old.tag_list(t)
            }
            &&& Self::stored(&mid, new, key, stored, ttl, tags, priority, now)
        };
        let ms = mid.entries();
        let ns = new.entries();
        let mk = key_views(ms);
        let nk = key_views(ns);
        mk.index_of_first_ensures(key);
        nk.index_of_first_ensures(key);
        match mk.index_of_first(key) {
            Some(i) => {
                assert(ns[i].key@ == key);
                assert(nk[i] == key);
                let f = nk.index_of_first(key)->0;
                if f < i {
                    assert(nk[f] == mk[f]);
                }
                assert(f == i);
            },
            None => {
                let l = ns.len() - 1;
                assert(ns[l].key@ == key);
                assert(nk[l] == key);
                let f = nk.index_of_first(key)->0;
                if f < l {
                    assert(ns[f] == ms[f]);
                    assert(nk[f] == mk[f]);
                    assert(mk.contains(key));
                }
                assert(f == l);
            },
        }
    }

    /// Whether an entry is keyed `key`.
    pub fn contains(&self, key: &str) -> (b: bool)
        ensures
            b == key_views(self.entries()).contains(key@),
    {
        let k = owned(key);
        let r = self.find_entry(&k);
        proof {
            key_views(self.entries@).index_of_first_ensures(key@);
        }
        r.is_some()
    }

    /// Number of entries.
    pub fn size(&self) -> (n: usize)
        ensures
            n == self.entries().len(),
    {
        self.entries.len()
    }

    /// Whether there are no entries.
    pub fn is_empty(&self) -> (b: bool)
        ensures
            b == (self.entries().len() == 0),
    {
        self.entries.len() == 0
    }

    /// The keys of all entries, in table order.
    pub fn keys(&self) -> (r: Vec<String>)
        ensures
            views(r@) == key_views(self.entries()),
    {
        let mut r: Vec<String> = Vec::new();
        let mut i: usize = 0;
        while i < self.entries.len()
            invariant
                i <= self.entries@.len(),
                views(r@) == key_views(self.entries@.take(i as int)),
            decreases self.entries@.len() - i,
        {
            let ghost before = r@;
            let k = self.entries[i].key.clone();
            r.push(k);
            i = i + 1;
            assert(views(r@) =~= views(before).push(k@));
            assert(key_views(self.entries@.take(i as int)) =~= key_views(self.entries@.take(i - 1)).push(self.entries@[i - 1].key@));
        }
        assert(self.entries@.take(i as int) =~= self.entries@);
        r
    }

    /// Statistics.
    pub fn get_stats(&self) -> (s: CacheStats)
        ensures
            s == self.stats_view(),
    {
        self.stats
    }

    /// Metrics.
    pub fn get_metrics(&self) -> (m: CacheMetrics)
        ensures
            m == self.metrics_view(),
    {
        self.metrics
    }

    /// Keys filed under `tag`.
    pub fn get_by_tag(&self, tag: &str) -> (r: Vec<String>)
        ensures
            views(r@) == self.tag_list(tag@),
    {
        let t = owned(tag);
        self.tag_index.get(&t)
    }

    /// Keys filed under `priority`.
    pub fn get_by_priority(&self, priority: &CachePriority) -> (r: Vec<String>)
        ensures
            views(r@) == self.plist(*priority),
    {
        self.priority_queues.get(*priority)
    }

    /// Removes the entry keyed `key` from the table and every index, and
    /// lowers the entry and size totals (saturating). Returns whether there
    /// was such an entry.
    pub fn remove(&mut self, key: &str) -> (removed: bool)
        requires
            old(self).wf(),
        ensures
            final(self).wf(),
            final(self).same_settings(old(self)),
            final(self).metrics_view() == old(self).metrics_view(),
            removed == key_views(old(self).entries()).contains(key@),
            !key_views(final(self).entries()).contains(key@),
            match entry_of(old(self).entries(), key@) {
                Some(e) => {
                    &&& Self::purged(old(self), final(self), seq![e])
                    &&& final(self).stats_view() == (CacheStats {
                        total_entries: sat_sub(old(self).stats_view().total_entries, 1),
                        total_size_bytes: sat_sub(
                            old(self).stats_view().total_size_bytes,
                            e.size_bytes as u64,
                        ),
                        ..old(self).stats_view()
                    })
                },
                None => Self::purged(old(self), final(self), Seq::empty()) && final(self).stats_view()
                    == old(self).stats_view(),
            },
    {
        let k = owned(key);
        proof {
            key_views(self.entries@).index_of_first_ensures(key@);
        }
        let r = self.purge(&k);
        let ghost mid = *self;
        proof {
            lemma_without_key_absent(old(self).entries(), key@);
            let vs = match entry_of(old(self).entries(), key@) { Some(e) => seq![e], None => Seq::empty() };
            assert(key_views(Seq::<CacheEntry>::empty()) =~= Seq::<Seq<char>>::empty());
            if let Some(e) = entry_of(old(self).entries(), key@) {
                key_views(old(self).entries()).index_of_first_ensures(key@);
                let j = key_views(old(self).entries()).index_of_first(key@)->0;
                assert(key_views(old(self).entries())[j] == e.key@);
                assert(key_views(seq![e]) =~= seq![key@]);
                assert(key_views(seq![e]).drop_last() =~= Seq::<Seq<char>>::empty());
            }
            assert(without_keys(old(self).entries(), Seq::<Seq<char>>::empty()) == old(self).entries());
            assert(mid.entries() == without_key(old(self).entries(), key@));
        }
        match r {
            Some(size) => {
                if self.stats.total_entries >= 1 {
                    self.stats.total_entries = self.stats.total_entries - 1;
                } else {
                    self.stats.total_entries = 0;
                }
                let sz = size as u64;
                if self.stats.total_size_bytes >= sz {
                    self.stats.total_size_bytes = self.stats.total_size_bytes - sz;
                } else {
                    self.stats.total_size_bytes = 0;
                }
                proof {
                    let e = entry_of(old(self).entries(), key@)->0;
                    assert(Self::purged(old(self), &mid, seq![e]));
                    assert(self.entries() == mid.entries());
                    assert(self.order() == mid.order());
                    assert(forall|p: CachePriority| #[trigger] self.plist(p) == mid.plist(p));
                    assert(forall|t: Seq<char>| #[trigger] self.tag_list(t) == mid.tag_list(t));
                }
                true
            },
            None => false,
        }
    }

    /// Drops every entry and index and zeroes the entry and size totals.
    pub fn clear(&mut self)
        ensures
            final(self).wf(),
            final(self).same_settings(old(self)),
            final(self).metrics_view() == old(self).metrics_view(),
            final(self).entries().len() == 0,
            final(self).order().len() == 0,
            forall|p: CachePriority| #[trigger] final(self).plist(p).len() == 0,
            forall|t: Seq<char>| #[trigger] final(self).tag_list(t).len() == 0,
            final(self).stats_view() == (CacheStats {
                total_entries: 0,
                total_size_bytes: 0,
                ..old(self).stats_view()
            }),
    {
        self.entries = Vec::new();
        self.access_order = Vec::new();
        self.priority_queues = PriorityLists::new();
        self.tag_index.clear();
        self.stats.total_entries = 0;
        self.stats.total_size_bytes = 0;
        assert(key_views(self.entries@) =~= Seq::<Seq<char>>::empty());
        assert(views(self.access_order@) =~= Seq::<Seq<char>>::empty());
    }
}

/// In a table with distinct keys, the entry keyed like the `j`-th entry is
/// that entry.
pub proof fn lemma_entry_of_index(es: Seq<CacheEntry>, j: int)
    requires
        key_views(es).no_duplicates(),
        0 <= j < es.len(),
    ensures
        entry_of(es, es[j].key@) == Some(es[j]),
{
    let ks = key_views(es);
    assert(ks[j] == es[j].key@);
    ks.index_of_first_ensures(es[j].key@);
    let f = ks.index_of_first(es[j].key@)->0;
    assert(ks[f] == ks[j]);
}

/// Dropping the entry keyed `k1` keeps keys distinct and leaves the entry
/// keyed `k2 != k1` as it was.
pub proof fn lemma_entry_of_without(es: Seq<CacheEntry>, k1: Seq<char>, k2: Seq<char>)
    requires
        key_views(es).no_duplicates(),
        k1 != k2,
    ensures
        key_views(without_key(es, k1)).no_duplicates(),
        entry_of(without_key(es, k1), k2) == entry_of(es, k2),
{
    let ks = key_views(es);
    ks.index_of_first_ensures(k1);
    ks.index_of_first_ensures(k2);
    match ks.index_of_first(k1) {
        None => {},
        Some(i) => {
            let r = es.remove(i);
            let rk = key_views(r);
            assert(rk =~= ks.remove(i));
            lemma_no_dup_remove(ks, i);
            rk.index_of_first_ensures(k2);
            match ks.index_of_first(k2) {
                Some(j) => {
                    assert(j != i);
                    let j2 = if j < i { j } else { j - 1 };
                    assert(rk[j2] == ks[j]);
                    assert(rk.contains(k2));
                    let f = rk.index_of_first(k2)->0;
                    let f2 = if f < i { f } else { f + 1 };
                    assert(rk[f] == ks[f2]);
                    assert(f2 == j);
                    assert(r[f] == es[f2]);
                },
                None => {
                    if rk.contains(k2) {
                        let f = rk.index_of_first(k2)->0;
                        let f2 = if f < i { f } else { f + 1 };
                        assert(rk[f] == ks[f2]);
                        assert(ks.contains(k2));
                    }
                },
            }
        },
    }
}

/// Dropping the entries keyed `ks` keeps keys distinct and leaves the entry
/// keyed `k`, which is not among them, as it was.
pub proof fn lemma_entry_of_without_keys(es: Seq<CacheEntry>, ks: Seq<Seq<char>>, k: Seq<char>)
    requires
        key_views(es).no_duplicates(),
        !ks.contains(k),
    ensures
        key_views(without_keys(es, ks)).no_duplicates(),
        entry_of(without_keys(es, ks), k) == entry_of(es, k),
    decreases ks.len(),
{
    if ks.len() > 0 {
        let ks0 = ks.drop_last();
        assert(!ks0.contains(k)) by {
            if ks0.contains(k) {
                let j = choose|j: int| 0 <= j < ks0.len() && ks0[j] == k;
                assert(ks[j] == k);
            }
        }
        lemma_entry_of_without_keys(es, ks0, k);
        assert(ks[ks.len() - 1] != k);
        lemma_entry_of_without(without_keys(es, ks0), ks.last(), k);
    }
}

/// Once the entry keyed `k` is dropped, no entry is keyed `k`.
pub proof fn lemma_without_key_absent(es: Seq<CacheEntry>, k: Seq<char>)
    requires
        key_views(es).no_duplicates(),
    ensures
        !key_views(without_key(es, k)).contains(k),
{
    let ks = key_views(es);
    ks.index_of_first_ensures(k);
    match ks.index_of_first(k) {
        None => {},
        Some(i) => {
            let r = key_views(es.remove(i));
            assert(r =~= ks.remove(i));
            if r.contains(k) {
                let j = choose|j: int| 0 <= j < r.len() && r[j] == k;
                let j2 = if j < i { j } else { j + 1 };
                assert(r[j] == ks[j2]);
            }
        },
    }
}

/// `a - b`, or 0 when `b > a`, over the integers.
pub open spec fn sat_sub_int(a: int, b: int) -> int {
    if a >= b { a - b } else { 0 }
}

/// The sum of the sizes of the entries.
pub open spec fn size_total(es: Seq<CacheEntry>) -> nat
    decreases es.len(),
{
    if es.len() == 0 {
        0
    } else {
        size_total(es.drop_last()) + es.last().size_bytes as nat
    }
}

/// Removing an entry takes its size off the total.
pub proof fn lemma_size_total_remove(es: Seq<CacheEntry>, i: int)
    requires
        0 <= i < es.len(),
    ensures
        size_total(es.remove(i)) + es[i].size_bytes == size_total(es),
    decreases es.len(),
{
    if i == es.len() - 1 {
        assert(es.remove(i) =~= es.drop_last());
    } else {
        lemma_size_total_remove(es.drop_last(), i);
        assert(es.remove(i).drop_last() =~= es.drop_last().remove(i));
        assert(es.remove(i).last() == es.last());
    }
}

/// `a - b`, or 0 when `b > a`.
pub open spec fn sat_sub(a: u64, b: u64) -> u64 {
    if a >= b { (a - b) as u64 } else { 0 }
}

/// Removing one element keeps a sequence duplicate-free.
pub proof fn lemma_no_dup_remove<A>(s: Seq<A>, i: int)
    requires
        s.no_duplicates(),
        0 <= i < s.len(),
    ensures
        s.remove(i).no_duplicates(),
{
    let r = s.remove(i);
    assert forall|a: int, b: int| 0 <= a < r.len() && 0 <= b < r.len() && a != b implies r[a] != r[b] by {
        let a2 = if a < i { a } else { a + 1 };
        let b2 = if b < i { b } else { b + 1 };
        assert(r[a] == s[a2]);
        assert(r[b] == s[b2]);
    }
}

// ---------------------------------------------------------------------------
// Encoding of stored values

/// The bytes that flate2's raw-deflate encoder (default level) produces for
/// `data`.
pub uninterp spec fn deflate_bytes(data: Seq<u8>) -> Seq<u8>;

/// What flate2's raw-deflate decoder yields for `data`, or `None` when it
/// reports an error.
pub uninterp spec fn inflate_bytes(data: Seq<u8>) -> Option<Seq<u8>>;

/// Compresses `data` with flate2's `DeflateEncoder` at the default level.
/// Claimed: a buffer is returned (writing into a `Vec` and finishing report
/// no error: the inner writer cannot fail and the in-memory compressor does
/// not), it is the encoder's output for `data`, and the decoder turns it
/// back into `data`.
#[verifier::external_body]
fn deflate(data: &[u8]) -> (r: Option<Vec<u8>>)
    ensures
        r is Some,
        r matches Some(v) ==> v@ == deflate_bytes(data@) && inflate_bytes(v@) == Some(data@),
{
    let mut encoder = flate2::write::DeflateEncoder::new(Vec::new(), flate2::Compression::default());
    if encoder.write_all(data).is_err() {
        return None;
    }
    encoder.finish().ok()
}

/// Decompresses `data` with flate2's `DeflateDecoder`, reading to the end.
/// Claimed: the result is the decoder's output for `data`, or `None` exactly
/// when the decoder reports an error.
#[verifier::external_body]
fn inflate(data: &[u8]) -> (r: Option<Vec<u8>>)
    ensures
        match r {
            Some(v) => inflate_bytes(data@) == Some(v@),
            None => inflate_bytes(data@) is None,
        },
{
    let mut decoder = flate2::read::DeflateDecoder::new(data);
    let mut out: Vec<u8> = Vec::new();
    match decoder.read_to_end(&mut out) {
        Ok(_) => Some(out),
        Err(_) => None,
    }
}

/// The scrambling key, the ASCII bytes of "ippan_cache_key_2024".
pub open spec fn scramble_key() -> Seq<u8> {
    seq![105u8, 112u8, 112u8, 97u8, 110u8, 95u8, 99u8, 97u8, 99u8, 104u8, 101u8, 95u8, 107u8, 101u8, 121u8, 95u8, 50u8, 48u8, 50u8, 52u8]
}

/// `data` XOR-ed byte by byte with the repeating scrambling key.
pub open spec fn scrambled(data: Seq<u8>) -> Seq<u8> {
    Seq::new(data.len(), |i: int| data[i] ^ scramble_key()[i % 20])
}

/// XOR-scrambles `data` with the repeating cache key.
pub fn scramble(data: &[u8]) -> (r: Vec<u8>)
    ensures
        r@ == scrambled(data@),
{
    let key: [u8; 20] = [105u8, 112u8, 112u8, 97u8, 110u8, 95u8, 99u8, 97u8, 99u8, 104u8, 101u8, 95u8, 107u8, 101u8, 121u8, 95u8, 50u8, 48u8, 50u8, 52u8];
    assert(key@ == scramble_key());
    let mut r: Vec<u8> = Vec::new();
    let mut i: usize = 0;
    while i < data.len()
        invariant
            i <= data@.len(),
            key@ == scramble_key(),
            r@ == scrambled(data@).take(i as int),
        decreases data@.len() - i,
    {
        r.push(data[i] ^ key[i % 20]);
        i = i + 1;
        assert(r@ =~= scrambled(data@).take(i as int));
    }
    assert(scrambled(data@).take(i as int) =~= scrambled(data@));
    r
}

/// Scrambling twice gives the data back.
pub proof fn lemma_scramble_involution(data: Seq<u8>)
    ensures
        scrambled(scrambled(data)) == data,
{
    assert forall|i: int| 0 <= i < data.len() implies #[trigger] scrambled(scrambled(data))[i] == data[i] by {
        let a = data[i];
        let k = scramble_key()[i % 20];
        assert((a ^ k) ^ k == a) by (bit_vector);
    }
    assert(scrambled(scrambled(data)) =~= data);
}

/// The bytes stored for `data`: compressed when `compress`, then scrambled
/// when `scramble`.
pub open spec fn encoded(data: Seq<u8>, compress: bool, scramble: bool) -> Seq<u8> {
    let c = if compress { deflate_bytes(data) } else { data };
    if scramble { scrambled(c) } else { c }
}

/// What the stored bytes `v` decode to: unscrambled when `scramble`, then
/// decompressed when `compress` (`None` when decompression fails).
pub open spec fn decoded(v: Seq<u8>, compress: bool, scramble: bool) -> Option<Seq<u8>> {
    let c = if scramble { scrambled(v) } else { v };
    if compress { inflate_bytes(c) } else { Some(c) }
}

/// Encodes `data` for storage.
fn encode(data: &[u8], compress: bool, scramble_on: bool) -> (r: Option<Vec<u8>>)
    ensures
        r is Some,
        r matches Some(v) ==> v@ == encoded(data@, compress, scramble_on) && decoded(
            v@,
            compress,
            scramble_on,
        ) == Some(data@),
{
    let c = if compress {
        match deflate(data) {
            Some(v) => v,
            None => return None,
        }
    } else {
        vstd::slice::slice_to_vec(data)
    };
    if scramble_on {
        let s = scramble(c.as_slice());
        proof {
            lemma_scramble_involution(c@);
        }
        Some(s)
    } else {
        Some(c)
    }
}

/// Decodes stored bytes.
fn decode(v: &[u8], compress: bool, scramble_on: bool) -> (r: Option<Vec<u8>>)
    ensures
        match r {
            Some(d) => decoded(v@, compress, scramble_on) == Some(d@),
            None => decoded(v@, compress, scramble_on) is None,
        },
{
    let c = if scramble_on {
        scramble(v)
    } else {
        vstd::slice::slice_to_vec(v)
    };
    if compress {
        inflate(c.as_slice())
    } else {
        Some(c)
    }
}

// ---------------------------------------------------------------------------
// Random eviction order

/// The positions `0..n` in order.
pub fn positions(n: usize) -> (r: Vec<usize>)
    ensures
        r@.len() == n,
        forall|i: int| 0 <= i < n ==> #[trigger] r@[i] == i,
{
    let mut r: Vec<usize> = Vec::new();
    let mut i: usize = 0;
    while i < n
        invariant
            i <= n,
            r@.len() == i,
            forall|j: int| 0 <= j < i ==> #[trigger] r@[j] == j,
        decreases n - i,
    {
        r.push(i);
        i = i + 1;
    }
    r
}

/// Shuffles `v` in place with rand's `SliceRandom::shuffle` on the thread
/// RNG. Claimed: the result is a rearrangement of the same items (same
/// multiset); which rearrangement is left to chance.
#[verifier::external_body]
fn shuffle_positions(v: &mut Vec<usize>)
    ensures
        final(v)@.to_multiset() == old(v)@.to_multiset(),
{
    v.shuffle(&mut rand::thread_rng());
}

/// A rearrangement of `0..n` is a permutation of the positions below `n`.
pub proof fn lemma_rearranged_permutation(a: Seq<usize>, b: Seq<usize>, n: nat)
    requires
        a.len() == n,
        forall|i: int| 0 <= i < n ==> #[trigger] a[i] == i,
        b.to_multiset() == a.to_multiset(),
    ensures
        is_permutation(b, n),
{
    broadcast use vstd::seq_lib::group_to_multiset_ensures;
    assert(a.no_duplicates());
    a.lemma_multiset_has_no_duplicates();
    b.lemma_multiset_has_no_duplicates_conv();
    assert(b.len() == b.to_multiset().len());
    assert(a.len() == a.to_multiset().len());
    assert forall|i: int| 0 <= i < b.len() implies #[trigger] b[i] < n by {
        assert(b.contains(b[i]));
        assert(a.to_multiset().count(b[i]) > 0);
        assert(a.contains(b[i]));
        let j = choose|j: int| 0 <= j < a.len() && a[j] == b[i];
    }
}

// ---------------------------------------------------------------------------
// Ordering entries for eviction

/// `(a_key, a)` comes strictly before `(b_key, b)`.
pub open spec fn ranked_before(a_key: int, a: usize, b_key: int, b: usize) -> bool {
    a_key < b_key || (a_key == b_key && a < b)
}

/// `perm` lists positions by ascending `keys`, ties by ascending position.
pub open spec fn sorted_by(perm: Seq<usize>, keys: Seq<i128>) -> bool {
    forall|i: int, j: int|
        0 <= i < j < perm.len() ==> ranked_before(
            keys[perm[i] as int] as int,
            #[trigger] perm[i],
            keys[perm[j] as int] as int,
            #[trigger] perm[j],
        )
}

/// The positions of `keys` in ascending key order, ties by position (a
/// stable sort of the positions).
pub fn order_by_key(keys: &Vec<i128>) -> (perm: Vec<usize>)
    ensures
        is_permutation(perm@, keys@.len() as nat),
        sorted_by(perm@, keys@),
{
    let mut perm: Vec<usize> = Vec::new();
    let mut i: usize = 0;
    while i < keys.len()
        invariant
            i <= keys@.len(),
            perm@.len() == i,
            perm@.no_duplicates(),
            forall|a: int| 0 <= a < perm@.len() ==> #[trigger] perm@[a] < i,
            sorted_by(perm@, keys@),
        decreases keys@.len() - i,
    {
        let mut pos: usize = 0;
        while pos < perm.len() && keys[perm[pos]] <= keys[i]
            invariant
                pos <= perm@.len(),
                perm@.len() == i,
                i < keys@.len(),
                forall|a: int| 0 <= a < perm@.len() ==> #[trigger] perm@[a] < i,
                forall|a: int| 0 <= a < pos ==> keys@[#[trigger] perm@[a] as int] <= keys@[i as int],
            decreases perm@.len() - pos,
        {
            pos = pos + 1;
        }
        let ghost before = perm@;
        perm.insert(pos, i);
        proof {
            assert(perm@ == before.insert(pos as int, i));
            assert forall|a: int| 0 <= a < perm@.len() implies #[trigger] perm@[a] < i + 1 by {
                if a < pos {
                    assert(perm@[a] == before[a]);
                } else if a > pos {
                    assert(perm@[a] == before[a - 1]);
                }
            }
            assert forall|a: int, b: int| 0 <= a < perm@.len() && 0 <= b < perm@.len() && a != b implies perm@[a] != perm@[b] by {
                if a != pos && b != pos {
                    let a2 = if a < pos { a } else { a - 1 };
                    let b2 = if b < pos { b } else { b - 1 };
                    assert(perm@[a] == before[a2]);
                    assert(perm@[b] == before[b2]);
                } else if a == pos {
                    let b2 = if b < pos { b } else { b - 1 };
                    assert(perm@[b] == before[b2]);
                } else {
                    let a2 = if a < pos { a } else { a - 1 };
                    assert(perm@[a] == before[a2]);
                }
            }
            assert forall|x: int, y: int| 0 <= x < y < perm@.len() implies ranked_before(
                keys@[perm@[x] as int] as int,
                #[trigger] perm@[x],
                keys@[perm@[y] as int] as int,
                #[trigger] perm@[y],
            ) by {
                if x < pos && y < pos {
                    assert(perm@[x] == before[x] && perm@[y] == before[y]);
                } else if x < pos && y == pos {
                    assert(perm@[x] == before[x]);
                    assert(keys@[before[x] as int] <= keys@[i as int]);
                } else if x < pos && y > pos {
                    assert(perm@[x] == before[x] && perm@[y] == before[y - 1]);
                } else if x == pos {
                    assert(perm@[y] == before[y - 1]);
                    if pos < before.len() {
                        assert(!(keys@[before[pos as int] as int] <= keys@[i as int]));
                        if y - 1 > pos {
                            assert(ranked_before(
                                keys@[before[pos as int] as int] as int, before[pos as int],
                                keys@[before[y - 1] as int] as int, before[y - 1]));
                        }
                    }
                } else {
                    assert(perm@[x] == before[x - 1] && perm@[y] == before[y - 1]);
                }
            }
        }
        i = i + 1;
    }
    perm
}

} // verus!

verus! {

impl Default for AdvancedCacheSystem {
    /// A cache of at most 100 MiB and 10000 entries, one-hour TTL, LRU
    /// eviction, compression on and scrambling off.
    fn default() -> (c: Self)
        ensures
            c.wf(),
            c.entries().len() == 0,
            c.config_view() == (CacheConfig {
                max_size_bytes: 104857600,
                max_entries: 10000,
                default_ttl_seconds: 3600,
                cleanup_interval_seconds: 300,
                eviction_policy: EvictionPolicy::LRU,
                enable_compression: true,
                enable_encryption: false,
                enable_statistics: true,
                enable_metrics: true,
            }),
            c.compression(),
            !c.encryption(),
            c.stats_view().hit_count == 0 && c.stats_view().miss_count == 0,
            c.stats_view().total_entries == 0 && c.stats_view().total_size_bytes == 0,
            c.stats_view().eviction_count == 0,
            c.metrics_view().operation_count == 0 && c.metrics_view().slow_operations == 0,
    {
        AdvancedCacheSystem::new(CacheConfig {
            max_size_bytes: 104857600,
            max_entries: 10000,
            default_ttl_seconds: 3600,
            cleanup_interval_seconds: 300,
            eviction_policy: EvictionPolicy::LRU,
            enable_compression: true,
            enable_encryption: false,
            enable_statistics: true,
            enable_metrics: true,
        })
    }
}

} // verus!
