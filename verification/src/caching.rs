//! Caches for frequently read data: an LRU cache, a cache whose entries
//! expire, a two-level cache, and a manager holding one of each for blocks,
//! transactions, validators and configuration.
//!
//! The LRU cache keeps a map from key to entry and a queue of keys in access
//! order, each cached key once. A read or a write moves its key to the back
//! of the queue; eviction drops the key at the front, the least recently
//! used. Times are milliseconds on the caller's clock.

use vstd::prelude::*;
use vstd::wrapping::u64_specs::wrapping_add;
use crate::text::owned;

verus! {

/// A key the caches can compare and copy.
pub trait CacheKey: View + Sized {
    /// Whether `self` and `other` are the same key.
    fn same_key(&self, other: &Self) -> (b: bool)
        ensures
            b == (self@ == other@),
    ;

    /// A copy of the key.
    fn copy_key(&self) -> (c: Self)
        ensures
            c@ == self@,
    ;
}

impl CacheKey for String {
    fn same_key(&self, other: &Self) -> (b: bool) {
        *self == *other
    }

    fn copy_key(&self) -> (c: Self) {
        self.clone()
    }
}

impl<'a> CacheKey for &'a str {
    fn same_key(&self, other: &Self) -> (b: bool) {
        let a = owned(*self);
        let b = owned(*other);
        a == b
    }

    fn copy_key(&self) -> (c: Self) {
        *self
    }
}

impl CacheKey for [u8; 32] {
    fn same_key(&self, other: &Self) -> (b: bool) {
        let mut i: usize = 0;
        while i < 32
            invariant
                i <= 32,
                self@.len() == 32,
                other@.len() == 32,
                forall|j: int| 0 <= j < i ==> self@[j] == other@[j],
            decreases 32 - i,
        {
            if self[i] != other[i] {
                return false;
            }
            i = i + 1;
        }
        proof {
            assert(self@ =~= other@);
        }
        true
    }

    fn copy_key(&self) -> (c: Self) {
        *self
    }
}

/// A cached value with when it was last read and how often.
pub struct CacheEntry<K, V> {
    pub key: K,
    pub value: V,
    pub last_access: u64,
    pub access_count: u64,
}

/// Counters of a cache. `hit_rate` is in hundredths of a percent.
#[derive(Debug, Clone, Copy, PartialEq, Eq, Structural)]
pub struct CacheStats {
    pub size: usize,
    pub max_size: usize,
    pub hit_count: u64,
    pub miss_count: u64,
    pub eviction_count: u64,
    pub hit_rate: u64,
}

/// The keys of `es`, in order.
pub open spec fn entry_keys<K: View, V>(es: Seq<CacheEntry<K, V>>) -> Seq<K::V> {
    es.map_values(|e: CacheEntry<K, V>| e.key@)
}

/// The views of the keys in `ks`, in order.
pub open spec fn key_views<K: View>(ks: Seq<K>) -> Seq<K::V> {
    ks.map_values(|k: K| k@)
}

/// `s` without any occurrence of `x`.
pub open spec fn drop_all<T>(s: Seq<T>, x: T) -> Seq<T>
    decreases s.len(),
{
    if s.len() == 0 {
        Seq::empty()
    } else {
        let rest = drop_all(s.drop_last(), x);
        if s.last() == x { rest } else { rest.push(s.last()) }
    }
}

/// `es` with `e` stored under its key: in place of the entry with that key,
/// or at the end.
pub open spec fn put_entry<K: View, V>(es: Seq<CacheEntry<K, V>>, e: CacheEntry<K, V>) -> Seq<CacheEntry<K, V>> {
    match entry_keys(es).index_of_first(e.key@) {
        Some(i) => es.update(i, e),
        None => es.push(e),
    }
}

/// `es` without the entry under `k`.
pub open spec fn drop_entry<K: View, V>(es: Seq<CacheEntry<K, V>>, k: K::V) -> Seq<CacheEntry<K, V>> {
    match entry_keys(es).index_of_first(k) {
        Some(i) => es.remove(i),
        None => es,
    }
}

/// An LRU cache of at most `max_size` entries.
pub struct HighPerformanceCache<K: CacheKey, V> {
    data: Vec<CacheEntry<K, V>>,
    access_order: Vec<K>,
    max_size: usize,
    hit_count: u64,
    miss_count: u64,
    eviction_count: u64,
}

impl<K: CacheKey, V> HighPerformanceCache<K, V> {
    /// The cached entries.
    pub closed spec fn entries(&self) -> Seq<CacheEntry<K, V>> {
        self.data@
    }

    /// The access queue, front first.
    pub closed spec fn order(&self) -> Seq<K::V> {
        key_views(self.access_order@)
    }

    /// The most entries kept.
    pub closed spec fn capacity(&self) -> nat {
        self.max_size as nat
    }

    /// Reads that found their key.
    pub closed spec fn hits(&self) -> u64 {
        self.hit_count
    }

    /// Reads that did not.
    pub closed spec fn misses(&self) -> u64 {
        self.miss_count
    }

    /// Evictions so far.
    pub closed spec fn evictions(&self) -> u64 {
        self.eviction_count
    }

    /// No key is cached twice; the queue holds each cached key once; a
    /// cache of positive capacity holds at most that many entries.
    pub open spec fn wf(&self) -> bool {
        &&& entry_keys(self.entries()).no_duplicates()
        &&& self.order().no_duplicates()
        &&& self.order().len() == self.entries().len()
        &&& forall|k: K::V| #[trigger] self.order().contains(k) <==> entry_keys(self.entries()).contains(k)
        &&& self.capacity() >= 1 ==> self.entries().len() <= self.capacity()
    }

    /// An empty cache of at most `max_size` entries.
    pub fn new(max_size: usize) -> (c: Self)
        ensures
            c.wf(),
            c.entries().len() == 0,
            c.order().len() == 0,
            c.capacity() == max_size,
            c.hits() == 0 && c.misses() == 0 && c.evictions() == 0,
    {
        HighPerformanceCache {
            data: Vec::new(),
            access_order: Vec::new(),
            max_size,
            hit_count: 0,
            miss_count: 0,
            eviction_count: 0,
        }
    }

    /// Position of the entry under `key`.
    fn find(&self, key: &K) -> (r: Option<usize>)
        ensures
            match r {
                Some(i) => i < self.entries().len() && entry_keys(self.entries()).index_of_first(key@) == Some(i as int),
                None => entry_keys(self.entries()).index_of_first(key@) is None,
            },
    {
        let mut i: usize = 0;
        while i < self.data.len()
            invariant
                i <= self.data@.len(),
                forall|j: int| 0 <= j < i ==> self.data@[j].key@ != key@,
            decreases self.data@.len() - i,
        {
            if self.data[i].key.same_key(key) {
                proof {
                    let ks = entry_keys(self.data@);
                    ks.index_of_first_ensures(key@);
                    assert(ks[i as int] == key@);
                    let f = ks.index_of_first(key@)->0;
                    if f < i {
                        assert(ks[f] == self.data@[f].key@);
                    }
                }
                return Some(i);
            }
            i = i + 1;
        }
        proof {
            let ks = entry_keys(self.data@);
            ks.index_of_first_ensures(key@);
            if ks.contains(key@) {
                let j = choose|j: int| 0 <= j < ks.len() && ks[j] == key@;
                assert(self.data@[j].key@ == key@);
            }
        }
        None
    }

    /// Drops every occurrence of `key` from the access queue.
    fn forget_order(&mut self, key: &K)
        ensures
            final(self).order() == drop_all(old(self).order(), key@),
            final(self).data == old(self).data,
            final(self).max_size == old(self).max_size,
            final(self).hit_count == old(self).hit_count,
            final(self).miss_count == old(self).miss_count,
            final(self).eviction_count == old(self).eviction_count,
    {
        let mut kept: Vec<K> = Vec::new();
        let mut rest: Vec<K> = Vec::new();
        core::mem::swap(&mut rest, &mut self.access_order);
        let ghost all = key_views(rest@);
        for k in it: rest
            invariant
                key_views(it.seq()) == all,
                key_views(kept@) == drop_all(all.take(it.index() as int), key@),
        {
            proof {
                assert(all.take(it.index() as int + 1).drop_last() =~= all.take(it.index() as int));
                assert(all[it.index() as int] == it.seq()[it.index() as int]@);
            }
            if !k.same_key(key) {
                let ghost before = kept@;
                kept.push(k);
                proof {
                    assert(key_views(kept@) =~= key_views(before).push(k@));
                }
            }
        }
        proof {
            assert(all.take(all.len() as int) =~= all);
        }
        self.access_order = kept;
    }

    /// Reads the value under `key` at `now_ms`. A hit stamps the entry,
    /// counts the access and moves the key to the back of the queue.
    pub fn get(&mut self, key: &K, now_ms: u64) -> (r: Option<V>)
        where V: Clone,
        requires
            old(self).wf(),
            entry_keys(old(self).entries()).index_of_first(key@) matches Some(i)
                ==> old(self).entries()[i].access_count < u64::MAX,
        ensures
            final(self).wf(),
            final(self).capacity() == old(self).capacity(),
            final(self).evictions() == old(self).evictions(),
            match entry_keys(old(self).entries()).index_of_first(key@) {
                Some(i) => {
                    &&& r matches Some(v) && cloned(old(self).entries()[i].value, v)
                    &&& final(self).entries() == old(self).entries().update(i, CacheEntry {
                        last_access: now_ms,
                        access_count: (old(self).entries()[i].access_count + 1) as u64,
                        ..old(self).entries()[i]
                    })
                    &&& final(self).order() == drop_all(old(self).order(), key@).push(key@)
                    &&& final(self).hits() == wrapping_add(old(self).hits(), 1)
                    &&& final(self).misses() == old(self).misses()
                },
                None => {
                    &&& r is None
                    &&& final(self).entries() == old(self).entries()
                    &&& final(self).order() == old(self).order()
                    &&& final(self).hits() == old(self).hits()
                    &&& final(self).misses() == wrapping_add(old(self).misses(), 1)
                },
            },
    {
        match self.find(key) {
            Some(i) => {
                let ghost before = self.data@;
                let mut entry = self.data.remove(i);
                entry.last_access = now_ms;
                entry.access_count = entry.access_count + 1;
                let v = entry.value.clone();
                self.data.insert(i, entry);
                proof {
                    assert(self.data@ =~= before.update(i as int, self.data@[i as int]));
                    assert(entry_keys(self.data@) =~= entry_keys(before));
                }
                let ghost o0 = self.order();
                self.forget_order(key);
                let ghost mid = self.access_order@;
                self.access_order.push(key.copy_key());
                proof {
                    assert(key_views(self.access_order@) =~= key_views(mid).push(key@));
                    entry_keys(before).index_of_first_ensures(key@);
                    lemma_requeue(o0, entry_keys(self.data@), key@);
                }
                self.hit_count = self.hit_count.wrapping_add(1);
                Some(v)
            },
            None => {
                self.miss_count = self.miss_count.wrapping_add(1);
                None
            },
        }
    }

    /// Drops the least recently used entry, the one under the key at the
    /// front of the queue, and that key; counts an eviction when the queue
    /// was not empty.
    fn evict_lru(&mut self)
        requires
            old(self).wf(),
        ensures
            final(self).wf(),
            final(self).capacity() == old(self).capacity(),
            final(self).hits() == old(self).hits(),
            final(self).misses() == old(self).misses(),
            if old(self).order().len() > 0 {
                &&& final(self).order() == old(self).order().drop_first()
                &&& final(self).entries() == drop_entry(old(self).entries(), old(self).order()[0])
                &&& final(self).evictions() == wrapping_add(old(self).evictions(), 1)
            } else {
                &&& final(self).order() == old(self).order()
                &&& final(self).entries() == old(self).entries()
                &&& final(self).evictions() == old(self).evictions()
            },
    {
        if self.access_order.len() > 0 {
            let ghost before_order = self.access_order@;
            let k = self.access_order.remove(0);
            proof {
                assert(key_views(self.access_order@) =~= key_views(before_order).drop_first());
            }
            let ghost before = self.data@;
            let ghost o0 = key_views(before_order);
            proof {
                assert(o0[0] == k@);
                assert(o0.contains(k@));
                lemma_remove_unique(o0, 0);
                assert(o0.drop_first() =~= o0.remove(0));
            }
            match self.find(&k) {
                Some(i) => {
                    let _ = self.data.remove(i);
                    proof {
                        let ks = entry_keys(before);
                        let nks = entry_keys(self.data@);
                        ks.index_of_first_ensures(k@);
                        assert(nks =~= ks.remove(i as int));
                        lemma_remove_unique(ks, i as int);
                    }
                },
                None => {
                    proof {
                        entry_keys(before).index_of_first_ensures(k@);
                    }
                },
            }
            self.eviction_count = self.eviction_count.wrapping_add(1);
        }
    }

    /// Caches `value` under `key` at `now_ms`, with one access. When the
    /// cache is full and the key is new, the least recently used entry (the
    /// front of the queue) is evicted first. The key moves to the back of
    /// the queue.
    pub fn insert(&mut self, key: K, value: V, now_ms: u64)
        requires
            old(self).wf(),
        ensures
            final(self).wf(),
            final(self).capacity() == old(self).capacity(),
            final(self).hits() == old(self).hits(),
            final(self).misses() == old(self).misses(),
            ({
                let evict = old(self).entries().len() >= old(self).capacity()
                    && entry_keys(old(self).entries()).index_of_first(key@) is None
                    && old(self).order().len() > 0;
                let es = if evict { drop_entry(old(self).entries(), old(self).order()[0]) } else { old(self).entries() };
                let ord = if evict { old(self).order().drop_first() } else { old(self).order() };
                &&& final(self).entries() == put_entry(es, CacheEntry { key: key, value: value, last_access: now_ms, access_count: 1 })
                &&& final(self).order() == drop_all(ord, key@).push(key@)
                &&& final(self).evictions() == if evict { wrapping_add(old(self).evictions(), 1) } else { old(self).evictions() }
            }),
            final(self).capacity() >= 1 ==> final(self).entries().len() <= final(self).capacity(),
    {
        let ghost k = key@;
        if self.data.len() >= self.max_size {
            match self.find(&key) {
                None => {
                    proof {
                        let ks = entry_keys(self.data@);
                        if self.max_size >= 1 {
                            let k0 = self.order()[0];
                            assert(self.order().contains(k0));
                            ks.index_of_first_ensures(k0);
                        }
                    }
                    self.evict_lru();
                },
                Some(_) => {},
            }
        }
        let ghost o1 = self.order();
        let ghost l1 = self.data@.len();
        proof {
            if self.max_size >= 1 && entry_keys(self.data@).index_of_first(k) is None {
                assert(l1 < self.max_size);
            }
        }
        let order_key = key.copy_key();
        let entry = CacheEntry { key, value, last_access: now_ms, access_count: 1 };
        let ghost e = entry;
        let ghost before = self.data@;
        match self.find(&entry.key) {
            Some(i) => {
                let _ = self.data.remove(i);
                self.data.insert(i, entry);
                proof {
                    entry_keys(before).index_of_first_ensures(k);
                    assert(self.data@ =~= before.update(i as int, e));
                    assert(entry_keys(self.data@) =~= entry_keys(before));
                }
            },
            None => {
                self.data.push(entry);
                proof {
                    let ks = entry_keys(before);
                    let nks = entry_keys(self.data@);
                    ks.index_of_first_ensures(k);
                    assert(nks =~= ks.push(k));
                    assert forall|a: int, b: int| 0 <= a < nks.len() && 0 <= b < nks.len() && a != b implies nks[a] != nks[b] by {
                        if a < ks.len() && b < ks.len() {
                            assert(nks[a] == ks[a] && nks[b] == ks[b]);
                        } else if a < ks.len() {
                            assert(nks[a] == ks[a]);
                        } else if b < ks.len() {
                            assert(nks[b] == ks[b]);
                        }
                    }
                }
            },
        }
        self.forget_order(&order_key);
        let ghost mid = self.access_order@;
        self.access_order.push(order_key);
        proof {
            assert(key_views(self.access_order@) =~= key_views(mid).push(k));
            let ks = entry_keys(before);
            ks.index_of_first_ensures(k);
            if ks.contains(k) {
                lemma_requeue(o1, ks, k);
                assert(entry_keys(self.data@) =~= ks);
            } else {
                lemma_drop_all_props(o1, k);
                lemma_push_fresh(o1, k);
                assert(entry_keys(self.data@) =~= ks.push(k));
                lemma_push_fresh(ks, k);
            }
        }
    }

    /// Takes the value under `key` out of the cache, and its key out of the
    /// queue.
    pub fn remove(&mut self, key: &K) -> (r: Option<V>)
        requires
            old(self).wf(),
        ensures
            final(self).wf(),
            final(self).capacity() == old(self).capacity(),
            final(self).hits() == old(self).hits(),
            final(self).misses() == old(self).misses(),
            final(self).evictions() == old(self).evictions(),
            match entry_keys(old(self).entries()).index_of_first(key@) {
                Some(i) => {
                    &&& r == Some(old(self).entries()[i].value)
                    &&& final(self).entries() == old(self).entries().remove(i)
                    &&& final(self).order() == drop_all(old(self).order(), key@)
                },
                None => {
                    &&& r is None
                    &&& final(self).entries() == old(self).entries()
                    &&& final(self).order() == old(self).order()
                },
            },
    {
        match self.find(key) {
            Some(i) => {
                let ghost before = self.data@;
                let ghost o0 = self.order();
                let entry = self.data.remove(i);
                proof {
                    let ks = entry_keys(before);
                    let nks = entry_keys(self.data@);
                    assert(nks =~= ks.remove(i as int));
                    ks.index_of_first_ensures(key@);
                    lemma_remove_unique(ks, i as int);
                    assert(o0.contains(key@));
                    lemma_drop_all_props(o0, key@);
                }
                self.forget_order(key);
                Some(entry.value)
            },
            None => None,
        }
    }

    /// Empties the cache and its queue; the counters stay.
    pub fn clear(&mut self)
        ensures
            final(self).wf(),
            final(self).entries().len() == 0,
            final(self).order().len() == 0,
            final(self).capacity() == old(self).capacity(),
            final(self).hits() == old(self).hits(),
            final(self).misses() == old(self).misses(),
            final(self).evictions() == old(self).evictions(),
    {
        self.data = Vec::new();
        self.access_order = Vec::new();
        proof {
            assert(key_views(self.access_order@) =~= Seq::<K::V>::empty());
            assert(entry_keys(self.data@) =~= Seq::<K::V>::empty());
        }
    }

    /// The counters, with the hit rate in hundredths of a percent (zero
    /// before any read).
    pub fn get_stats(&self) -> (s: CacheStats)
        requires
            self.hits() + self.misses() <= u64::MAX,
        ensures
            s.size == self.entries().len(),
            s.max_size == self.capacity(),
            s.hit_count == self.hits(),
            s.miss_count == self.misses(),
            s.eviction_count == self.evictions(),
            s.hit_rate == hit_rate_of(self.hits(), self.misses()),
    {
        let total: u64 = self.hit_count + self.miss_count;
        let rate: u64 = if total > 0 {
            ((self.hit_count as u128) * 10_000 / (total as u128)) as u64
        } else {
            0
        };
        proof {
            if total > 0 {
                assert((self.hit_count as int) * 10_000 / (total as int) <= 10_000) by (nonlinear_arith)
                    requires self.hit_count <= total, total > 0;
            }
        }
        CacheStats {
            size: self.data.len(),
            max_size: self.max_size,
            hit_count: self.hit_count,
            miss_count: self.miss_count,
            eviction_count: self.eviction_count,
            hit_rate: rate,
        }
    }
}

/// The share of reads that hit, in hundredths of a percent; zero before any
/// read.
pub open spec fn hit_rate_of(hits: u64, misses: u64) -> int {
    if hits + misses > 0 { (hits as int) * 10_000 / ((hits + misses) as int) } else { 0 }
}


/// What dropping every occurrence of `x` keeps: the other elements, with
/// no duplicates where there were none, and one fewer element when `x`
/// occurred once.
pub proof fn lemma_drop_all_props<T>(s: Seq<T>, x: T)
    ensures
        forall|y: T| #[trigger] drop_all(s, x).contains(y) <==> (s.contains(y) && y != x),
        !s.contains(x) ==> drop_all(s, x) == s,
        s.no_duplicates() ==> drop_all(s, x).no_duplicates(),
        s.no_duplicates() && s.contains(x) ==> drop_all(s, x).len() + 1 == s.len(),
        drop_all(s, x).len() <= s.len(),
    decreases s.len(),
{
    if s.len() > 0 {
        let p = s.drop_last();
        lemma_drop_all_props(p, x);
        let rest = drop_all(p, x);
        assert(s =~= p.push(s.last()));
        let d = drop_all(s, x);
        assert(d == if s.last() == x { rest } else { rest.push(s.last()) });
        assert forall|y: T| #[trigger] d.contains(y) <==> (s.contains(y) && y != x) by {
            if s.contains(y) && y != x {
                let j = choose|j: int| 0 <= j < s.len() && s[j] == y;
                if j < p.len() {
                    assert(p[j] == y);
                    assert(p.contains(y));
                    assert(rest.contains(y));
                    let q = choose|q: int| 0 <= q < rest.len() && rest[q] == y;
                    if s.last() != x {
                        assert(d[q] == y);
                    }
                } else {
                    assert(s.last() == y);
                    assert(d[rest.len() as int] == y);
                }
            }
            if d.contains(y) {
                let j = choose|j: int| 0 <= j < d.len() && d[j] == y;
                if s.last() == x || j < rest.len() {
                    assert(rest[j] == y);
                    assert(rest.contains(y));
                    let q = choose|q: int| 0 <= q < p.len() && p[q] == y;
                    assert(s[q] == y);
                } else {
                    assert(y == s.last());
                    assert(s[s.len() - 1] == y);
                }
            }
        }
        if !s.contains(x) {
            assert forall|q: int| 0 <= q < p.len() implies p[q] != x by {
                assert(s[q] == p[q]);
            }
            assert(!p.contains(x));
            assert(s.last() != x) by {
                assert(s[s.len() - 1] == s.last());
            }
        }
        if s.no_duplicates() {
            assert(p.no_duplicates()) by {
                assert forall|a: int, b: int| 0 <= a < p.len() && 0 <= b < p.len() && a != b implies p[a] != p[b] by {
                    assert(s[a] == p[a] && s[b] == p[b]);
                }
            }
            if s.last() != x {
                let r2 = rest.push(s.last());
                assert(!p.contains(s.last())) by {
                    if p.contains(s.last()) {
                        let q = choose|q: int| 0 <= q < p.len() && p[q] == s.last();
                        assert(s[q] == s[s.len() - 1]);
                    }
                }
                assert(!rest.contains(s.last()));
                assert forall|a: int, b: int| 0 <= a < r2.len() && 0 <= b < r2.len() && a != b implies r2[a] != r2[b] by {
                    if a < rest.len() && b < rest.len() {
                        assert(r2[a] == rest[a] && r2[b] == rest[b]);
                    } else if a < rest.len() {
                        assert(r2[a] == rest[a]);
                        assert(rest.contains(r2[a]));
                    } else if b < rest.len() {
                        assert(r2[b] == rest[b]);
                        assert(rest.contains(r2[b]));
                    }
                }
            }
            if s.contains(x) {
                if s.last() == x {
                    assert(!p.contains(x)) by {
                        if p.contains(x) {
                            let q = choose|q: int| 0 <= q < p.len() && p[q] == x;
                            assert(s[q] == s[s.len() - 1]);
                        }
                    }
                } else {
                    let j = choose|j: int| 0 <= j < s.len() && s[j] == x;
                    assert(j < p.len());
                    assert(p[j] == x);
                    assert(p.contains(x));
                }
            }
        }
    }
}

/// Appending an element not yet present keeps a sequence free of
/// duplicates and adds just that element.
pub proof fn lemma_push_fresh<T>(o: Seq<T>, k: T)
    requires
        o.no_duplicates(),
        !o.contains(k),
    ensures
        o.push(k).no_duplicates(),
        forall|y: T| #[trigger] o.push(k).contains(y) <==> (o.contains(y) || y == k),
{
    let n = o.push(k);
    assert forall|a: int, b: int| 0 <= a < n.len() && 0 <= b < n.len() && a != b implies n[a] != n[b] by {
        if a < o.len() && b < o.len() {
            assert(n[a] == o[a] && n[b] == o[b]);
        } else if a < o.len() {
            assert(n[a] == o[a]);
        } else if b < o.len() {
            assert(n[b] == o[b]);
        }
    }
    assert forall|y: T| #[trigger] n.contains(y) <==> (o.contains(y) || y == k) by {
        if n.contains(y) {
            let j = choose|j: int| 0 <= j < n.len() && n[j] == y;
            if j < o.len() {
                assert(o[j] == y);
            }
        }
        if o.contains(y) {
            let j = choose|j: int| 0 <= j < o.len() && o[j] == y;
            assert(n[j] == y);
        }
        if y == k {
            assert(n[o.len() as int] == y);
        }
    }
}

/// Removing position `i` from a sequence without duplicates keeps it so
/// and drops just the element there.
pub proof fn lemma_remove_unique<T>(ks: Seq<T>, i: int)
    requires
        0 <= i < ks.len(),
        ks.no_duplicates(),
    ensures
        ks.remove(i).no_duplicates(),
        forall|y: T| #[trigger] ks.remove(i).contains(y) <==> (ks.contains(y) && y != ks[i]),
{
    let n = ks.remove(i);
    assert forall|a: int, b: int| 0 <= a < n.len() && 0 <= b < n.len() && a != b implies n[a] != n[b] by {
        let a2 = if a < i { a } else { a + 1 };
        let b2 = if b < i { b } else { b + 1 };
        assert(n[a] == ks[a2] && n[b] == ks[b2]);
    }
    assert forall|y: T| #[trigger] n.contains(y) <==> (ks.contains(y) && y != ks[i]) by {
        if n.contains(y) {
            let j = choose|j: int| 0 <= j < n.len() && n[j] == y;
            let j2 = if j < i { j } else { j + 1 };
            assert(ks[j2] == y);
        }
        if ks.contains(y) && y != ks[i] {
            let j = choose|j: int| 0 <= j < ks.len() && ks[j] == y;
            assert(j != i);
            let j2 = if j < i { j } else { j - 1 };
            assert(n[j2] == y);
        }
    }
}

/// Moving a present key to the back of a queue that holds each key of
/// `keys` once keeps it so.
pub proof fn lemma_requeue<T>(o: Seq<T>, keys: Seq<T>, k: T)
    requires
        o.no_duplicates(),
        o.len() == keys.len(),
        forall|y: T| #[trigger] o.contains(y) <==> keys.contains(y),
        keys.contains(k),
    ensures
        drop_all(o, k).push(k).no_duplicates(),
        drop_all(o, k).push(k).len() == keys.len(),
        forall|y: T| #[trigger] drop_all(o, k).push(k).contains(y) <==> keys.contains(y),
{
    lemma_drop_all_props(o, k);
    assert(o.contains(k));
    lemma_push_fresh(drop_all(o, k), k);
}

/// Dropping every occurrence twice is dropping it once.
pub proof fn lemma_drop_all_again<T>(s: Seq<T>, x: T)
    ensures
        drop_all(drop_all(s, x), x) == drop_all(s, x),
        drop_all(drop_all(s, x).push(x), x) == drop_all(s, x),
    decreases s.len(),
{
    if s.len() > 0 {
        lemma_drop_all_again(s.drop_last(), x);
        let rest = drop_all(s.drop_last(), x);
        if s.last() != x {
            assert(rest.push(s.last()).drop_last() =~= rest);
        }
    }
    let d = drop_all(s, x);
    assert(d.push(x).drop_last() =~= d);
    assert(drop_all(d.push(x), x) == drop_all(d.push(x).drop_last(), x));
}

/// A value with the time it stops being served.
pub struct CacheValue<V> {
    pub value: V,
    pub expires_at: u64,
}

impl<V: Clone> Clone for CacheValue<V> {
    fn clone(&self) -> (c: Self)
        ensures
            c.expires_at == self.expires_at,
            cloned(self.value, c.value),
    {
        CacheValue { value: self.value.clone(), expires_at: self.expires_at }
    }
}

/// The keys of the entries of `es` expired at `now_ms`, in order.
pub open spec fn expired_keys<K: View, V>(es: Seq<CacheEntry<K, CacheValue<V>>>, now_ms: u64) -> Seq<K::V>
    decreases es.len(),
{
    if es.len() == 0 {
        Seq::empty()
    } else {
        let rest = expired_keys(es.drop_last(), now_ms);
        if es.last().value.expires_at <= now_ms { rest.push(es.last().key@) } else { rest }
    }
}

/// `es` after dropping the entry under each of `ks` in turn.
pub open spec fn drop_entries<K: View, V>(es: Seq<CacheEntry<K, V>>, ks: Seq<K::V>) -> Seq<CacheEntry<K, V>>
    decreases ks.len(),
{
    if ks.len() == 0 { es } else { drop_entry(drop_entries(es, ks.drop_last()), ks.last()) }
}

/// `order` after dropping every occurrence of each of `ks` in turn.
pub open spec fn drop_keys<T>(order: Seq<T>, ks: Seq<T>) -> Seq<T>
    decreases ks.len(),
{
    if ks.len() == 0 { order } else { drop_all(drop_keys(order, ks.drop_last()), ks.last()) }
}

/// A cache whose entries expire `default_ttl_ms` after they are written,
/// unless written with a time to live of their own.
pub struct TimeBasedCache<K: CacheKey, V> {
    cache: HighPerformanceCache<K, CacheValue<V>>,
    default_ttl_ms: u64,
}

impl<K: CacheKey, V: Clone> TimeBasedCache<K, V> {
    /// The LRU cache underneath.
    pub closed spec fn inner(&self) -> HighPerformanceCache<K, CacheValue<V>> {
        self.cache
    }

    /// The time to live of entries written without one.
    pub closed spec fn ttl(&self) -> u64 {
        self.default_ttl_ms
    }

    /// The cache underneath is well formed.
    pub open spec fn wf(&self) -> bool {
        self.inner().wf()
    }

    /// An empty cache of at most `max_size` entries living `default_ttl_ms`.
    pub fn new(max_size: usize, default_ttl_ms: u64) -> (c: Self)
        ensures
            c.wf(),
            c.inner().entries().len() == 0,
            c.inner().order().len() == 0,
            c.inner().capacity() == max_size,
            c.inner().hits() == 0 && c.inner().misses() == 0 && c.inner().evictions() == 0,
            c.ttl() == default_ttl_ms,
    {
        TimeBasedCache { cache: HighPerformanceCache::new(max_size), default_ttl_ms }
    }

    /// The value under `key` if it has not expired at `now_ms`. The read
    /// counts as a hit of the cache underneath either way; an expired entry
    /// is then dropped.
    pub fn get(&mut self, key: &K, now_ms: u64) -> (r: Option<V>)
        requires
            old(self).wf(),
            entry_keys(old(self).inner().entries()).index_of_first(key@) matches Some(i)
                ==> old(self).inner().entries()[i].access_count < u64::MAX,
        ensures
            final(self).wf(),
            final(self).ttl() == old(self).ttl(),
            final(self).inner().capacity() == old(self).inner().capacity(),
            final(self).inner().evictions() == old(self).inner().evictions(),
            match entry_keys(old(self).inner().entries()).index_of_first(key@) {
                Some(i) => {
                    let e = old(self).inner().entries()[i];
                    &&& final(self).inner().hits() == wrapping_add(old(self).inner().hits(), 1)
                    &&& final(self).inner().misses() == old(self).inner().misses()
                    &&& if e.value.expires_at > now_ms {
                        &&& r matches Some(v) && cloned(e.value.value, v)
                        &&& final(self).inner().entries() == old(self).inner().entries().update(i, CacheEntry {
                            last_access: now_ms,
                            access_count: (e.access_count + 1) as u64,
                            ..e
                        })
                        &&& final(self).inner().order() == drop_all(old(self).inner().order(), key@).push(key@)
                    } else {
                        &&& r is None
                        &&& final(self).inner().entries() == old(self).inner().entries().remove(i)
                        &&& final(self).inner().order() == drop_all(old(self).inner().order(), key@)
                    }
                },
                None => {
                    &&& r is None
                    &&& final(self).inner().entries() == old(self).inner().entries()
                    &&& final(self).inner().order() == old(self).inner().order()
                    &&& final(self).inner().hits() == old(self).inner().hits()
                    &&& final(self).inner().misses() == wrapping_add(old(self).inner().misses(), 1)
                },
            },
    {
        let ghost o = self.cache;
        match self.cache.get(key, now_ms) {
            Some(cv) => {
                if cv.expires_at > now_ms {
                    Some(cv.value)
                } else {
                    let ghost mid = self.cache;
                    let _ = self.cache.remove(key);
                    proof {
                        let i = entry_keys(o.entries()).index_of_first(key@)->0;
                        entry_keys(o.entries()).index_of_first_ensures(key@);
                        assert(entry_keys(mid.entries()) =~= entry_keys(o.entries()));
                        assert(mid.entries().remove(i) =~= o.entries().remove(i));
                        lemma_drop_all_again(o.order(), key@);
                    }
                    None
                }
            },
            None => None,
        }
    }

    /// Caches `value` under `key` at `now_ms` for the default time to live.
    pub fn insert(&mut self, key: K, value: V, now_ms: u64)
        requires
            old(self).wf(),
            now_ms + old(self).ttl() <= u64::MAX,
        ensures
            final(self).wf(),
            final(self).ttl() == old(self).ttl(),
            final(self).inner().capacity() == old(self).inner().capacity(),
            final(self).inner().hits() == old(self).inner().hits(),
            final(self).inner().misses() == old(self).inner().misses(),
            ({
                let o = old(self).inner();
                let evict = o.entries().len() >= o.capacity()
                    && entry_keys(o.entries()).index_of_first(key@) is None
                    && o.order().len() > 0;
                let es = if evict { drop_entry(o.entries(), o.order()[0]) } else { o.entries() };
                let ord = if evict { o.order().drop_first() } else { o.order() };
                &&& final(self).inner().entries() == put_entry(es, CacheEntry {
                    key: key,
                    value: CacheValue { value: value, expires_at: (now_ms + old(self).ttl()) as u64 },
                    last_access: now_ms,
                    access_count: 1,
                })
                &&& final(self).inner().order() == drop_all(ord, key@).push(key@)
                &&& final(self).inner().evictions() == if evict { wrapping_add(o.evictions(), 1) } else { o.evictions() }
            }),
    {
        let ttl = self.default_ttl_ms;
        self.insert_with_ttl(key, value, ttl, now_ms);
    }

    /// Caches `value` under `key` at `now_ms` for `ttl_ms`.
    pub fn insert_with_ttl(&mut self, key: K, value: V, ttl_ms: u64, now_ms: u64)
        requires
            old(self).wf(),
            now_ms + ttl_ms <= u64::MAX,
        ensures
            final(self).wf(),
            final(self).ttl() == old(self).ttl(),
            final(self).inner().capacity() == old(self).inner().capacity(),
            final(self).inner().hits() == old(self).inner().hits(),
            final(self).inner().misses() == old(self).inner().misses(),
            ({
                let o = old(self).inner();
                let evict = o.entries().len() >= o.capacity()
                    && entry_keys(o.entries()).index_of_first(key@) is None
                    && o.order().len() > 0;
                let es = if evict { drop_entry(o.entries(), o.order()[0]) } else { o.entries() };
                let ord = if evict { o.order().drop_first() } else { o.order() };
                &&& final(self).inner().entries() == put_entry(es, CacheEntry {
                    key: key,
                    value: CacheValue { value: value, expires_at: (now_ms + ttl_ms) as u64 },
                    last_access: now_ms,
                    access_count: 1,
                })
                &&& final(self).inner().order() == drop_all(ord, key@).push(key@)
                &&& final(self).inner().evictions() == if evict { wrapping_add(o.evictions(), 1) } else { o.evictions() }
            }),
    {
        let cv = CacheValue { value, expires_at: now_ms + ttl_ms };
        self.cache.insert(key, cv, now_ms);
    }

    /// Drops every entry expired at `now_ms`, and its key from the queue.
    pub fn cleanup_expired(&mut self, now_ms: u64)
        requires
            old(self).wf(),
        ensures
            final(self).wf(),
            final(self).ttl() == old(self).ttl(),
            final(self).inner().capacity() == old(self).inner().capacity(),
            final(self).inner().hits() == old(self).inner().hits(),
            final(self).inner().misses() == old(self).inner().misses(),
            final(self).inner().evictions() == old(self).inner().evictions(),
            final(self).inner().entries() == drop_entries(old(self).inner().entries(), expired_keys(old(self).inner().entries(), now_ms)),
            final(self).inner().order() == drop_keys(old(self).inner().order(), expired_keys(old(self).inner().entries(), now_ms)),
    {
        let ghost start = self.cache;
        let ghost es = self.cache.data@;
        let mut expired: Vec<K> = Vec::new();
        let mut i: usize = 0;
        while i < self.cache.data.len()
            invariant
                i <= self.cache.data@.len(),
                self.cache == start,
                self.default_ttl_ms == old(self).default_ttl_ms,
                es == start.data@,
                key_views(expired@) == expired_keys(es.take(i as int), now_ms),
            decreases self.cache.data@.len() - i,
        {
            proof {
                assert(es.take(i as int + 1).drop_last() =~= es.take(i as int));
            }
            if self.cache.data[i].value.expires_at <= now_ms {
                let ghost before = expired@;
                expired.push(self.cache.data[i].key.copy_key());
                proof {
                    assert(key_views(expired@) =~= key_views(before).push(es[i as int].key@));
                }
            }
            i = i + 1;
        }
        proof {
            assert(es.take(es.len() as int) =~= es);
        }
        let ghost ks = key_views(expired@);
        proof {
            lemma_expired_keys(es, now_ms);
        }
        let mut j: usize = 0;
        while j < expired.len()
            invariant
                j <= expired@.len(),
                ks == key_views(expired@),
                ks.no_duplicates(),
                forall|m: int| j <= m < ks.len() ==> entry_keys(self.cache.entries()).contains(#[trigger] ks[m]),
                self.default_ttl_ms == old(self).default_ttl_ms,
                self.cache.wf(),
                self.cache.max_size == start.max_size,
                self.cache.hit_count == start.hit_count,
                self.cache.miss_count == start.miss_count,
                self.cache.eviction_count == start.eviction_count,
                self.cache.entries() == drop_entries(start.entries(), ks.take(j as int)),
                self.cache.order() == drop_keys(start.order(), ks.take(j as int)),
            decreases expired@.len() - j,
        {
            let ghost before = self.cache;
            let _ = self.cache.remove(&expired[j]);
            proof {
                let t = ks.take(j as int + 1);
                assert(t.drop_last() =~= ks.take(j as int));
                assert(t.last() == expired@[j as int]@);
                let k = expired@[j as int]@;
                assert(ks[j as int] == k);
                entry_keys(before.entries()).index_of_first_ensures(k);
                let i = entry_keys(before.entries()).index_of_first(k)->0;
                assert forall|m: int| j + 1 <= m < ks.len() implies entry_keys(self.cache.entries()).contains(#[trigger] ks[m]) by {
                    assert(entry_keys(before.entries()).contains(ks[m]));
                    let p = choose|p: int| 0 <= p < entry_keys(before.entries()).len() && entry_keys(before.entries())[p] == ks[m];
                    assert(ks[m] != k);
                    assert(p != i);
                    let p2 = if p < i { p } else { p - 1 };
                    assert(entry_keys(self.cache.entries())[p2] == ks[m]);
                }
            }
            j = j + 1;
        }
        proof {
            assert(ks.take(ks.len() as int) =~= ks);
        }
    }

    /// The counters of the cache underneath.
    pub fn get_stats(&self) -> (s: CacheStats)
        requires
            self.inner().hits() + self.inner().misses() <= u64::MAX,
        ensures
            s.size == self.inner().entries().len(),
            s.max_size == self.inner().capacity(),
            s.hit_count == self.inner().hits(),
            s.miss_count == self.inner().misses(),
            s.eviction_count == self.inner().evictions(),
            s.hit_rate == hit_rate_of(self.inner().hits(), self.inner().misses()),
    {
        self.cache.get_stats()
    }
}


/// The expired keys of entries with distinct keys are distinct keys of
/// those entries.
proof fn lemma_expired_keys<K: View, V>(es: Seq<CacheEntry<K, CacheValue<V>>>, now_ms: u64)
    requires
        entry_keys(es).no_duplicates(),
    ensures
        expired_keys(es, now_ms).no_duplicates(),
        forall|k: K::V| expired_keys(es, now_ms).contains(k) ==> entry_keys(es).contains(k),
    decreases es.len(),
{
    if es.len() > 0 {
        let init = es.drop_last();
        let ks = entry_keys(es);
        let iks = entry_keys(init);
        assert(iks =~= ks.drop_last());
        assert forall|a: int, b: int| 0 <= a < iks.len() && 0 <= b < iks.len() && a != b implies iks[a] != iks[b] by {
            assert(iks[a] == ks[a] && iks[b] == ks[b]);
        }
        lemma_expired_keys(init, now_ms);
        let rest = expired_keys(init, now_ms);
        let l = es.last();
        assert forall|k: K::V| rest.contains(k) implies ks.contains(k) by {
            assert(entry_keys(init).contains(k));
            let m = choose|m: int| 0 <= m < iks.len() && iks[m] == k;
            assert(ks[m] == k);
        }
        if l.value.expires_at <= now_ms {
            let nks = rest.push(l.key@);
            assert(ks[es.len() - 1] == l.key@);
            if rest.contains(l.key@) {
                assert(entry_keys(init).contains(l.key@));
                let m = choose|m: int| 0 <= m < iks.len() && iks[m] == l.key@;
                assert(ks[m] == iks[m]);
                assert(m != es.len() - 1);
                assert(ks[m] == ks[es.len() - 1]);
                assert(false);
            }
            assert(!rest.contains(l.key@));
            assert forall|a: int, b: int| 0 <= a < nks.len() && 0 <= b < nks.len() && a != b implies nks[a] != nks[b] by {
                if a < rest.len() && b < rest.len() {
                    assert(nks[a] == rest[a] && nks[b] == rest[b]);
                } else if a < rest.len() {
                    assert(nks[a] == rest[a]);
                    assert(nks[b] == l.key@);
                } else if b < rest.len() {
                    assert(nks[b] == rest[b]);
                    assert(nks[a] == l.key@);
                }
            }
            assert forall|k: K::V| nks.contains(k) implies ks.contains(k) by {
                let j = choose|j: int| 0 <= j < nks.len() && nks[j] == k;
                if j < rest.len() {
                    assert(nks[j] == rest[j]);
                    assert(rest.contains(k));
                }
            }
        }
    }
}


/// Whether `n` is `o` after a read of `key` at `now_ms` found the entry at
/// position `i`.
pub open spec fn read_hit<K: CacheKey, V>(o: HighPerformanceCache<K, V>, n: HighPerformanceCache<K, V>, i: int, key: K::V, now_ms: u64) -> bool {
    &&& n.entries() == o.entries().update(i, CacheEntry {
        last_access: now_ms,
        access_count: (o.entries()[i].access_count + 1) as u64,
        ..o.entries()[i]
    })
    &&& n.order() == drop_all(o.order(), key).push(key)
    &&& n.hits() == wrapping_add(o.hits(), 1)
    &&& n.misses() == o.misses()
    &&& n.evictions() == o.evictions()
    &&& n.capacity() == o.capacity()
}

/// Whether `n` is `o` after a read that found nothing.
pub open spec fn read_miss<K: CacheKey, V>(o: HighPerformanceCache<K, V>, n: HighPerformanceCache<K, V>) -> bool {
    &&& n.entries() == o.entries()
    &&& n.order() == o.order()
    &&& n.hits() == o.hits()
    &&& n.misses() == wrapping_add(o.misses(), 1)
    &&& n.evictions() == o.evictions()
    &&& n.capacity() == o.capacity()
}

/// Whether `n` is `o` after inserting entry `e`: the front of the queue is
/// evicted first when the cache is full and the key new.
pub open spec fn inserted<K: CacheKey, V>(o: HighPerformanceCache<K, V>, n: HighPerformanceCache<K, V>, e: CacheEntry<K, V>) -> bool {
    let evict = o.entries().len() >= o.capacity()
        && entry_keys(o.entries()).index_of_first(e.key@) is None
        && o.order().len() > 0;
    let es = if evict { drop_entry(o.entries(), o.order()[0]) } else { o.entries() };
    let ord = if evict { o.order().drop_first() } else { o.order() };
    &&& n.entries() == put_entry(es, e)
    &&& n.order() == drop_all(ord, e.key@).push(e.key@)
    &&& n.evictions() == if evict { wrapping_add(o.evictions(), 1) } else { o.evictions() }
    &&& n.hits() == o.hits()
    &&& n.misses() == o.misses()
    &&& n.capacity() == o.capacity()
}

/// Whether `n` is `o` after removing `key`.
pub open spec fn key_removed<K: CacheKey, V>(o: HighPerformanceCache<K, V>, n: HighPerformanceCache<K, V>, key: K::V) -> bool {
    &&& match entry_keys(o.entries()).index_of_first(key) {
        Some(i) => n.entries() == o.entries().remove(i) && n.order() == drop_all(o.order(), key),
        None => n.entries() == o.entries() && n.order() == o.order(),
    }
    &&& n.hits() == o.hits()
    &&& n.misses() == o.misses()
    &&& n.evictions() == o.evictions()
    &&& n.capacity() == o.capacity()
}

/// The value under `key` in `c`, if any.
pub open spec fn value_under<K: CacheKey, V>(c: HighPerformanceCache<K, V>, key: K::V) -> Option<V> {
    match entry_keys(c.entries()).index_of_first(key) {
        Some(i) => Some(c.entries()[i].value),
        None => None,
    }
}

/// Whether `c` can count one more access of the entry under `key`.
pub open spec fn room_to_read<K: CacheKey, V>(c: HighPerformanceCache<K, V>, key: K::V) -> bool {
    entry_keys(c.entries()).index_of_first(key) matches Some(i) ==> c.entries()[i].access_count < u64::MAX
}

/// Counters of a two-level cache.
#[derive(Debug, Clone, Copy, PartialEq, Eq, Structural)]
pub struct MultiLevelCacheStats {
    pub l1_stats: CacheStats,
    pub l2_stats: CacheStats,
    pub total_hit_count: u64,
    pub total_miss_count: u64,
}

/// A small first-level cache in front of a larger second-level one. Writes
/// go to both; a read served by the second level is copied to the first.
pub struct MultiLevelCache<K: CacheKey, V> {
    l1_cache: HighPerformanceCache<K, V>,
    l2_cache: HighPerformanceCache<K, V>,
    l1_size: usize,
    l2_size: usize,
}

impl<K: CacheKey, V: Clone> MultiLevelCache<K, V> {
    /// The first level.
    pub closed spec fn l1(&self) -> HighPerformanceCache<K, V> {
        self.l1_cache
    }

    /// The second level.
    pub closed spec fn l2(&self) -> HighPerformanceCache<K, V> {
        self.l2_cache
    }

    /// Both levels are well formed.
    pub open spec fn wf(&self) -> bool {
        self.l1().wf() && self.l2().wf()
    }

    /// Empty levels of `l1_size` and `l2_size` entries.
    pub fn new(l1_size: usize, l2_size: usize) -> (c: Self)
        ensures
            c.wf(),
            c.l1().entries().len() == 0 && c.l2().entries().len() == 0,
            c.l1().order().len() == 0 && c.l2().order().len() == 0,
            c.l1().capacity() == l1_size && c.l2().capacity() == l2_size,
            c.l1().hits() == 0 && c.l1().misses() == 0 && c.l1().evictions() == 0,
            c.l2().hits() == 0 && c.l2().misses() == 0 && c.l2().evictions() == 0,
    {
        MultiLevelCache {
            l1_cache: HighPerformanceCache::new(l1_size),
            l2_cache: HighPerformanceCache::new(l2_size),
            l1_size,
            l2_size,
        }
    }

    /// Reads `key` at `now_ms` from the first level, else from the second,
    /// copying a value found there into the first.
    #[verifier::rlimit(40)]
    pub fn get(&mut self, key: &K, now_ms: u64) -> (r: Option<V>)
        requires
            old(self).wf(),
            room_to_read(old(self).l1(), key@),
            room_to_read(old(self).l2(), key@),
        ensures
            final(self).wf(),
            match entry_keys(old(self).l1().entries()).index_of_first(key@) {
                Some(i) => {
                    &&& r matches Some(v) && cloned(old(self).l1().entries()[i].value, v)
                    &&& read_hit(old(self).l1(), final(self).l1(), i, key@, now_ms)
                    &&& final(self).l2() == old(self).l2()
                },
                None => match entry_keys(old(self).l2().entries()).index_of_first(key@) {
                    Some(j) => {
                        &&& r matches Some(v) && cloned(old(self).l2().entries()[j].value, v)
                            && exists|mid: HighPerformanceCache<K, V>, e: CacheEntry<K, V>| #![trigger inserted(mid, final(self).l1(), e)]
                                read_miss(old(self).l1(), mid)
                                && e.key@ == key@ && cloned(v, e.value) && e.last_access == now_ms && e.access_count == 1
                                && inserted(mid, final(self).l1(), e)
                        &&& read_hit(old(self).l2(), final(self).l2(), j, key@, now_ms)
                    },
                    None => {
                        &&& r is None
                        &&& read_miss(old(self).l1(), final(self).l1())
                        &&& read_miss(old(self).l2(), final(self).l2())
                    },
                },
            },
    {
        let ghost o1 = self.l1_cache;
        let ghost o2 = self.l2_cache;
        match self.l1_cache.get(key, now_ms) {
            Some(v) => {
                proof {
                    let i = entry_keys(o1.entries()).index_of_first(key@)->0;
                    assert(read_hit(o1, self.l1(), i, key@, now_ms));
                    assert(self.l2() == o2);
                }
                return Some(v);
            },
            None => {},
        }
        let ghost mid = self.l1_cache;
        proof {
            assert(read_miss(o1, mid));
        }
        match self.l2_cache.get(key, now_ms) {
            Some(v) => {
                let copy = v.clone();
                let k = key.copy_key();
                let ghost e = CacheEntry { key: k, value: copy, last_access: now_ms, access_count: 1u64 };
                self.l1_cache.insert(k, copy, now_ms);
                proof {
                    let j = entry_keys(o2.entries()).index_of_first(key@)->0;
                    assert(read_hit(o2, self.l2_cache, j, key@, now_ms));
                    assert(cloned(v, copy));
                    assert(inserted(mid, self.l1_cache, e));
                    assert(read_miss(o1, mid) && e.key@ == key@ && cloned(v, e.value) && e.last_access == now_ms
                        && e.access_count == 1 && inserted(mid, self.l1(), e));
                    assert(read_hit(o2, self.l2(), j, key@, now_ms));
                }
                Some(v)
            },
            None => {
                proof {
                    assert(read_miss(o2, self.l2_cache));
                }
                None
            },
        }
    }

    /// Writes `value` under `key` at `now_ms` to both levels.
    #[verifier::rlimit(40)]
    pub fn insert(&mut self, key: K, value: V, now_ms: u64)
        requires
            old(self).wf(),
        ensures
            final(self).wf(),
            exists|e: CacheEntry<K, V>| #![trigger inserted(old(self).l1(), final(self).l1(), e)]
                e.key@ == key@ && cloned(value, e.value) && e.last_access == now_ms && e.access_count == 1
                && inserted(old(self).l1(), final(self).l1(), e),
            inserted(old(self).l2(), final(self).l2(), CacheEntry { key: key, value: value, last_access: now_ms, access_count: 1 }),
    {
        let k = key.copy_key();
        let copy = value.clone();
        let ghost e = CacheEntry { key: k, value: copy, last_access: now_ms, access_count: 1u64 };
        self.l1_cache.insert(k, copy, now_ms);
        proof {
            assert(cloned(value, copy));
            assert(inserted(old(self).l1(), self.l1_cache, e));
            assert(e.key@ == key@ && cloned(value, e.value) && e.last_access == now_ms && e.access_count == 1
                && inserted(old(self).l1(), self.l1_cache, e));
        }
        self.l2_cache.insert(key, value, now_ms);
        assert(inserted(old(self).l1(), self.l1(), e));
    }

    /// Removes `key` from both levels; the value of the first level wins.
    pub fn remove(&mut self, key: &K) -> (r: Option<V>)
        requires
            old(self).wf(),
        ensures
            final(self).wf(),
            key_removed(old(self).l1(), final(self).l1(), key@),
            key_removed(old(self).l2(), final(self).l2(), key@),
            r == match value_under(old(self).l1(), key@) {
                Some(v) => Some(v),
                None => value_under(old(self).l2(), key@),
            },
    {
        let r1 = self.l1_cache.remove(key);
        let r2 = self.l2_cache.remove(key);
        match r1 {
            Some(v) => Some(v),
            None => r2,
        }
    }

    /// Empties both levels.
    pub fn clear(&mut self)
        ensures
            final(self).wf(),
            final(self).l1().entries().len() == 0 && final(self).l2().entries().len() == 0,
            final(self).l1().order().len() == 0 && final(self).l2().order().len() == 0,
            final(self).l1().capacity() == old(self).l1().capacity(),
            final(self).l2().capacity() == old(self).l2().capacity(),
    {
        self.l1_cache.clear();
        self.l2_cache.clear();
    }

    /// The counters of both levels and their sums.
    pub fn get_stats(&self) -> (s: MultiLevelCacheStats)
        requires
            self.l1().hits() + self.l1().misses() <= u64::MAX,
            self.l2().hits() + self.l2().misses() <= u64::MAX,
            self.l1().hits() + self.l2().hits() <= u64::MAX,
            self.l1().misses() + self.l2().misses() <= u64::MAX,
        ensures
            s.l1_stats.hit_count == self.l1().hits() && s.l1_stats.miss_count == self.l1().misses(),
            s.l2_stats.hit_count == self.l2().hits() && s.l2_stats.miss_count == self.l2().misses(),
            s.l1_stats.size == self.l1().entries().len() && s.l2_stats.size == self.l2().entries().len(),
            s.l1_stats.eviction_count == self.l1().evictions() && s.l2_stats.eviction_count == self.l2().evictions(),
            s.l1_stats.hit_rate == hit_rate_of(self.l1().hits(), self.l1().misses()),
            s.l2_stats.hit_rate == hit_rate_of(self.l2().hits(), self.l2().misses()),
            s.total_hit_count == self.l1().hits() + self.l2().hits(),
            s.total_miss_count == self.l1().misses() + self.l2().misses(),
    {
        let l1_stats = self.l1_cache.get_stats();
        let l2_stats = self.l2_cache.get_stats();
        MultiLevelCacheStats {
            l1_stats,
            l2_stats,
            total_hit_count: l1_stats.hit_count + l2_stats.hit_count,
            total_miss_count: l1_stats.miss_count + l2_stats.miss_count,
        }
    }
}


/// A cached block; the time is the caller's.
#[derive(Debug, PartialEq, Eq)]
pub struct BlockData {
    pub block: Vec<u8>,
    pub timestamp: u64,
}

impl Clone for BlockData {
    fn clone(&self) -> (c: Self)
        ensures
            c.block@ == self.block@,
            c.timestamp == self.timestamp,
    {
        let b = self.block.clone();
        proof {
            assert(b@ =~= self.block@);
        }
        BlockData { block: b, timestamp: self.timestamp }
    }
}

/// A cached transaction; the time is the caller's.
#[derive(Debug, PartialEq, Eq)]
pub struct TransactionData {
    pub transaction: Vec<u8>,
    pub timestamp: u64,
}

impl Clone for TransactionData {
    fn clone(&self) -> (c: Self)
        ensures
            c.transaction@ == self.transaction@,
            c.timestamp == self.timestamp,
    {
        let t = self.transaction.clone();
        proof {
            assert(t@ =~= self.transaction@);
        }
        TransactionData { transaction: t, timestamp: self.timestamp }
    }
}

/// A cached validator with its stake.
#[derive(Debug, PartialEq, Eq)]
pub struct ValidatorData {
    pub validator: Vec<u8>,
    pub stake: u64,
}

impl Clone for ValidatorData {
    fn clone(&self) -> (c: Self)
        ensures
            c.validator@ == self.validator@,
            c.stake == self.stake,
    {
        let v = self.validator.clone();
        proof {
            assert(v@ =~= self.validator@);
        }
        ValidatorData { validator: v, stake: self.stake }
    }
}

/// A cached configuration with its version.
#[derive(Debug, PartialEq, Eq)]
pub struct ConfigData {
    pub config: Vec<u8>,
    pub version: u32,
}

impl Clone for ConfigData {
    fn clone(&self) -> (c: Self)
        ensures
            c.config@ == self.config@,
            c.version == self.version,
    {
        let c = self.config.clone();
        proof {
            assert(c@ =~= self.config@);
        }
        ConfigData { config: c, version: self.version }
    }
}

/// Counters of all the manager's caches.
#[derive(Debug, Clone, Copy, PartialEq, Eq, Structural)]
pub struct CacheManagerStats {
    pub block_stats: CacheStats,
    pub transaction_stats: CacheStats,
    pub validator_stats: CacheStats,
    pub config_stats: MultiLevelCacheStats,
}

/// One cache per kind of data: 10000 blocks, 100000 transactions, 1000
/// validators kept five minutes, and configuration in levels of 100 and
/// 1000.
pub struct CacheManager {
    block_cache: HighPerformanceCache<[u8; 32], BlockData>,
    transaction_cache: HighPerformanceCache<[u8; 32], TransactionData>,
    validator_cache: TimeBasedCache<[u8; 32], ValidatorData>,
    config_cache: MultiLevelCache<String, ConfigData>,
}

/// Whether `r` is what a read of `key` at `now_ms` from `o` gives, leaving
/// `n`.
pub open spec fn read_of<K: CacheKey, V: Clone>(
    o: HighPerformanceCache<K, V>,
    n: HighPerformanceCache<K, V>,
    key: K::V,
    now_ms: u64,
    r: Option<V>,
) -> bool {
    match entry_keys(o.entries()).index_of_first(key) {
        Some(i) => (r matches Some(v) && cloned(o.entries()[i].value, v)) && read_hit(o, n, i, key, now_ms),
        None => r is None && read_miss(o, n),
    }
}

impl CacheManager {
    /// The block cache.
    pub closed spec fn blocks(&self) -> HighPerformanceCache<[u8; 32], BlockData> {
        self.block_cache
    }

    /// The transaction cache.
    pub closed spec fn transactions(&self) -> HighPerformanceCache<[u8; 32], TransactionData> {
        self.transaction_cache
    }

    /// The validator cache.
    pub closed spec fn validators(&self) -> TimeBasedCache<[u8; 32], ValidatorData> {
        self.validator_cache
    }

    /// The configuration cache.
    pub closed spec fn configs(&self) -> MultiLevelCache<String, ConfigData> {
        self.config_cache
    }

    /// Every cache is well formed.
    pub open spec fn wf(&self) -> bool {
        &&& self.blocks().wf()
        &&& self.transactions().wf()
        &&& self.validators().wf()
        &&& self.configs().wf()
    }

    /// Empty caches of the standard sizes.
    pub fn new() -> (m: Self)
        ensures
            m.wf(),
            m.blocks().entries().len() == 0 && m.blocks().capacity() == 10000,
            m.transactions().entries().len() == 0 && m.transactions().capacity() == 100000,
            m.validators().inner().entries().len() == 0 && m.validators().inner().capacity() == 1000,
            m.validators().ttl() == 300_000,
            m.configs().l1().capacity() == 100 && m.configs().l2().capacity() == 1000,
            m.configs().l1().entries().len() == 0 && m.configs().l2().entries().len() == 0,
    {
        CacheManager {
            block_cache: HighPerformanceCache::new(10000),
            transaction_cache: HighPerformanceCache::new(100000),
            validator_cache: TimeBasedCache::new(1000, 300_000),
            config_cache: MultiLevelCache::new(100, 1000),
        }
    }

    /// The block under `hash`, read at `now_ms`.
    pub fn get_block(&mut self, hash: &[u8; 32], now_ms: u64) -> (r: Option<BlockData>)
        requires
            old(self).wf(),
            room_to_read(old(self).blocks(), hash@),
        ensures
            final(self).wf(),
            read_of(old(self).blocks(), final(self).blocks(), hash@, now_ms, r),
            final(self).transactions() == old(self).transactions(),
            final(self).validators() == old(self).validators(),
            final(self).configs() == old(self).configs(),
    {
        self.block_cache.get(hash, now_ms)
    }

    /// Caches `block` under `hash` at `now_ms`.
    pub fn cache_block(&mut self, hash: [u8; 32], block: BlockData, now_ms: u64)
        requires
            old(self).wf(),
        ensures
            final(self).wf(),
            inserted(old(self).blocks(), final(self).blocks(), CacheEntry { key: hash, value: block, last_access: now_ms, access_count: 1 }),
            final(self).transactions() == old(self).transactions(),
            final(self).validators() == old(self).validators(),
            final(self).configs() == old(self).configs(),
    {
        self.block_cache.insert(hash, block, now_ms);
    }

    /// The transaction under `hash`, read at `now_ms`.
    pub fn get_transaction(&mut self, hash: &[u8; 32], now_ms: u64) -> (r: Option<TransactionData>)
        requires
            old(self).wf(),
            room_to_read(old(self).transactions(), hash@),
        ensures
            final(self).wf(),
            read_of(old(self).transactions(), final(self).transactions(), hash@, now_ms, r),
            final(self).blocks() == old(self).blocks(),
            final(self).validators() == old(self).validators(),
            final(self).configs() == old(self).configs(),
    {
        self.transaction_cache.get(hash, now_ms)
    }

    /// Caches `transaction` under `hash` at `now_ms`.
    pub fn cache_transaction(&mut self, hash: [u8; 32], transaction: TransactionData, now_ms: u64)
        requires
            old(self).wf(),
        ensures
            final(self).wf(),
            inserted(old(self).transactions(), final(self).transactions(),
                CacheEntry { key: hash, value: transaction, last_access: now_ms, access_count: 1 }),
            final(self).blocks() == old(self).blocks(),
            final(self).validators() == old(self).validators(),
            final(self).configs() == old(self).configs(),
    {
        self.transaction_cache.insert(hash, transaction, now_ms);
    }

    /// The validator under `id`, if it has not expired at `now_ms`.
    pub fn get_validator(&mut self, id: &[u8; 32], now_ms: u64) -> (r: Option<ValidatorData>)
        requires
            old(self).wf(),
            room_to_read(old(self).validators().inner(), id@),
        ensures
            final(self).wf(),
            final(self).validators().ttl() == old(self).validators().ttl(),
            match value_under(old(self).validators().inner(), id@) {
                Some(cv) => if cv.expires_at > now_ms {
                    r matches Some(v) && cloned(cv.value, v)
                } else {
                    r is None && value_under(final(self).validators().inner(), id@) is None
                },
                None => r is None,
            },
            final(self).blocks() == old(self).blocks(),
            final(self).transactions() == old(self).transactions(),
            final(self).configs() == old(self).configs(),
    {
        let r = self.validator_cache.get(id, now_ms);
        proof {
            let o = old(self).validators().inner();
            entry_keys(o.entries()).index_of_first_ensures(id@);
            match entry_keys(o.entries()).index_of_first(id@) {
                Some(i) => {
                    if o.entries()[i].value.expires_at <= now_ms {
                        let n = self.validator_cache.inner();
                        let ks = entry_keys(o.entries());
                        let nks = entry_keys(n.entries());
                        assert(nks =~= ks.remove(i));
                        nks.index_of_first_ensures(id@);
                        if nks.contains(id@) {
                            let j = choose|j: int| 0 <= j < nks.len() && nks[j] == id@;
                            let j2 = if j < i { j } else { j + 1 };
                            assert(nks[j] == ks[j2]);
                        }
                    }
                },
                None => {},
            }
        }
        r
    }

    /// Caches `validator` under `id` at `now_ms` for five minutes.
    pub fn cache_validator(&mut self, id: [u8; 32], validator: ValidatorData, now_ms: u64)
        requires
            old(self).wf(),
            now_ms + old(self).validators().ttl() <= u64::MAX,
        ensures
            final(self).wf(),
            final(self).validators().ttl() == old(self).validators().ttl(),
            inserted(old(self).validators().inner(), final(self).validators().inner(), CacheEntry {
                key: id,
                value: CacheValue { value: validator, expires_at: (now_ms + old(self).validators().ttl()) as u64 },
                last_access: now_ms,
                access_count: 1,
            }),
            final(self).blocks() == old(self).blocks(),
            final(self).transactions() == old(self).transactions(),
            final(self).configs() == old(self).configs(),
    {
        self.validator_cache.insert(id, validator, now_ms);
    }

    /// The configuration under `key`, read at `now_ms`.
    pub fn get_config(&mut self, key: &str, now_ms: u64) -> (r: Option<ConfigData>)
        requires
            old(self).wf(),
            room_to_read(old(self).configs().l1(), key@),
            room_to_read(old(self).configs().l2(), key@),
        ensures
            final(self).wf(),
            r is Some <==> (value_under(old(self).configs().l1(), key@) is Some
                || value_under(old(self).configs().l2(), key@) is Some),
            match value_under(old(self).configs().l1(), key@) {
                Some(a) => r matches Some(v) && cloned(a, v),
                None => match value_under(old(self).configs().l2(), key@) {
                    Some(b) => r matches Some(v) && cloned(b, v),
                    None => true,
                },
            },
            final(self).blocks() == old(self).blocks(),
            final(self).transactions() == old(self).transactions(),
            final(self).validators() == old(self).validators(),
    {
        let k = owned(key);
        self.config_cache.get(&k, now_ms)
    }

    /// Caches `config` under `key` at `now_ms` in both levels.
    pub fn cache_config(&mut self, key: String, config: ConfigData, now_ms: u64)
        requires
            old(self).wf(),
        ensures
            final(self).wf(),
            inserted(old(self).configs().l2(), final(self).configs().l2(),
                CacheEntry { key: key, value: config, last_access: now_ms, access_count: 1 }),
            exists|e: CacheEntry<String, ConfigData>| #![auto]
                e.key@ == key@ && cloned(config, e.value) && e.last_access == now_ms && e.access_count == 1
                && inserted(old(self).configs().l1(), final(self).configs().l1(), e),
            final(self).blocks() == old(self).blocks(),
            final(self).transactions() == old(self).transactions(),
            final(self).validators() == old(self).validators(),
    {
        let ghost o = self.config_cache;
        let ghost kv = key@;
        self.config_cache.insert(key, config, now_ms);
        proof {
            let e = choose|e: CacheEntry<String, ConfigData>| #![auto]
                e.key@ == kv && cloned(config, e.value) && e.last_access == now_ms && e.access_count == 1
                && inserted(o.l1(), self.config_cache.l1(), e);
            assert(inserted(old(self).configs().l1(), self.configs().l1(), e));
        }
    }

    /// The counters of every cache.
    pub fn get_stats(&self) -> (s: CacheManagerStats)
        requires
            self.blocks().hits() + self.blocks().misses() <= u64::MAX,
            self.transactions().hits() + self.transactions().misses() <= u64::MAX,
            self.validators().inner().hits() + self.validators().inner().misses() <= u64::MAX,
            self.configs().l1().hits() + self.configs().l1().misses() <= u64::MAX,
            self.configs().l2().hits() + self.configs().l2().misses() <= u64::MAX,
            self.configs().l1().hits() + self.configs().l2().hits() <= u64::MAX,
            self.configs().l1().misses() + self.configs().l2().misses() <= u64::MAX,
        ensures
            s.block_stats.size == self.blocks().entries().len(),
            s.block_stats.hit_count == self.blocks().hits(),
            s.block_stats.miss_count == self.blocks().misses(),
            s.transaction_stats.size == self.transactions().entries().len(),
            s.transaction_stats.hit_count == self.transactions().hits(),
            s.transaction_stats.miss_count == self.transactions().misses(),
            s.validator_stats.size == self.validators().inner().entries().len(),
            s.validator_stats.hit_count == self.validators().inner().hits(),
            s.validator_stats.miss_count == self.validators().inner().misses(),
            s.config_stats.total_hit_count == self.configs().l1().hits() + self.configs().l2().hits(),
            s.config_stats.total_miss_count == self.configs().l1().misses() + self.configs().l2().misses(),
    {
        CacheManagerStats {
            block_stats: self.block_cache.get_stats(),
            transaction_stats: self.transaction_cache.get_stats(),
            validator_stats: self.validator_cache.get_stats(),
            config_stats: self.config_cache.get_stats(),
        }
    }

    /// Drops the validators expired at `now_ms`.
    pub fn cleanup(&mut self, now_ms: u64)
        requires
            old(self).wf(),
        ensures
            final(self).wf(),
            final(self).validators().inner().entries()
                == drop_entries(old(self).validators().inner().entries(), expired_keys(old(self).validators().inner().entries(), now_ms)),
            final(self).validators().ttl() == old(self).validators().ttl(),
            final(self).blocks() == old(self).blocks(),
            final(self).transactions() == old(self).transactions(),
            final(self).configs() == old(self).configs(),
    {
        self.validator_cache.cleanup_expired(now_ms);
    }
}

} // verus!
