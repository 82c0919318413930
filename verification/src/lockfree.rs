//! Bounded ring buffer, chained hash map and stack for message passing and
//! lookups. Each structure is owned by one holder at a time; mutation goes
//! through `&mut self`.

use vstd::prelude::*;
use vstd::arithmetic::power2::{pow2, lemma_pow2_unfold};

verus! {

/// `n` is a power of two.
pub open spec fn is_pow2(n: nat) -> bool {
    exists|k: nat| pow2(k) == n
}

/// The smallest power of two that is at least `n` (1 for 0).
pub fn next_power_of_two(n: usize) -> (p: usize)
    requires
        n <= usize::MAX / 2 + 1,
    ensures
        is_pow2(p as nat),
        p >= n,
        p >= 1,
        p == 1 || p / 2 < n,
{
    let mut p: usize = 1;
    let ghost mut k: nat = 0;
    proof {
        assert(pow2(0) == 1) by {
            vstd::arithmetic::power2::lemma2_to64();
        }
    }
    while p < n
        invariant
            n <= usize::MAX / 2 + 1,
            p >= 1,
            p == pow2(k),
            p == 1 || p / 2 < n,
        decreases usize::MAX - p,
    {
        p = p * 2;
        proof {
            k = k + 1;
            lemma_pow2_unfold(k);
        }
    }
    p
}

// ---------------------------------------------------------------------------
// Ring buffer

/// A bounded FIFO buffer over a power-of-two number of slots, one of which
/// always stays free.
pub struct LockFreeRingBuffer<T> {
    slots: Vec<Option<T>>,
    capacity: usize,
    head: usize,
    tail: usize,
}

/// `x` folded back into `0..cap` when it is at most one lap past it.
pub open spec fn wrap(x: int, cap: int) -> int {
    if x < cap { x } else { x - cap }
}

impl<T> LockFreeRingBuffer<T> {
    /// Number of slots.
    pub closed spec fn cap(&self) -> nat {
        self.capacity as nat
    }

    /// Number of items held.
    pub closed spec fn count(&self) -> nat {
        if self.tail >= self.head {
            (self.tail - self.head) as nat
        } else {
            (self.tail + self.capacity - self.head) as nat
        }
    }

    /// The items, oldest first.
    pub closed spec fn items(&self) -> Seq<T> {
        Seq::new(self.count(), |i: int| self.slots@[wrap(self.head + i, self.capacity as int)]->0)
    }

    /// Slot layout is consistent.
    pub closed spec fn wf(&self) -> bool {
        &&& self.slots@.len() == self.capacity
        &&& self.capacity >= 1
        &&& is_pow2(self.capacity as nat)
        &&& self.head < self.capacity
        &&& self.tail < self.capacity
        &&& forall|i: int| 0 <= i < self.count() ==> #[trigger] self.slots@[wrap(self.head + i, self.capacity as int)] is Some
    }

    /// A buffer always keeps a slot free: it holds fewer items than slots.
    pub proof fn lemma_fewer_items_than_slots(&self)
        requires
            self.wf(),
        ensures
            self.items().len() < self.cap(),
            self.cap() >= 1,
    {
    }

    /// An empty buffer with `capacity` rounded up to a power of two.
    pub fn new(capacity: usize) -> (r: Self)
        requires
            capacity <= usize::MAX / 2 + 1,
        ensures
            r.wf(),
            r.items().len() == 0,
            r.cap() >= capacity,
            is_pow2(r.cap()),
            r.cap() == 1 || r.cap() / 2 < capacity,
    {
        let actual = next_power_of_two(capacity);
        let mut slots: Vec<Option<T>> = Vec::new();
        let mut i: usize = 0;
        while i < actual
            invariant
                i <= actual,
                slots@.len() == i,
            decreases actual - i,
        {
            slots.push(None);
            i = i + 1;
        }
        LockFreeRingBuffer { slots, capacity: actual, head: 0, tail: 0 }
    }

    /// Appends `item` unless only the reserved slot is left, in which case
    /// the item is handed back.
    pub fn try_push(&mut self, item: T) -> (r: Result<(), T>)
        requires
            old(self).wf(),
        ensures
            final(self).wf(),
            final(self).cap() == old(self).cap(),
            old(self).items().len() + 1 < old(self).cap() ==> r is Ok,
            r is Err <==> old(self).items().len() + 1 == old(self).cap(),
            final(self).items().len() < final(self).cap(),
            match r {
                Ok(()) => final(self).items() == old(self).items().push(item),
                Err(back) => back == item && final(self).items() == old(self).items()
                    && old(self).items().len() + 1 == old(self).cap(),
            },
    {
        let next_tail = if self.tail + 1 == self.capacity { 0 } else { self.tail + 1 };
        if next_tail == self.head {
            return Err(item);
        }
        let ghost before = *self;
        self.slots.set(self.tail, Some(item));
        self.tail = next_tail;
        proof {
            let cap = self.capacity as int;
            assert(self.count() == before.count() + 1);
            assert(wrap(self.head + before.count(), cap) == before.tail);
            assert forall|i: int| 0 <= i < self.count() implies #[trigger] self.slots@[wrap(self.head + i, cap)] is Some by {
                if i < before.count() {
                    assert(wrap(self.head + i, cap) != before.tail);
                    assert(self.slots@[wrap(self.head + i, cap)] == before.slots@[wrap(before.head + i, cap)]);
                }
            }
            assert forall|i: int| 0 <= i < self.count() implies #[trigger] self.items()[i] == before.items().push(item)[i] by {
                if i < before.count() {
                    assert(wrap(self.head + i, cap) != before.tail);
                }
            }
            assert(self.items() =~= before.items().push(item));
        }
        Ok(())
    }

    /// Takes the oldest item, if any.
    pub fn try_pop(&mut self) -> (r: Option<T>)
        requires
            old(self).wf(),
        ensures
            final(self).wf(),
            final(self).cap() == old(self).cap(),
            final(self).items().len() < final(self).cap(),
            match r {
                Some(x) => old(self).items().len() > 0 && x == old(self).items()[0]
                    && final(self).items() == old(self).items().drop_first(),
                None => old(self).items().len() == 0 && final(self).items() == old(self).items(),
            },
    {
        if self.head == self.tail {
            return None;
        }
        let ghost before = *self;
        let mut taken: Option<T> = None;
        let h = self.head;
        std::mem::swap(&mut taken, &mut self.slots[h]);
        self.head = if self.head + 1 == self.capacity { 0 } else { self.head + 1 };
        proof {
            let cap = self.capacity as int;
            assert(before.slots@[wrap(before.head + 0, cap)] is Some);
            assert(self.count() + 1 == before.count());
            assert forall|i: int| 0 <= i < self.count() implies #[trigger] wrap(self.head + i, cap) == wrap(before.head + (i + 1), cap) by {}
            assert forall|i: int| 0 <= i < self.count() implies #[trigger] self.slots@[wrap(self.head + i, cap)] is Some by {
                assert(wrap(self.head + i, cap) == wrap(before.head + (i + 1), cap));
                assert(before.slots@[wrap(before.head + (i + 1), cap)] is Some);
            }
            assert forall|i: int| 0 <= i < self.count() implies #[trigger] self.items()[i] == before.items().drop_first()[i] by {
                assert(wrap(self.head + i, cap) == wrap(before.head + (i + 1), cap));
            }
            assert(self.items() =~= before.items().drop_first());
        }
        match taken {
            Some(x) => Some(x),
            None => None,
        }
    }

    /// Number of items held.
    pub fn len(&self) -> (n: usize)
        requires
            self.wf(),
        ensures
            n == self.items().len(),
    {
        if self.tail >= self.head {
            self.tail - self.head
        } else {
            self.tail + (self.capacity - self.head)
        }
    }

    /// Whether no item is held.
    pub fn is_empty(&self) -> (b: bool)
        requires
            self.wf(),
        ensures
            b == (self.items().len() == 0),
    {
        self.len() == 0
    }

    /// Whether only the reserved slot is free.
    pub fn is_full(&self) -> (b: bool)
        requires
            self.wf(),
        ensures
            b == (self.items().len() + 1 == self.cap()),
    {
        self.len() == self.capacity - 1
    }
}

// ---------------------------------------------------------------------------
// Hash map

/// 64-bit FNV-1a hash of `bytes`.
pub open spec fn fnv_hash(bytes: Seq<u8>) -> u64
    decreases bytes.len(),
{
    if bytes.len() == 0 {
        0xcbf29ce484222325u64
    } else {
        vstd::wrapping::u64_specs::wrapping_mul(
            fnv_hash(bytes.drop_last()) ^ (bytes.last() as u64),
            0x100000001b3u64,
        )
    }
}

/// The bucket of `key` among `capacity` buckets: the FNV-1a hash of its
/// UTF-8 bytes, modulo the bucket count.
pub open spec fn bucket_index(key: Seq<char>, capacity: nat) -> int {
    (fnv_hash(vstd::utf8::encode_utf8(key)) as nat % capacity) as int
}

/// The keys of a bucket.
pub open spec fn pair_keys<V>(b: Seq<(String, V)>) -> Seq<Seq<char>> {
    b.map_values(|e: (String, V)| e.0@)
}

/// The value filed under `k` in a bucket.
pub open spec fn lookup<V>(b: Seq<(String, V)>, k: Seq<char>) -> Option<V> {
    match pair_keys(b).index_of_first(k) {
        Some(i) => Some(b[i].1),
        None => None,
    }
}

/// Replacing the value at `i` changes only the value under that key.
pub proof fn lemma_lookup_update<V>(b: Seq<(String, V)>, i: int, v: V)
    requires
        0 <= i < b.len(),
        pair_keys(b).no_duplicates(),
    ensures
        lookup(b.update(i, (b[i].0, v)), b[i].0@) == Some(v),
        forall|k: Seq<char>| k != b[i].0@ ==> #[trigger] lookup(b.update(i, (b[i].0, v)), k) == lookup(b, k),
        pair_keys(b.update(i, (b[i].0, v))) == pair_keys(b),
{
    let nb = b.update(i, (b[i].0, v));
    assert(pair_keys(nb) =~= pair_keys(b));
    let ks = pair_keys(b);
    ks.index_of_first_ensures(b[i].0@);
    assert(ks[i] == b[i].0@);
    let f = ks.index_of_first(b[i].0@)->0;
    assert(ks[f] == ks[i]);
    assert forall|k: Seq<char>| k != b[i].0@ implies #[trigger] lookup(nb, k) == lookup(b, k) by {
        ks.index_of_first_ensures(k);
        if let Some(j) = ks.index_of_first(k) {
            assert(j != i);
        }
    }
}

/// Appending a new key files its value and leaves the others alone.
pub proof fn lemma_lookup_push<V>(b: Seq<(String, V)>, key: String, v: V)
    requires
        !pair_keys(b).contains(key@),
    ensures
        lookup(b.push((key, v)), key@) == Some(v),
        forall|k: Seq<char>| k != key@ ==> #[trigger] lookup(b.push((key, v)), k) == lookup(b, k),
        pair_keys(b.push((key, v))) == pair_keys(b).push(key@),
{
    let nb = b.push((key, v));
    let ks = pair_keys(b);
    let nks = pair_keys(nb);
    assert(nks =~= ks.push(key@));
    nks.index_of_first_ensures(key@);
    ks.index_of_first_ensures(key@);
    assert(nks[ks.len() as int] == key@);
    let f = nks.index_of_first(key@)->0;
    if f < ks.len() {
        assert(ks[f] == key@);
    }
    assert forall|k: Seq<char>| k != key@ implies #[trigger] lookup(nb, k) == lookup(b, k) by {
        nks.index_of_first_ensures(k);
        ks.index_of_first_ensures(k);
        match ks.index_of_first(k) {
            Some(j) => {
                assert(nks[j] == k);
                let g = nks.index_of_first(k)->0;
                if g < j {
                    assert(ks[g] == nks[g]);
                }
                assert(g == j);
            },
            None => {
                if nks.contains(k) {
                    let g = nks.index_of_first(k)->0;
                    assert(g < ks.len());
                    assert(ks[g] == k);
                }
            },
        }
    }
}

/// Removing the pair at `i` drops its key and leaves the others alone.
pub proof fn lemma_lookup_remove<V>(b: Seq<(String, V)>, i: int)
    requires
        0 <= i < b.len(),
        pair_keys(b).no_duplicates(),
    ensures
        lookup(b.remove(i), b[i].0@) is None,
        forall|k: Seq<char>| k != b[i].0@ ==> #[trigger] lookup(b.remove(i), k) == lookup(b, k),
        pair_keys(b.remove(i)) == pair_keys(b).remove(i),
        pair_keys(b.remove(i)).no_duplicates(),
{
    let nb = b.remove(i);
    let ks = pair_keys(b);
    let nks = pair_keys(nb);
    assert(nks =~= ks.remove(i));
    assert forall|x: int, y: int| 0 <= x < nks.len() && 0 <= y < nks.len() && x != y implies nks[x] != nks[y] by {
        let x2 = if x < i { x } else { x + 1 };
        let y2 = if y < i { y } else { y + 1 };
        assert(nks[x] == ks[x2]);
        assert(nks[y] == ks[y2]);
    }
    nks.index_of_first_ensures(b[i].0@);
    if nks.contains(b[i].0@) {
        let g = nks.index_of_first(b[i].0@)->0;
        let g2 = if g < i { g } else { g + 1 };
        assert(nks[g] == ks[g2]);
        assert(ks[i] == b[i].0@);
    }
    assert forall|k: Seq<char>| k != b[i].0@ implies #[trigger] lookup(nb, k) == lookup(b, k) by {
        nks.index_of_first_ensures(k);
        ks.index_of_first_ensures(k);
        match ks.index_of_first(k) {
            Some(j) => {
                assert(ks[i] == b[i].0@);
                assert(j != i);
                let j2 = if j < i { j } else { j - 1 };
                assert(nks[j2] == k);
                let g = nks.index_of_first(k)->0;
                let g2 = if g < i { g } else { g + 1 };
                assert(nks[g] == ks[g2]);
                assert(g2 == j);
                assert(nb[g] == b[g2]);
            },
            None => {
                if nks.contains(k) {
                    let g = nks.index_of_first(k)->0;
                    let g2 = if g < i { g } else { g + 1 };
                    assert(nks[g] == ks[g2]);
                }
            },
        }
    }
}

/// Position of the pair keyed `key` in a bucket.
fn find_pair<V>(b: &Vec<(String, V)>, key: &String) -> (r: Option<usize>)
    ensures
        match r {
            Some(i) => i < b@.len() && pair_keys(b@).index_of_first(key@) == Some(i as int),
            None => pair_keys(b@).index_of_first(key@) is None && !pair_keys(b@).contains(key@),
        },
{
    let mut i: usize = 0;
    while i < b.len()
        invariant
            i <= b@.len(),
            forall|j: int| 0 <= j < i ==> b@[j].0@ != key@,
        decreases b@.len() - i,
    {
        if b[i].0 == *key {
            proof {
                let ks = pair_keys(b@);
                ks.index_of_first_ensures(key@);
                assert(ks[i as int] == key@);
                let f = ks.index_of_first(key@)->0;
                if f < i {
                    assert(ks[f] == b@[f].0@);
                }
            }
            return Some(i);
        }
        i = i + 1;
    }
    proof {
        let ks = pair_keys(b@);
        ks.index_of_first_ensures(key@);
        if ks.contains(key@) {
            let j = choose|j: int| 0 <= j < ks.len() && ks[j] == key@;
            assert(b@[j].0@ == key@);
        }
    }
    None
}

/// A map from strings to values, chained in a fixed number of buckets.
pub struct LockFreeHashMap<V> {
    buckets: Vec<Vec<(String, V)>>,
    size: usize,
    capacity: usize,
}

impl<V> LockFreeHashMap<V> {
    /// The number of buckets.
    pub closed spec fn bucket_count(&self) -> nat {
        self.capacity as nat
    }

    /// The map held.
    pub closed spec fn map(&self) -> Map<Seq<char>, V> {
        if self.capacity == 0 {
            Map::empty()
        } else {
            Map::new(
                |k: Seq<char>| lookup(self.buckets@[bucket_index(k, self.capacity as nat)]@, k) is Some,
                |k: Seq<char>| lookup(self.buckets@[bucket_index(k, self.capacity as nat)]@, k)->0,
            )
        }
    }

    /// Every pair sits in its key's bucket, keys are distinct within a
    /// bucket, and the count is the number of keys.
    pub closed spec fn wf(&self) -> bool {
        &&& self.buckets@.len() == self.capacity
        &&& forall|b: int, i: int| 0 <= b < self.capacity && 0 <= i < self.buckets@[b]@.len()
            ==> bucket_index(#[trigger] self.buckets@[b]@[i].0@, self.capacity as nat) == b
        &&& forall|b: int| 0 <= b < self.capacity ==> pair_keys(#[trigger] self.buckets@[b]@).no_duplicates()
        &&& self.map().dom().finite()
        &&& self.size == self.map().dom().len()
    }

    /// An empty map with `capacity` buckets.
    pub fn new(capacity: usize) -> (m: Self)
        ensures
            m.wf(),
            m.map() == Map::<Seq<char>, V>::empty(),
            m.bucket_count() == capacity,
    {
        let mut buckets: Vec<Vec<(String, V)>> = Vec::new();
        let mut i: usize = 0;
        while i < capacity
            invariant
                i <= capacity,
                buckets@.len() == i,
                forall|b: int| 0 <= b < i ==> (#[trigger] buckets@[b])@.len() == 0,
            decreases capacity - i,
        {
            buckets.push(Vec::new());
            i = i + 1;
        }
        let m = LockFreeHashMap { buckets, size: 0, capacity };
        proof {
            if capacity > 0 {
                assert forall|k: Seq<char>| !(#[trigger] m.map().dom().contains(k)) by {
                    let b = bucket_index(k, capacity as nat);
                    assert(m.buckets@[b]@.len() == 0);
                    assert(pair_keys(m.buckets@[b]@).len() == 0);
                    pair_keys(m.buckets@[b]@).index_of_first_ensures(k);
                }
            }
            assert(m.map() =~= Map::<Seq<char>, V>::empty());
            assert forall|b: int| 0 <= b < capacity implies pair_keys(#[trigger] m.buckets@[b]@).no_duplicates() by {
                assert(pair_keys(m.buckets@[b]@).len() == 0);
            }
        }
        m
    }

    /// The bucket of `key`.
    fn bucket_of(&self, key: &String) -> (b: usize)
        requires
            self.capacity > 0,
        ensures
            b == bucket_index(key@, self.capacity as nat),
            b < self.capacity,
    {
        let bytes = key.as_str().as_bytes();
        let mut h: u64 = 0xcbf29ce484222325u64;
        let mut i: usize = 0;
        proof {
            assert(bytes@.take(0) =~= Seq::<u8>::empty());
        }
        while i < bytes.len()
            invariant
                i <= bytes@.len(),
                h == fnv_hash(bytes@.take(i as int)),
            decreases bytes@.len() - i,
        {
            h = (h ^ (bytes[i] as u64)).wrapping_mul(0x100000001b3u64);
            proof {
                assert(bytes@.take(i + 1).drop_last() =~= bytes@.take(i as int));
            }
            i = i + 1;
        }
        proof {
            assert(bytes@.take(i as int) =~= bytes@);
        }
        (h % (self.capacity as u64)) as usize
    }

    /// Files `value` under `key`; returns the value it replaced, if any.
    pub fn insert(&mut self, key: &str, value: V) -> (r: Option<V>)
        requires
            old(self).wf(),
            old(self).bucket_count() > 0,
            old(self).map().dom().len() < usize::MAX,
        ensures
            final(self).wf(),
            final(self).bucket_count() == old(self).bucket_count(),
            final(self).map() == old(self).map().insert(key@, value),
            r == (if old(self).map().contains_key(key@) { Some(old(self).map()[key@]) } else { None }),
            final(self).map().dom().finite(),
            final(self).map().dom().len() == if old(self).map().contains_key(key@) {
                old(self).map().dom().len()
            } else {
                old(self).map().dom().len() + 1
            },
    {
        let k = key.to_owned();
        let b = self.bucket_of(&k);
        let ghost before = *self;
        let ghost cap = self.capacity as nat;
        let mut bucket: Vec<(String, V)> = Vec::new();
        std::mem::swap(&mut bucket, &mut self.buckets[b]);
        let ghost ob = bucket@;
        let r = match find_pair(&bucket, &k) {
            Some(i) => {
                let (kk, old_v) = bucket.remove(i);
                bucket.insert(i, (kk, value));
                proof {
                    assert(bucket@ =~= ob.update(i as int, (ob[i as int].0, value)));
                    pair_keys(ob).index_of_first_ensures(k@);
                    assert(pair_keys(ob)[i as int] == ob[i as int].0@);
                    lemma_lookup_update(ob, i as int, value);
                }
                Some(old_v)
            },
            None => {
                bucket.push((k, value));
                proof {
                    lemma_lookup_push(ob, k, value);
                    assert(pair_keys(bucket@).no_duplicates()) by {
                        let nks = pair_keys(bucket@);
                        assert forall|x: int, y: int| 0 <= x < nks.len() && 0 <= y < nks.len() && x != y implies nks[x] != nks[y] by {
                            if x < ob.len() && y < ob.len() {
                                assert(nks[x] == pair_keys(ob)[x] && nks[y] == pair_keys(ob)[y]);
                            } else if x < ob.len() {
                                assert(nks[x] == pair_keys(ob)[x]);
                            } else if y < ob.len() {
                                assert(nks[y] == pair_keys(ob)[y]);
                            }
                        }
                    }
                }
                None
            },
        };
        std::mem::swap(&mut bucket, &mut self.buckets[b]);
        proof {
            let nb = self.buckets@[b as int]@;
            assert forall|bb: int| 0 <= bb < cap && bb != b implies self.buckets@[bb] == before.buckets@[bb] by {}
            assert forall|kk: Seq<char>| kk != key@ implies #[trigger] lookup(self.buckets@[bucket_index(kk, cap)]@, kk)
                == lookup(before.buckets@[bucket_index(kk, cap)]@, kk) by {
                if bucket_index(kk, cap) != b {
                    assert(self.buckets@[bucket_index(kk, cap)] == before.buckets@[bucket_index(kk, cap)]);
                }
            }
            assert(self.map() =~= before.map().insert(key@, value));
            assert forall|bb: int, i: int| 0 <= bb < cap && 0 <= i < self.buckets@[bb]@.len()
                implies bucket_index(#[trigger] self.buckets@[bb]@[i].0@, cap) == bb by {
                if bb != b {
                    assert(self.buckets@[bb] == before.buckets@[bb]);
                } else if i < ob.len() {
                    assert(self.buckets@[bb]@[i].0@ == pair_keys(nb)[i]);
                    assert(pair_keys(nb)[i] == pair_keys(ob)[i]);
                    assert(ob[i] == before.buckets@[bb]@[i]);
                }
            }
            assert forall|bb: int| 0 <= bb < cap implies pair_keys(#[trigger] self.buckets@[bb]@).no_duplicates() by {
                if bb != b {
                    assert(self.buckets@[bb] == before.buckets@[bb]);
                }
            }
        }
        match r {
            Some(_) => {
                proof {
                    assert(self.map().dom() =~= before.map().dom());
                }
            },
            None => {
                proof {
                    assert(self.map().dom() =~= before.map().dom().insert(key@));
                }
                self.size = self.size + 1;
            },
        }
        r
    }

    /// A clone of the value filed under `key`, if any.
    pub fn get(&self, key: &str) -> (r: Option<V>)
        where V: Clone,
        requires
            self.wf(),
            self.bucket_count() > 0,
        ensures
            match r {
                Some(v) => self.map().contains_key(key@) && cloned(self.map()[key@], v),
                None => !self.map().contains_key(key@),
            },
    {
        let k = key.to_owned();
        let b = self.bucket_of(&k);
        match find_pair(&self.buckets[b], &k) {
            Some(i) => Some(self.buckets[b][i].1.clone()),
            None => None,
        }
    }

    /// Removes the value filed under `key` and returns it, if any.
    pub fn remove(&mut self, key: &str) -> (r: Option<V>)
        requires
            old(self).wf(),
            old(self).bucket_count() > 0,
        ensures
            final(self).wf(),
            final(self).bucket_count() == old(self).bucket_count(),
            final(self).map() == old(self).map().remove(key@),
            r == (if old(self).map().contains_key(key@) { Some(old(self).map()[key@]) } else { None }),
            final(self).map().dom().finite(),
            final(self).map().dom().len() == if old(self).map().contains_key(key@) {
                (old(self).map().dom().len() - 1) as nat
            } else {
                old(self).map().dom().len()
            },
    {
        let k = key.to_owned();
        let b = self.bucket_of(&k);
        let ghost before = *self;
        let ghost cap = self.capacity as nat;
        match find_pair(&self.buckets[b], &k) {
            None => {
                proof {
                    assert(self.map() =~= before.map().remove(key@));
                }
                None
            },
            Some(i) => {
                let mut bucket: Vec<(String, V)> = Vec::new();
                std::mem::swap(&mut bucket, &mut self.buckets[b]);
                let ghost ob = bucket@;
                let (_kk, v) = bucket.remove(i);
                proof {
                    pair_keys(ob).index_of_first_ensures(k@);
                    assert(pair_keys(ob)[i as int] == ob[i as int].0@);
                    lemma_lookup_remove(ob, i as int);
                }
                std::mem::swap(&mut bucket, &mut self.buckets[b]);
                proof {
                    let nb = self.buckets@[b as int]@;
                    assert(nb =~= ob.remove(i as int));
                    assert forall|kk: Seq<char>| kk != key@ implies #[trigger] lookup(self.buckets@[bucket_index(kk, cap)]@, kk)
                        == lookup(before.buckets@[bucket_index(kk, cap)]@, kk) by {
                        if bucket_index(kk, cap) != b {
                            assert(self.buckets@[bucket_index(kk, cap)] == before.buckets@[bucket_index(kk, cap)]);
                        }
                    }
                    assert(self.map() =~= before.map().remove(key@));
                    assert(self.map().dom() =~= before.map().dom().remove(key@));
                    assert forall|bb: int, j: int| 0 <= bb < cap && 0 <= j < self.buckets@[bb]@.len()
                        implies bucket_index(#[trigger] self.buckets@[bb]@[j].0@, cap) == bb by {
                        if bb != b {
                            assert(self.buckets@[bb] == before.buckets@[bb]);
                        } else {
                            let j2 = if j < i { j } else { j + 1 };
                            assert(nb[j] == ob[j2]);
                        }
                    }
                    assert forall|bb: int| 0 <= bb < cap implies pair_keys(#[trigger] self.buckets@[bb]@).no_duplicates() by {
                        if bb != b {
                            assert(self.buckets@[bb] == before.buckets@[bb]);
                        }
                    }
                }
                self.size = self.size - 1;
                Some(v)
            },
        }
    }

    /// The keys held are finitely many.
    pub proof fn lemma_finite_keys(&self)
        requires
            self.wf(),
        ensures
            self.map().dom().finite(),
    {
    }

    /// Number of keys.
    pub fn len(&self) -> (n: usize)
        requires
            self.wf(),
        ensures
            n == self.map().dom().len(),
            self.map().dom().finite(),
    {
        self.size
    }

    /// Whether no key is filed.
    pub fn is_empty(&self) -> (b: bool)
        requires
            self.wf(),
        ensures
            b == (self.map().dom().len() == 0),
    {
        self.size == 0
    }
}

// ---------------------------------------------------------------------------
// Stack

/// A LIFO stack.
pub struct LockFreeStack<T> {
    items: Vec<T>,
}

impl<T> LockFreeStack<T> {
    /// The items, bottom first.
    pub closed spec fn view_items(&self) -> Seq<T> {
        self.items@
    }

    /// An empty stack.
    pub fn new() -> (s: Self)
        ensures
            s.view_items().len() == 0,
    {
        LockFreeStack { items: Vec::new() }
    }

    /// Puts `item` on top.
    pub fn push(&mut self, item: T)
        ensures
            final(self).view_items() == old(self).view_items().push(item),
    {
        self.items.push(item);
    }

    /// Takes the top item, if any.
    pub fn pop(&mut self) -> (r: Option<T>)
        ensures
            match r {
                Some(x) => old(self).view_items().len() > 0 && x == old(self).view_items().last()
                    && final(self).view_items() == old(self).view_items().drop_last(),
                None => old(self).view_items().len() == 0 && final(self).view_items() == old(self).view_items(),
            },
    {
        self.items.pop()
    }

    /// Whether the stack holds nothing.
    pub fn is_empty(&self) -> (b: bool)
        ensures
            b == (self.view_items().len() == 0),
    {
        self.items.len() == 0
    }
}

impl<T> Default for LockFreeStack<T> {
    fn default() -> (s: Self)
        ensures
            s.view_items().len() == 0,
    {
        Self::new()
    }
}

} // verus!
