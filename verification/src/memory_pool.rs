//! Memory pool for reduced allocations, and a zero-copy byte buffer.
//!
//! A pool owns a fixed number of blocks. Free blocks form a LIFO free list:
//! the most recently returned block is handed out first, and a fresh pool
//! hands out its blocks from the highest index down.

use vstd::prelude::*;
use crate::text::{decimal, u64_to_string, concat, owned};

verus! {

/// A block taken from a `MemoryPool`, together with the value stored in it.
pub struct PooledItem<T> {
    block: usize,
    data: Option<T>,
}

impl<T> PooledItem<T> {
    /// Index of the pool block this item occupies.
    pub closed spec fn block_index(&self) -> usize {
        self.block
    }

    /// The value written into the block, if any.
    pub closed spec fn value(&self) -> Option<T> {
        self.data
    }

    /// Index of the pool block this item occupies.
    pub fn block(&self) -> (b: usize)
        ensures
            b == self.block_index(),
    {
        self.block
    }

    /// The stored value, if one was written.
    pub fn data(&self) -> (r: Option<&T>)
        ensures
            match r {
                Some(v) => self.value() == Some(*v),
                None => self.value() is None,
            },
    {
        match &self.data {
            Some(v) => Some(v),
            None => None,
        }
    }

    /// Stores `value` in the block.
    pub fn set_data(&mut self, value: T)
        ensures
            final(self).value() == Some(value),
            final(self).block_index() == old(self).block_index(),
    {
        self.data = Some(value);
    }

    /// Consumes the item and returns its value. The block is not given back
    /// to the pool: it stays counted as allocated.
    pub fn into_data(self) -> (r: Option<T>)
        ensures
            r == self.value(),
    {
        self.data
    }
}

/// Memory pool with a fixed set of blocks and a LIFO free list.
pub struct MemoryPool<T> {
    free_list: Vec<usize>,
    in_use: Vec<bool>,
    block_size: usize,
    total_blocks: usize,
    allocated_blocks: usize,
    marker: std::marker::PhantomData<T>,
}

/// The sequence `0, 1, ..., n - 1` of block indices.
pub open spec fn index_range(n: nat) -> Seq<usize> {
    Seq::new(n, |i: int| i as usize)
}

impl<T> MemoryPool<T> {
    /// Free blocks, in free-list order: the last element is handed out next.
    pub closed spec fn free_list(&self) -> Seq<usize> {
        self.free_list@
    }

    /// Number of blocks the pool was created with.
    pub closed spec fn total(&self) -> nat {
        self.total_blocks as nat
    }

    /// Number of blocks currently handed out.
    pub closed spec fn allocated(&self) -> nat {
        self.allocated_blocks as nat
    }

    /// Whether block `b` is handed out.
    pub closed spec fn is_allocated(&self, b: usize) -> bool {
        b < self.in_use@.len() && self.in_use@[b as int]
    }

    /// Internal consistency of the pool.
    pub closed spec fn wf(&self) -> bool {
        &&& self.in_use@.len() == self.total_blocks
        &&& self.allocated_blocks + self.free_list@.len() == self.total_blocks
        &&& self.free_list@.no_duplicates()
        &&& forall|i: int|
            0 <= i < self.free_list@.len() ==> #[trigger] self.free_list@[i] < self.total_blocks
                && !self.in_use@[self.free_list@[i] as int]
        &&& forall|b: int|
            0 <= b < self.total_blocks && !#[trigger] self.in_use@[b] ==> self.free_list@.contains(
                b as usize,
            )
    }

    /// Creates a pool of `initial_capacity` free blocks.
    pub fn new(initial_capacity: usize) -> (pool: Self)
        ensures
            pool.wf(),
            pool.total() == initial_capacity,
            pool.allocated() == 0,
            pool.free_list() == index_range(initial_capacity as nat),
    {
        let mut free_list: Vec<usize> = Vec::new();
        let mut in_use: Vec<bool> = Vec::new();
        let mut i: usize = 0;
        while i < initial_capacity
            invariant
                i <= initial_capacity,
                free_list@ == index_range(i as nat),
                in_use@.len() == i,
                forall|b: int| 0 <= b < i ==> !#[trigger] in_use@[b],
            decreases initial_capacity - i,
        {
            free_list.push(i);
            in_use.push(false);
            i = i + 1;
            assert(free_list@ =~= index_range(i as nat));
        }
        let pool = MemoryPool {
            free_list,
            in_use,
            block_size: std::mem::size_of::<T>(),
            total_blocks: initial_capacity,
            allocated_blocks: 0,
            marker: std::marker::PhantomData,
        };
        assert forall|b: int|
            0 <= b < pool.total_blocks && !#[trigger] pool.in_use@[b] implies pool.free_list@.contains(
            b as usize,
        ) by {
            assert(pool.free_list@[b] == b as usize);
        }
        pool
    }

    /// Takes the block at the head of the free list, or `None` when every
    /// block is handed out.
    pub fn allocate(&mut self) -> (r: Option<PooledItem<T>>)
        requires
            old(self).wf(),
        ensures
            final(self).wf(),
            final(self).total() == old(self).total(),
            old(self).free_list().len() == 0 ==> r is None && *final(self) == *old(self),
            old(self).free_list().len() > 0 ==> {
                &&& r matches Some(item)
                &&& item.block_index() == old(self).free_list().last()
                &&& item.value() is None
                &&& final(self).free_list() == old(self).free_list().drop_last()
                &&& final(self).allocated() == old(self).allocated() + 1
                &&& final(self).is_allocated(item.block_index())
                &&& forall|b: usize|
                    b != item.block_index() ==> final(self).is_allocated(b) == old(self).is_allocated(b)
            },
    {
        if self.free_list.len() == 0 {
            return None;
        }
        match self.free_list.pop() {
            None => None,
            Some(b) => {
                proof {
                    assert(old(self).free_list@.last() == b);
                    assert(old(self).free_list@[old(self).free_list@.len() - 1] == b);
                }
                self.in_use.set(b, true);
                self.allocated_blocks = self.allocated_blocks + 1;
                proof {
                    let fl = old(self).free_list@;
                    assert(self.free_list@ == fl.drop_last());
                    assert forall|i: int| 0 <= i < self.free_list@.len() implies #[trigger] self.free_list@[i]
                        < self.total_blocks && !self.in_use@[self.free_list@[i] as int] by {
                        assert(self.free_list@[i] == fl[i]);
                        assert(fl[i] != fl[fl.len() - 1]);
                    }
                    assert forall|x: int|
                        0 <= x < self.total_blocks && !#[trigger] self.in_use@[x] implies self.free_list@.contains(
                        x as usize,
                    ) by {
                        assert(x != b);
                        assert(!old(self).in_use@[x]);
                        let k = choose|k: int| 0 <= k < fl.len() && fl[k] == x as usize;
                        assert(k != fl.len() - 1);
                        assert(self.free_list@[k] == x as usize);
                    }
                }
                Some(PooledItem { block: b, data: None })
            },
        }
    }

    /// Gives a block back: it becomes the head of the free list. Returns
    /// `false`, changing nothing, when the item's block is not handed out by
    /// this pool.
    pub fn deallocate(&mut self, item: PooledItem<T>) -> (released: bool)
        requires
            old(self).wf(),
        ensures
            final(self).wf(),
            final(self).total() == old(self).total(),
            released == old(self).is_allocated(item.block_index()),
            released ==> {
                &&& final(self).free_list() == old(self).free_list().push(item.block_index())
                &&& final(self).allocated() + 1 == old(self).allocated()
                &&& !final(self).is_allocated(item.block_index())
                &&& forall|b: usize|
                    b != item.block_index() ==> final(self).is_allocated(b) == old(self).is_allocated(b)
            },
            !released ==> *final(self) == *old(self),
    {
        let b = item.block;
        if b >= self.in_use.len() || !self.in_use[b] {
            return false;
        }
        proof {
            if self.free_list@.contains(b) {
                let k = choose|k: int| 0 <= k < self.free_list@.len() && self.free_list@[k] == b;
                assert(!self.in_use@[self.free_list@[k] as int]);
            }
            if self.allocated_blocks == 0 {
                // every block is free, so b would be on the free list
                assert(self.free_list@.len() == self.total_blocks);
                lemma_distinct_bounded_is_full(self.free_list@, self.total_blocks as nat, b);
            }
        }
        self.in_use.set(b, false);
        self.free_list.push(b);
        self.allocated_blocks = self.allocated_blocks - 1;
        proof {
            let fl = old(self).free_list@;
            assert(self.free_list@ == fl.push(b));
            assert forall|i: int| 0 <= i < self.free_list@.len() implies #[trigger] self.free_list@[i]
                < self.total_blocks && !self.in_use@[self.free_list@[i] as int] by {
                if i < fl.len() {
                    assert(self.free_list@[i] == fl[i]);
                }
            }
            assert forall|x: int|
                0 <= x < self.total_blocks && !#[trigger] self.in_use@[x] implies self.free_list@.contains(
                x as usize,
            ) by {
                if x == b {
                    assert(self.free_list@[fl.len() as int] == b);
                } else {
                    assert(!old(self).in_use@[x]);
                    let k = choose|k: int| 0 <= k < fl.len() && fl[k] == x as usize;
                    assert(self.free_list@[k] == x as usize);
                }
            }
        }
        true
    }

    /// Allocates `count` blocks at once. When fewer than `count` blocks are
    /// free, the blocks taken so far are given back (in the order they were
    /// taken) and an error naming the request is returned.
    pub fn allocate_batch(&mut self, count: usize) -> (r: Result<Vec<PooledItem<T>>, String>)
        requires
            old(self).wf(),
        ensures
            final(self).wf(),
            final(self).total() == old(self).total(),
            count <= old(self).free_list().len() <==> r is Ok,
            r matches Ok(items) ==> {
                &&& items@.len() == count
                &&& final(self).allocated() == old(self).allocated() + count
                &&& final(self).free_list() == old(self).free_list().subrange(
                    0,
                    old(self).free_list().len() - count,
                )
                &&& forall|i: int|
                    0 <= i < count ==> #[trigger] items@[i].block_index() == old(self).free_list()[old(self).free_list().len() - 1 - i] && items@[i].value() is None
                &&& forall|i: int| 0 <= i < count ==> final(self).is_allocated(#[trigger] items@[i].block_index())
                &&& forall|i: int, j: int| 0 <= i < j < count ==> items@[i].block_index() != items@[j].block_index()
            },
            r matches Err(msg) ==> {
                &&& msg@ == batch_error_message(count as nat)
                &&& final(self).allocated() == old(self).allocated()
                &&& final(self).free_list().to_set() == old(self).free_list().to_set()
                &&& forall|b: usize| final(self).is_allocated(b) == old(self).is_allocated(b)
            },
    {
        let mut items: Vec<PooledItem<T>> = Vec::new();
        let mut taken: usize = 0;
        let ghost f0 = self.free_list@;
        while taken < count
            invariant
                self.wf(),
                self.total() == old(self).total(),
                old(self).wf(),
                f0 == old(self).free_list(),
                taken <= count,
                taken <= f0.len(),
                items@.len() == taken,
                self.free_list@ == f0.subrange(0, f0.len() - taken),
                self.allocated() == old(self).allocated() + taken,
                forall|i: int|
                    0 <= i < taken ==> #[trigger] items@[i].block_index() == f0[f0.len() - 1 - i]
                        && items@[i].value() is None,
                forall|b: usize|
                    self.is_allocated(b) <==> (old(self).is_allocated(b) || exists|i: int|
                        0 <= i < taken && #[trigger] items@[i].block_index() == b),
            decreases count - taken,
        {
            let ghost before = *self;
            let ghost before_items = items@;
            match self.allocate() {
                Some(item) => {
                    proof {
                        assert(before.free_list@.last() == f0[f0.len() - 1 - taken]);
                        assert(self.free_list@ =~= f0.subrange(0, f0.len() - (taken + 1)));
                    }
                    let ghost ib = item.block_index();
                    items.push(item);
                    taken = taken + 1;
                    proof {
                        assert(items@[taken - 1].block_index() == ib);
                        assert forall|i: int| 0 <= i < taken - 1 implies items@[i] == before_items[i] by {}
                        assert forall|b: usize|
                            self.is_allocated(b) <==> (old(self).is_allocated(b) || exists|i: int|
                                0 <= i < taken && #[trigger] items@[i].block_index() == b) by {
                            if b == ib {
                                assert(self.is_allocated(b));
                                assert(items@[taken - 1].block_index() == b);
                            } else {
                                assert(self.is_allocated(b) == before.is_allocated(b));
                                if before.is_allocated(b) && !old(self).is_allocated(b) {
                                    let i = choose|i: int| 0 <= i < taken - 1 && #[trigger] before_items[i].block_index() == b;
                                    assert(items@[i].block_index() == b);
                                }
                                if exists|i: int| 0 <= i < taken && #[trigger] items@[i].block_index() == b {
                                    let i = choose|i: int| 0 <= i < taken && #[trigger] items@[i].block_index() == b;
                                    assert(i != taken - 1);
                                    assert(before_items[i].block_index() == b);
                                }
                            }
                        }
                    }
                },
                None => {
                    proof {
                        assert(self.free_list@.len() == 0);
                    }
                    let requested = u64_to_string(count as u64);
                    let available = u64_to_string(self.available_blocks() as u64);
                    self.release_all(items);
                    proof {
                        assert(taken == f0.len());
                        assert forall|b: usize| self.is_allocated(b) == old(self).is_allocated(b) by {
                        }
                        assert forall|x: usize| #[trigger] self.free_list@.to_set().contains(x) == old(self).free_list@.to_set().contains(x) by {
                            if old(self).free_list@.contains(x) {
                                let k = choose|k: int| 0 <= k < f0.len() && f0[k] == x;
                                assert(old(self).free_list@[k] < self.total_blocks);
                                assert(!old(self).in_use@[x as int]);
                                assert(!old(self).is_allocated(x));
                                assert(!self.is_allocated(x));
                                assert(!self.in_use@[x as int]);
                                assert(self.free_list@.contains(x));
                            }
                            if self.free_list@.contains(x) {
                                let k = choose|k: int| 0 <= k < self.free_list@.len() && self.free_list@[k] == x;
                                assert(!self.in_use@[x as int]);
                                assert(!self.is_allocated(x));
                                assert(!old(self).is_allocated(x));
                                assert(old(self).free_list@.contains(x));
                            }
                        }
                        assert(self.free_list@.to_set() =~= old(self).free_list@.to_set());
                    }
                    return Err(batch_error(&requested, &available));
                },
            }
        }
        proof {
            assert forall|i: int| 0 <= i < count implies self.is_allocated(#[trigger] items@[i].block_index()) by {
                assert(items@[i].block_index() == items@[i].block_index());
            }
            assert forall|i: int, j: int| 0 <= i < j < count implies items@[i].block_index() != items@[j].block_index() by {
                assert(items@[i].block_index() == f0[f0.len() - 1 - i]);
                assert(items@[j].block_index() == f0[f0.len() - 1 - j]);
            }
        }
        Ok(items)
    }

    /// Gives back every item of `items`, front to back.
    fn release_all(&mut self, items: Vec<PooledItem<T>>)
        requires
            old(self).wf(),
            forall|i: int, j: int|
                0 <= i < j < items@.len() ==> items@[i].block_index() != items@[j].block_index(),
            forall|i: int|
                0 <= i < items@.len() ==> old(self).is_allocated(#[trigger] items@[i].block_index()),
        ensures
            final(self).wf(),
            final(self).total() == old(self).total(),
            final(self).allocated() + items@.len() == old(self).allocated(),
            forall|b: usize|
                final(self).is_allocated(b) == (old(self).is_allocated(b) && !exists|i: int|
                    0 <= i < items@.len() && #[trigger] items@[i].block_index() == b),
    {
        let ghost all = items@;
        let mut rest = items;
        let mut done: usize = 0;
        while rest.len() > 0
            invariant
                self.wf(),
                self.total() == old(self).total(),
                done + rest@.len() == all.len(),
                rest@ == all.subrange(done as int, all.len() as int),
                self.allocated() + done == old(self).allocated(),
                forall|i: int, j: int|
                    0 <= i < j < all.len() ==> all[i].block_index() != all[j].block_index(),
                forall|i: int|
                    0 <= i < all.len() ==> old(self).is_allocated(#[trigger] all[i].block_index()),
                forall|b: usize|
                    self.is_allocated(b) == (old(self).is_allocated(b) && !exists|i: int|
                        0 <= i < done && #[trigger] all[i].block_index() == b),
            decreases rest@.len(),
        {
            let item = rest.remove(0);
            let ghost ib = item.block_index();
            let ghost before = *self;
            proof {
                assert(ib == all[done as int].block_index());
                assert(before.is_allocated(ib)) by {
                    if exists|i: int| 0 <= i < done && #[trigger] all[i].block_index() == ib {
                        let i = choose|i: int| 0 <= i < done && #[trigger] all[i].block_index() == ib;
                        assert(all[i].block_index() != all[done as int].block_index());
                    }
                }
            }
            let released = self.deallocate(item);
            done = done + 1;
            proof {
                assert(rest@ =~= all.subrange(done as int, all.len() as int));
                assert forall|b: usize|
                    self.is_allocated(b) == (old(self).is_allocated(b) && !exists|i: int|
                        0 <= i < done && #[trigger] all[i].block_index() == b) by {
                    if b == ib {
                        assert(all[done - 1].block_index() == b);
                    } else {
                        if exists|i: int| 0 <= i < done && #[trigger] all[i].block_index() == b {
                            let i = choose|i: int| 0 <= i < done && #[trigger] all[i].block_index() == b;
                            assert(i != done - 1);
                        }
                    }
                }
            }
        }
        proof {
            assert(done == all.len());
        }
    }

    /// The free blocks and the blocks handed out make up the pool.
    pub proof fn lemma_counts(&self)
        requires
            self.wf(),
        ensures
            self.free_list().len() + self.allocated() == self.total(),
            self.allocated() <= self.total(),
    {
    }

    /// Number of free blocks.
    pub fn available_blocks(&self) -> (n: usize)
        requires
            self.wf(),
        ensures
            n == self.total() - self.allocated(),
            n == self.free_list().len(),
    {
        self.total_blocks - self.allocated_blocks
    }

    /// Number of blocks handed out.
    pub fn allocated_blocks(&self) -> (n: usize)
        ensures
            n == self.allocated(),
    {
        self.allocated_blocks
    }

    /// Number of blocks the pool owns.
    pub fn total_blocks(&self) -> (n: usize)
        ensures
            n == self.total(),
    {
        self.total_blocks
    }
}

/// Pooled transaction buffer.
pub struct TransactionBlock {
    pub data: Vec<u8>,
    pub timestamp: u64,
    pub signature: Vec<u8>,
}

/// Pooled block buffer.
pub struct BlockBlock {
    pub data: Vec<u8>,
    pub hash: [u8; 32],
    pub timestamp: u64,
}

/// Pooled message buffer.
pub struct MessageBlock {
    pub data: Vec<u8>,
    pub message_type: u8,
    pub timestamp: u64,
}

/// Statistics for one pool.
#[derive(Debug, Clone, Copy)]
pub struct PoolTypeStats {
    pub total: usize,
    pub allocated: usize,
    pub available: usize,
}

/// Statistics of the three pools of a `MemoryPoolManager`.
#[derive(Debug, Clone, Copy)]
pub struct PoolStats {
    pub transaction_pool: PoolTypeStats,
    pub block_pool: PoolTypeStats,
    pub message_pool: PoolTypeStats,
}

/// What the statistics of `pool` are.
pub open spec fn stats_of<T>(s: PoolTypeStats, pool: MemoryPool<T>) -> bool {
    &&& s.total == pool.total()
    &&& s.allocated == pool.allocated()
    &&& s.available == pool.total() - pool.allocated()
}

/// Pools for transactions, blocks and messages.
pub struct MemoryPoolManager {
    transaction_pool: MemoryPool<TransactionBlock>,
    block_pool: MemoryPool<BlockBlock>,
    message_pool: MemoryPool<MessageBlock>,
}

impl MemoryPoolManager {
    pub closed spec fn transactions(&self) -> MemoryPool<TransactionBlock> {
        self.transaction_pool
    }

    pub closed spec fn blocks(&self) -> MemoryPool<BlockBlock> {
        self.block_pool
    }

    pub closed spec fn messages(&self) -> MemoryPool<MessageBlock> {
        self.message_pool
    }

    pub open spec fn wf(&self) -> bool {
        &&& self.transactions().wf()
        &&& self.blocks().wf()
        &&& self.messages().wf()
    }

    /// Creates the three pools with the given numbers of blocks.
    pub fn new(transaction_capacity: usize, block_capacity: usize, message_capacity: usize) -> (m:
        Self)
        ensures
            m.wf(),
            m.transactions().total() == transaction_capacity && m.transactions().allocated() == 0,
            m.blocks().total() == block_capacity && m.blocks().allocated() == 0,
            m.messages().total() == message_capacity && m.messages().allocated() == 0,
    {
        MemoryPoolManager {
            transaction_pool: MemoryPool::new(transaction_capacity),
            block_pool: MemoryPool::new(block_capacity),
            message_pool: MemoryPool::new(message_capacity),
        }
    }

    /// Takes a block from the transaction pool.
    pub fn get_transaction(&mut self) -> (r: Option<PooledItem<TransactionBlock>>)
        requires
            old(self).wf(),
        ensures
            final(self).wf(),
            final(self).blocks() == old(self).blocks(),
            final(self).messages() == old(self).messages(),
            r is Some <==> old(self).transactions().free_list().len() > 0,
            r is Some <==> old(self).transactions().allocated() < old(self).transactions().total(),
            final(self).transactions().allocated() == old(self).transactions().allocated() + (
            if r is Some { 1int } else { 0int }),
            final(self).transactions().total() == old(self).transactions().total(),
    {
        proof { self.transaction_pool.lemma_counts(); }
        self.transaction_pool.allocate()
    }

    /// Takes a block from the block pool.
    pub fn get_block(&mut self) -> (r: Option<PooledItem<BlockBlock>>)
        requires
            old(self).wf(),
        ensures
            final(self).wf(),
            final(self).transactions() == old(self).transactions(),
            final(self).messages() == old(self).messages(),
            r is Some <==> old(self).blocks().free_list().len() > 0,
            r is Some <==> old(self).blocks().allocated() < old(self).blocks().total(),
            final(self).blocks().allocated() == old(self).blocks().allocated() + (if r is Some {
                1int
            } else {
                0int
            }),
            final(self).blocks().total() == old(self).blocks().total(),
    {
        proof { self.block_pool.lemma_counts(); }
        self.block_pool.allocate()
    }

    /// Takes a block from the message pool.
    pub fn get_message(&mut self) -> (r: Option<PooledItem<MessageBlock>>)
        requires
            old(self).wf(),
        ensures
            final(self).wf(),
            final(self).transactions() == old(self).transactions(),
            final(self).blocks() == old(self).blocks(),
            r is Some <==> old(self).messages().free_list().len() > 0,
            r is Some <==> old(self).messages().allocated() < old(self).messages().total(),
            final(self).messages().allocated() == old(self).messages().allocated() + (if r is Some {
                1int
            } else {
                0int
            }),
            final(self).messages().total() == old(self).messages().total(),
    {
        proof { self.message_pool.lemma_counts(); }
        self.message_pool.allocate()
    }

    /// Takes `count` blocks from the transaction pool.
    pub fn get_transactions(&mut self, count: usize) -> (r: Result<
        Vec<PooledItem<TransactionBlock>>,
        String,
    >)
        requires
            old(self).wf(),
        ensures
            final(self).wf(),
            final(self).blocks() == old(self).blocks(),
            final(self).messages() == old(self).messages(),
            r is Ok <==> count <= old(self).transactions().free_list().len(),
            r is Ok <==> count <= old(self).transactions().total() - old(self).transactions().allocated(),
            r matches Ok(items) ==> items@.len() == count && final(self).transactions().allocated()
                == old(self).transactions().allocated() + count,
            r matches Err(msg) ==> msg@ == batch_error_message(count as nat)
                && final(self).transactions().allocated() == old(self).transactions().allocated(),
            final(self).transactions().total() == old(self).transactions().total(),
            r is Err ==> final(self).transactions().free_list().to_set() == old(self).transactions().free_list().to_set()
                && forall|b: usize| #[trigger] final(self).transactions().is_allocated(b) == old(self).transactions().is_allocated(b),
    {
        proof { self.transaction_pool.lemma_counts(); }
        self.transaction_pool.allocate_batch(count)
    }

    /// Takes `count` blocks from the block pool.
    pub fn get_blocks(&mut self, count: usize) -> (r: Result<Vec<PooledItem<BlockBlock>>, String>)
        requires
            old(self).wf(),
        ensures
            final(self).wf(),
            final(self).transactions() == old(self).transactions(),
            final(self).messages() == old(self).messages(),
            r is Ok <==> count <= old(self).blocks().free_list().len(),
            r is Ok <==> count <= old(self).blocks().total() - old(self).blocks().allocated(),
            r matches Ok(items) ==> items@.len() == count && final(self).blocks().allocated() == old(self).blocks().allocated() + count,
            r matches Err(msg) ==> msg@ == batch_error_message(count as nat) && final(self).blocks().allocated() == old(self).blocks().allocated(),
            final(self).blocks().total() == old(self).blocks().total(),
            r is Err ==> final(self).blocks().free_list().to_set() == old(self).blocks().free_list().to_set()
                && forall|b: usize| #[trigger] final(self).blocks().is_allocated(b) == old(self).blocks().is_allocated(b),
    {
        proof { self.block_pool.lemma_counts(); }
        self.block_pool.allocate_batch(count)
    }

    /// Takes `count` blocks from the message pool.
    pub fn get_messages(&mut self, count: usize) -> (r: Result<Vec<PooledItem<MessageBlock>>, String>)
        requires
            old(self).wf(),
        ensures
            final(self).wf(),
            final(self).transactions() == old(self).transactions(),
            final(self).blocks() == old(self).blocks(),
            r is Ok <==> count <= old(self).messages().free_list().len(),
            r is Ok <==> count <= old(self).messages().total() - old(self).messages().allocated(),
            r matches Ok(items) ==> items@.len() == count && final(self).messages().allocated()
                == old(self).messages().allocated() + count,
            r matches Err(msg) ==> msg@ == batch_error_message(count as nat)
                && final(self).messages().allocated() == old(self).messages().allocated(),
            final(self).messages().total() == old(self).messages().total(),
            r is Err ==> final(self).messages().free_list().to_set() == old(self).messages().free_list().to_set()
                && forall|b: usize| #[trigger] final(self).messages().is_allocated(b) == old(self).messages().is_allocated(b),
    {
        proof { self.message_pool.lemma_counts(); }
        self.message_pool.allocate_batch(count)
    }

    /// Gives a transaction block back to its pool.
    pub fn return_transaction(&mut self, item: PooledItem<TransactionBlock>) -> (released: bool)
        requires
            old(self).wf(),
        ensures
            final(self).wf(),
            final(self).blocks() == old(self).blocks(),
            final(self).messages() == old(self).messages(),
            released == old(self).transactions().is_allocated(item.block_index()),
            final(self).transactions().allocated() + (if released { 1int } else { 0int }) == old(self).transactions().allocated(),
            final(self).transactions().total() == old(self).transactions().total(),
    {
        self.transaction_pool.deallocate(item)
    }

    /// Gives a block buffer back to its pool.
    pub fn return_block(&mut self, item: PooledItem<BlockBlock>) -> (released: bool)
        requires
            old(self).wf(),
        ensures
            final(self).wf(),
            final(self).transactions() == old(self).transactions(),
            final(self).messages() == old(self).messages(),
            released == old(self).blocks().is_allocated(item.block_index()),
            final(self).blocks().allocated() + (if released { 1int } else { 0int }) == old(self).blocks().allocated(),
            final(self).blocks().total() == old(self).blocks().total(),
    {
        self.block_pool.deallocate(item)
    }

    /// Gives a message buffer back to its pool.
    pub fn return_message(&mut self, item: PooledItem<MessageBlock>) -> (released: bool)
        requires
            old(self).wf(),
        ensures
            final(self).wf(),
            final(self).transactions() == old(self).transactions(),
            final(self).blocks() == old(self).blocks(),
            released == old(self).messages().is_allocated(item.block_index()),
            final(self).messages().allocated() + (if released { 1int } else { 0int }) == old(self).messages().allocated(),
            final(self).messages().total() == old(self).messages().total(),
    {
        self.message_pool.deallocate(item)
    }

    /// Statistics of the three pools.
    pub fn get_stats(&self) -> (s: PoolStats)
        requires
            self.wf(),
        ensures
            stats_of(s.transaction_pool, self.transactions()),
            stats_of(s.block_pool, self.blocks()),
            stats_of(s.message_pool, self.messages()),
    {
        PoolStats {
            transaction_pool: PoolTypeStats {
                total: self.transaction_pool.total_blocks(),
                allocated: self.transaction_pool.allocated_blocks(),
                available: self.transaction_pool.available_blocks(),
            },
            block_pool: PoolTypeStats {
                total: self.block_pool.total_blocks(),
                allocated: self.block_pool.allocated_blocks(),
                available: self.block_pool.available_blocks(),
            },
            message_pool: PoolTypeStats {
                total: self.message_pool.total_blocks(),
                allocated: self.message_pool.allocated_blocks(),
                available: self.message_pool.available_blocks(),
            },
        }
    }
}

/// Byte buffer with a cursor; writes and reads move the cursor forward.
pub struct ZeroCopyBuffer {
    data: Vec<u8>,
    position: usize,
    capacity: usize,
}

impl ZeroCopyBuffer {
    /// The buffer's bytes (all of its capacity).
    pub closed spec fn bytes(&self) -> Seq<u8> {
        self.data@
    }

    /// The cursor.
    pub closed spec fn pos(&self) -> nat {
        self.position as nat
    }

    /// The fixed capacity.
    pub closed spec fn cap(&self) -> nat {
        self.capacity as nat
    }

    pub closed spec fn wf(&self) -> bool {
        &&& self.data@.len() == self.capacity
        &&& self.position <= self.capacity
    }

    /// The bytes span the whole capacity and the cursor lies within it.
    pub proof fn lemma_shape(&self)
        requires
            self.wf(),
        ensures
            self.bytes().len() == self.cap(),
            self.pos() <= self.cap(),
    {
    }

    /// A zeroed buffer of `capacity` bytes with the cursor at the start.
    pub fn new(capacity: usize) -> (b: Self)
        ensures
            b.wf(),
            b.cap() == capacity,
            b.pos() == 0,
            b.bytes() == Seq::new(capacity as nat, |i: int| 0u8),
    {
        let mut data: Vec<u8> = Vec::new();
        let mut i: usize = 0;
        while i < capacity
            invariant
                i <= capacity,
                data@ == Seq::new(i as nat, |k: int| 0u8),
            decreases capacity - i,
        {
            data.push(0u8);
            i = i + 1;
            assert(data@ =~= Seq::new(i as nat, |k: int| 0u8));
        }
        ZeroCopyBuffer { data, position: 0, capacity }
    }

    /// Copies `data` in at the cursor and moves the cursor past it; fails with
    /// "Buffer overflow" when it does not fit in the remaining capacity.
    pub fn write(&mut self, data: &[u8]) -> (r: Result<(), String>)
        requires
            old(self).wf(),
        ensures
            final(self).wf(),
            final(self).cap() == old(self).cap(),
            r is Err <==> old(self).pos() + data@.len() > old(self).cap(),
            r matches Err(msg) ==> msg@ == "Buffer overflow"@ && *final(self) == *old(self),
            r is Ok ==> final(self).pos() == old(self).pos() + data@.len() && final(self).bytes()
                == old(self).bytes().subrange(0, old(self).pos() as int) + data@ + old(self).bytes().subrange((old(self).pos() + data@.len()) as int, old(self).cap() as int),
            r is Ok ==> final(self).bytes().subrange(0, final(self).pos() as int)
                == old(self).bytes().subrange(0, old(self).pos() as int) + data@,
            final(self).bytes().len() == final(self).cap(),
    {
        if data.len() > self.capacity - self.position {
            return Err(owned("Buffer overflow"));
        }
        let start = self.position;
        let mut i: usize = 0;
        while i < data.len()
            invariant
                self.wf(),
                self.capacity == old(self).capacity,
                self.position == start,
                old(self).wf(),
                start == old(self).position,
                start + data@.len() <= self.capacity,
                i <= data@.len(),
                self.data@ == old(self).data@.subrange(0, start as int) + data@.subrange(0, i as int)
                    + old(self).data@.subrange(start + i, self.capacity as int),
            decreases data@.len() - i,
        {
            self.data.set(start + i, data[i]);
            i = i + 1;
            assert(self.data@ =~= old(self).data@.subrange(0, start as int) + data@.subrange(
                0,
                i as int,
            ) + old(self).data@.subrange(start + i, self.capacity as int));
        }
        assert(data@.subrange(0, i as int) =~= data@);
        self.position = start + data.len();
        assert(self.data@.subrange(0, self.position as int) =~= old(self).data@.subrange(0, start as int) + data@);
        Ok(())
    }

    /// The `len` bytes at the cursor, moving the cursor past them; fails with
    /// "Buffer underflow" when fewer than `len` bytes of capacity remain.
    pub fn read(&mut self, len: usize) -> (r: Result<&[u8], String>)
        requires
            old(self).wf(),
        ensures
            final(self).wf(),
            final(self).cap() == old(self).cap(),
            final(self).bytes() == old(self).bytes(),
            r is Err <==> old(self).pos() + len > old(self).cap(),
            r matches Err(msg) ==> msg@ == "Buffer underflow"@ && final(self).pos() == old(self).pos(),
            r matches Ok(s) ==> final(self).pos() == old(self).pos() + len && s@ == old(self).bytes().subrange(old(self).pos() as int, (old(self).pos() + len) as int),
    {
        if len > self.capacity - self.position {
            return Err(owned("Buffer underflow"));
        }
        let start = self.position;
        self.position = start + len;
        Ok(vstd::slice::slice_subrange(self.data.as_slice(), start, start + len))
    }

    /// The cursor.
    pub fn position(&self) -> (p: usize)
        ensures
            p == self.pos(),
    {
        self.position
    }

    /// Capacity left after the cursor.
    pub fn remaining(&self) -> (n: usize)
        requires
            self.wf(),
        ensures
            n == self.cap() - self.pos(),
    {
        self.capacity - self.position
    }

    /// Moves the cursor back to the start; the bytes stay.
    pub fn reset(&mut self)
        requires
            old(self).wf(),
        ensures
            final(self).wf(),
            final(self).pos() == 0,
            final(self).bytes() == old(self).bytes(),
            final(self).cap() == old(self).cap(),
    {
        self.position = 0;
    }

    /// The bytes before the cursor.
    pub fn as_slice(&self) -> (s: &[u8])
        requires
            self.wf(),
        ensures
            s@ == self.bytes().subrange(0, self.pos() as int),
    {
        vstd::slice::slice_subrange(self.data.as_slice(), 0, self.position)
    }

    /// The bytes before the cursor, to be changed in place.
    pub fn as_mut_slice(&mut self) -> (s: &mut [u8])
        requires
            old(self).wf(),
        ensures
            s@ == old(self).bytes().take(old(self).pos() as int),
            final(self).bytes() == final(s)@ + old(self).bytes().skip(old(self).pos() as int),
            final(self).pos() == old(self).pos(),
            final(self).cap() == old(self).cap(),
            final(self).wf(),
    {
        prefix_mut(&mut self.data, self.position)
    }
}

/// The first `n` bytes of `v` (`&mut v[..n]`), to be changed in place; the
/// slice keeps its length and the rest of `v` is untouched.
#[verifier::external_body]
fn prefix_mut(v: &mut Vec<u8>, n: usize) -> (s: &mut [u8])
    requires
        n <= old(v)@.len(),
    ensures
        s@ == old(v)@.take(n as int),
        final(s)@.len() == n,
        final(v)@ == final(s)@ + old(v)@.skip(n as int),
{
    &mut v[..n]
}

/// If every block below `n` is on a duplicate-free list of length `n` made of
/// indices below `n`, then `b < n` is on the list.
proof fn lemma_distinct_bounded_is_full(s: Seq<usize>, n: nat, b: usize)
    requires
        s.no_duplicates(),
        s.len() == n,
        n <= usize::MAX,
        forall|i: int| 0 <= i < s.len() ==> #[trigger] s[i] < n,
        b < n,
    ensures
        s.contains(b),
{
    let set = s.to_set();
    s.unique_seq_to_set();
    let full = Set::new(|x: usize| x < n);
    assert(set.subset_of(full));
    lemma_usize_range_finite_len(n);
    if !s.contains(b) {
        assert(set.subset_of(full.remove(b)));
        vstd::set_lib::lemma_len_subset(set, full.remove(b));
        assert(full.contains(b));
    } else {
    }
}

/// `{ x: usize | x < n }` is finite with `n` elements.
proof fn lemma_usize_range_finite_len(n: nat)
    requires
        n <= usize::MAX + 1,
    ensures
        Set::new(|x: usize| x < n).finite(),
        Set::new(|x: usize| x < n).len() == n,
    decreases n,
{
    if n == 0 {
        assert(Set::new(|x: usize| x < n) =~= Set::<usize>::empty());
    } else {
        lemma_usize_range_finite_len((n - 1) as nat);
        assert(Set::new(|x: usize| x < n) =~= Set::new(|x: usize| x < (n - 1) as nat).insert(
            (n - 1) as usize,
        ));
    }
}

/// The error text of a batch request of `count` blocks that the pool could
/// not serve (no block is left at that point).
pub open spec fn batch_error_message(count: nat) -> Seq<char> {
    "Not enough free blocks in pool. Requested: "@ + decimal(count) + ", Available: "@ + decimal(0)
}

fn batch_error(requested: &String, available: &String) -> (r: String)
    ensures
        r@ == "Not enough free blocks in pool. Requested: "@ + requested@ + ", Available: "@
            + available@,
{
    let mut r = owned("Not enough free blocks in pool. Requested: ");
    r.append(requested.as_str());
    r.append(", Available: ");
    r.append(available.as_str());
    r
}

} // verus!
