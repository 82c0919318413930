//! The high-throughput processing pipeline: transactions pass through a
//! memory pool and batch processing; blocks are validated with a cache of
//! earlier results; throughput is measured.

use vstd::prelude::*;
use vstd::wrapping::u64_specs::wrapping_add;
use crate::privacy::{sha256, sha256_digest};
use crate::caching::CacheKey;
use crate::memory_pool::{MemoryPool, PooledItem, batch_error_message};
use crate::batch_processor::{BatchProcessor, chunks_of, ran_all, ran_with, vec_seqs, lemma_chunks_of, lemma_flatten_pairwise};
use crate::node_types::BatchProcessorStats;

verus! {

/// Settings of the high-throughput pipeline; `compression_level` runs from
/// 0 to 9.
#[derive(Debug, Clone, Copy)]
pub struct PerformanceConfig {
    pub max_batch_size: usize,
    pub max_concurrent_batches: usize,
    pub transaction_pool_size: usize,
    pub block_pool_size: usize,
    pub enable_lockfree: bool,
    pub enable_zero_copy: bool,
    pub enable_batch_processing: bool,
    pub enable_parallel_validation: bool,
    pub compression_level: u8,
    pub cache_size: usize,
    pub enable_metrics: bool,
}

impl Default for PerformanceConfig {
    /// Batches of 10000, 100 at once, a million pooled transactions, 10000
    /// pooled blocks, every optimisation on, compression level 6, a cache of
    /// a million entries, metrics on.
    fn default() -> (c: Self)
        ensures
            c.max_batch_size == 10000,
            c.max_concurrent_batches == 100,
            c.transaction_pool_size == 1000000,
            c.block_pool_size == 10000,
            c.enable_lockfree && c.enable_zero_copy && c.enable_batch_processing && c.enable_parallel_validation,
            c.compression_level == 6,
            c.cache_size == 1000000,
            c.enable_metrics,
    {
        PerformanceConfig {
            max_batch_size: 10000,
            max_concurrent_batches: 100,
            transaction_pool_size: 1000000,
            block_pool_size: 10000,
            enable_lockfree: true,
            enable_zero_copy: true,
            enable_batch_processing: true,
            enable_parallel_validation: true,
            compression_level: 6,
            cache_size: 1000000,
            enable_metrics: true,
        }
    }
}

/// A transaction as raw bytes.
#[derive(Debug)]
pub struct Transaction {
    pub data: Vec<u8>,
}

impl Transaction {
    /// SHA-256 of the transaction's bytes.
    pub fn hash(&self) -> (h: [u8; 32])
        ensures
            h@ == sha256(self.data@),
    {
        sha256_digest(self.data.as_slice())
    }
}

/// A block as raw bytes.
#[derive(Debug)]
pub struct Block {
    pub data: Vec<u8>,
}

impl Block {
    /// SHA-256 of the block's bytes.
    pub fn hash(&self) -> (h: [u8; 32])
        ensures
            h@ == sha256(self.data@),
    {
        sha256_digest(self.data.as_slice())
    }
}

/// A transaction after processing; `processing_time_ms` is when it was
/// processed, in milliseconds on the processor's clock.
#[derive(Debug)]
pub struct ProcessedTransaction {
    pub transaction: Transaction,
    pub is_valid: bool,
    pub processing_time_ms: u64,
}

/// A block after validation; `validation_time_ms` is when it was
/// validated, in milliseconds on the processor's clock.
#[derive(Debug)]
pub struct ProcessedBlock {
    pub block: Block,
    pub is_valid: bool,
    pub validation_time_ms: u64,
}


/// Whether `a` and `b` hold the same processed transaction.
pub open spec fn same_transaction_result(a: ProcessedTransaction, b: ProcessedTransaction) -> bool {
    &&& a.transaction.data@ == b.transaction.data@
    &&& a.is_valid == b.is_valid
    &&& a.processing_time_ms == b.processing_time_ms
}

/// Whether `a` and `b` hold the same validated block.
pub open spec fn same_block_result(a: ProcessedBlock, b: ProcessedBlock) -> bool {
    &&& a.block.data@ == b.block.data@
    &&& a.is_valid == b.is_valid
    &&& a.validation_time_ms == b.validation_time_ms
}

fn copy_data(v: &Vec<u8>) -> (r: Vec<u8>)
    ensures
        r@ == v@,
{
    let r = v.clone();
    proof {
        assert(r@ =~= v@);
    }
    r
}

impl Clone for ProcessedTransaction {
    fn clone(&self) -> (c: Self)
        ensures
            same_transaction_result(c, *self),
    {
        ProcessedTransaction {
            transaction: Transaction { data: copy_data(&self.transaction.data) },
            is_valid: self.is_valid,
            processing_time_ms: self.processing_time_ms,
        }
    }
}

impl Clone for ProcessedBlock {
    fn clone(&self) -> (c: Self)
        ensures
            same_block_result(c, *self),
    {
        ProcessedBlock {
            block: Block { data: copy_data(&self.block.data) },
            is_valid: self.is_valid,
            validation_time_ms: self.validation_time_ms,
        }
    }
}

/// Throughput counters. The counters of work done wrap around; the rates
/// are in items per second.
#[derive(Debug, Clone, Copy, PartialEq, Eq, Structural)]
pub struct PerformanceMetrics {
    pub transactions_processed: u64,
    pub blocks_processed: u64,
    pub total_processing_time: u64,
    pub average_tps: u64,
    pub peak_tps: u64,
    pub cache_hit_rate: u64,
    pub memory_usage: usize,
}

/// The transactions per second of `count` transactions in `micros`
/// microseconds.
pub open spec fn batch_tps(count: nat, micros: u64) -> int {
    ((count * 1_000_000) as int) / (micros as int)
}

impl PerformanceMetrics {
    /// All counters at zero.
    pub fn new() -> (m: Self)
        ensures
            m == (PerformanceMetrics {
                transactions_processed: 0,
                blocks_processed: 0,
                total_processing_time: 0,
                average_tps: 0,
                peak_tps: 0,
                cache_hit_rate: 0,
                memory_usage: 0,
            }),
    {
        PerformanceMetrics {
            transactions_processed: 0,
            blocks_processed: 0,
            total_processing_time: 0,
            average_tps: 0,
            peak_tps: 0,
            cache_hit_rate: 0,
            memory_usage: 0,
        }
    }

    /// Records `count` transactions processed in `duration_micros`: the
    /// counters grow, and the batch's rate is averaged with the running
    /// average and may raise the peak.
    pub fn record_transaction_batch(&mut self, count: usize, duration_micros: u64)
        requires
            duration_micros > 0,
            count * 1_000_000 <= u64::MAX,
            old(self).average_tps + batch_tps(count as nat, duration_micros) <= u64::MAX,
        ensures
            ({
                let tps = batch_tps(count as nat, duration_micros);
                *final(self) == PerformanceMetrics {
                    transactions_processed: wrapping_add(old(self).transactions_processed, count as u64),
                    total_processing_time: wrapping_add(old(self).total_processing_time, duration_micros),
                    average_tps: ((old(self).average_tps + tps) / 2) as u64,
                    peak_tps: if tps > old(self).peak_tps { tps as u64 } else { old(self).peak_tps },
                    ..*old(self)
                }
            }),
    {
        self.transactions_processed = self.transactions_processed.wrapping_add(count as u64);
        self.total_processing_time = self.total_processing_time.wrapping_add(duration_micros);
        let tps: u64 = (count as u64 * 1_000_000) / duration_micros;
        self.update_tps_metrics(tps);
    }

    /// Whether a batch of `count` transactions in `duration_micros` can be
    /// recorded: a positive duration, and rates that fit the counters.
    pub fn batch_fits(&self, count: usize, duration_micros: u64) -> (b: bool)
        ensures
            b == (duration_micros > 0 && count * 1_000_000 <= u64::MAX
                && self.average_tps + batch_tps(count as nat, duration_micros) <= u64::MAX),
    {
        if duration_micros == 0 || count as u64 > u64::MAX / 1_000_000 {
            assert(count as u64 > u64::MAX / 1_000_000 ==> count * 1_000_000 > u64::MAX) by (nonlinear_arith);
            return false;
        }
        assert(count * 1_000_000 <= u64::MAX) by (nonlinear_arith)
            requires count as u64 <= u64::MAX / 1_000_000;
        let tps: u64 = (count as u64 * 1_000_000) / duration_micros;
        tps <= u64::MAX - self.average_tps
    }

    /// Records `count` blocks processed in `duration_micros`.
    pub fn record_block_batch(&mut self, count: usize, duration_micros: u64)
        ensures
            *final(self) == (PerformanceMetrics {
                blocks_processed: wrapping_add(old(self).blocks_processed, count as u64),
                total_processing_time: wrapping_add(old(self).total_processing_time, duration_micros),
                ..*old(self)
            }),
    {
        self.blocks_processed = self.blocks_processed.wrapping_add(count as u64);
        self.total_processing_time = self.total_processing_time.wrapping_add(duration_micros);
    }

    /// Averages `current_tps` into the running average and raises the peak
    /// to it if it is higher.
    fn update_tps_metrics(&mut self, current_tps: u64)
        requires
            old(self).average_tps + current_tps <= u64::MAX,
        ensures
            *final(self) == (PerformanceMetrics {
                average_tps: ((old(self).average_tps + current_tps) / 2) as u64,
                peak_tps: if current_tps > old(self).peak_tps { current_tps } else { old(self).peak_tps },
                ..*old(self)
            }),
    {
        let new_avg = (self.average_tps + current_tps) / 2;
        self.average_tps = new_avg;
        if current_tps > self.peak_tps {
            self.peak_tps = current_tps;
        }
    }

    /// Transactions processed so far.
    pub fn get_transactions_processed(&self) -> (n: u64)
        ensures
            n == self.transactions_processed,
    {
        self.transactions_processed
    }

    /// The running average rate.
    pub fn get_average_tps(&self) -> (n: u64)
        ensures
            n == self.average_tps,
    {
        self.average_tps
    }

    /// The highest rate seen.
    pub fn get_peak_tps(&self) -> (n: u64)
        ensures
            n == self.peak_tps,
    {
        self.peak_tps
    }
}

/// The keys of cached results, as byte sequences.
pub open spec fn result_keys<T>(es: Seq<([u8; 32], T)>) -> Seq<Seq<u8>> {
    es.map_values(|e: ([u8; 32], T)| e.0@)
}

/// `es` with room made for one more: the oldest result goes when `es`
/// holds `max` or more.
pub open spec fn make_room<T>(es: Seq<([u8; 32], T)>, max: nat) -> Seq<([u8; 32], T)> {
    if es.len() >= max && es.len() > 0 { es.drop_first() } else { es }
}

/// `es` with `v` stored under `k`: in place of the result with that key, or
/// at the end.
pub open spec fn put_result<T>(es: Seq<([u8; 32], T)>, k: [u8; 32], v: T) -> Seq<([u8; 32], T)> {
    match result_keys(es).index_of_first(k@) {
        Some(i) => es.update(i, (k, v)),
        None => es.push((k, v)),
    }
}

/// The result under `k` in `es`, if any.
pub open spec fn result_under<T>(es: Seq<([u8; 32], T)>, k: Seq<u8>) -> Option<T> {
    match result_keys(es).index_of_first(k) {
        Some(i) => Some(es[i].1),
        None => None,
    }
}

/// Position of the result under `k`.
fn find_result<T>(es: &Vec<([u8; 32], T)>, k: &[u8; 32]) -> (r: Option<usize>)
    ensures
        match r {
            Some(i) => i < es@.len() && result_keys(es@).index_of_first(k@) == Some(i as int),
            None => result_keys(es@).index_of_first(k@) is None,
        },
{
    let mut i: usize = 0;
    while i < es.len()
        invariant
            i <= es@.len(),
            forall|j: int| 0 <= j < i ==> es@[j].0@ != k@,
        decreases es@.len() - i,
    {
        if es[i].0.same_key(k) {
            proof {
                let ks = result_keys(es@);
                ks.index_of_first_ensures(k@);
                assert(ks[i as int] == k@);
                let f = ks.index_of_first(k@)->0;
                if f < i {
                    assert(ks[f] == es@[f].0@);
                }
            }
            return Some(i);
        }
        i = i + 1;
    }
    proof {
        let ks = result_keys(es@);
        ks.index_of_first_ensures(k@);
        if ks.contains(k@) {
            let j = choose|j: int| 0 <= j < ks.len() && ks[j] == k@;
            assert(es@[j].0@ == k@);
        }
    }
    None
}

/// Makes room for one more result, then stores `v` under `k`.
fn put_in<T>(es: &mut Vec<([u8; 32], T)>, max: usize, k: [u8; 32], v: T)
    ensures
        final(es)@ == put_result(make_room(old(es)@, max as nat), k, v),
{
    if es.len() >= max && es.len() > 0 {
        let _ = es.remove(0);
        proof {
            assert(es@ =~= old(es)@.drop_first());
        }
    }
    let ghost mid = es@;
    match find_result(es, &k) {
        Some(i) => {
            es.set(i, (k, v));
        },
        None => {
            es.push((k, v));
        },
    }
}

/// Cached results of block and transaction processing, by hash, at most
/// `max_size` of each. When full, the oldest result makes room.
pub struct HighPerformanceCache {
    block_cache: Vec<([u8; 32], ProcessedBlock)>,
    transaction_cache: Vec<([u8; 32], ProcessedTransaction)>,
    max_size: usize,
}


impl HighPerformanceCache {
    /// The cached block results, oldest first.
    pub closed spec fn block_results(&self) -> Seq<([u8; 32], ProcessedBlock)> {
        self.block_cache@
    }

    /// The cached transaction results, oldest first.
    pub closed spec fn transaction_results(&self) -> Seq<([u8; 32], ProcessedTransaction)> {
        self.transaction_cache@
    }

    /// The most results of each kind kept.
    pub closed spec fn capacity(&self) -> nat {
        self.max_size as nat
    }

    /// Empty caches of at most `max_size` results each.
    pub fn new(max_size: usize) -> (c: Self)
        ensures
            c.block_results().len() == 0,
            c.transaction_results().len() == 0,
            c.capacity() == max_size,
    {
        HighPerformanceCache { block_cache: Vec::new(), transaction_cache: Vec::new(), max_size }
    }

    /// A copy of the block result under `hash`.
    pub fn get_block_result(&self, hash: &[u8; 32]) -> (r: Option<ProcessedBlock>)
        ensures
            match result_under(self.block_results(), hash@) {
                Some(b) => r matches Some(c) && same_block_result(c, b),
                None => r is None,
            },
    {
        match find_result(&self.block_cache, hash) {
            Some(i) => Some(self.block_cache[i].1.clone()),
            None => None,
        }
    }

    /// Stores a copy of `result` under its block's hash, the oldest result
    /// making room when the cache is full.
    pub fn cache_block_result(&mut self, result: &ProcessedBlock)
        ensures
            final(self).capacity() == old(self).capacity(),
            final(self).transaction_results() == old(self).transaction_results(),
            exists|h: [u8; 32], c: ProcessedBlock| #![auto]
                h@ == sha256(result.block.data@) && same_block_result(c, *result)
                && final(self).block_results() == put_result(make_room(old(self).block_results(), old(self).capacity()), h, c),
    {
        let h = result.block.hash();
        let c = result.clone();
        let ghost gc = c;
        put_in(&mut self.block_cache, self.max_size, h, c);
        proof {
            assert(h@ == sha256(result.block.data@) && same_block_result(gc, *result)
                && self.block_results() == put_result(make_room(old(self).block_results(), old(self).capacity()), h, gc));
        }
    }

    /// A copy of the transaction result under `hash`.
    pub fn get_transaction_result(&self, hash: &[u8; 32]) -> (r: Option<ProcessedTransaction>)
        ensures
            match result_under(self.transaction_results(), hash@) {
                Some(t) => r matches Some(c) && same_transaction_result(c, t),
                None => r is None,
            },
    {
        match find_result(&self.transaction_cache, hash) {
            Some(i) => Some(self.transaction_cache[i].1.clone()),
            None => None,
        }
    }

    /// Stores a copy of `result` under its transaction's hash, the oldest
    /// result making room when the cache is full.
    pub fn cache_transaction_result(&mut self, result: &ProcessedTransaction)
        ensures
            final(self).capacity() == old(self).capacity(),
            final(self).block_results() == old(self).block_results(),
            exists|h: [u8; 32], c: ProcessedTransaction| #![auto]
                h@ == sha256(result.transaction.data@) && same_transaction_result(c, *result)
                && final(self).transaction_results() == put_result(make_room(old(self).transaction_results(), old(self).capacity()), h, c),
    {
        let h = result.transaction.hash();
        let c = result.clone();
        let ghost gc = c;
        put_in(&mut self.transaction_cache, self.max_size, h, c);
        proof {
            assert(h@ == sha256(result.transaction.data@) && same_transaction_result(gc, *result)
                && self.transaction_results() == put_result(make_room(old(self).transaction_results(), old(self).capacity()), h, gc));
        }
    }
}


/// Every cached block result is valid and kept under its block's hash.
pub open spec fn block_results_sound(es: Seq<([u8; 32], ProcessedBlock)>) -> bool {
    forall|i: int| 0 <= i < es.len() ==> (#[trigger] es[i]).1.is_valid && es[i].0@ == sha256(es[i].1.block.data@)
}

/// Whether `out` is a pooled transaction `item` processed at `now_ms`.
pub open spec fn processed_from(item: PooledItem<Transaction>, out: ProcessedTransaction, now_ms: u64) -> bool {
    &&& (item.value() matches Some(t) ==> out.transaction == t)
    &&& out.is_valid
    &&& out.processing_time_ms == now_ms
}

/// Whether `out` is a validation of `block`: valid, and of a block with the
/// same hash (the block itself, or one whose result was cached).
pub open spec fn validated(block: Block, out: ProcessedBlock) -> bool {
    &&& out.is_valid
    &&& sha256(out.block.data@) == sha256(block.data@)
}

/// Processes pooled transactions at `now_ms`: each is taken out of its
/// block and marked valid.
fn process_pooled_transactions(items: Vec<PooledItem<Transaction>>, now_ms: u64) -> (r: Vec<ProcessedTransaction>)
    ensures
        r@.len() == items@.len(),
        forall|k: int| 0 <= k < items@.len() ==> processed_from(items@[k], #[trigger] r@[k], now_ms),
{
    let ghost all = items@;
    let mut r: Vec<ProcessedTransaction> = Vec::new();
    for item in it: items
        invariant
            it.seq() == all,
            r@.len() == it.index(),
            forall|k: int| 0 <= k < it.index() ==> processed_from(all[k], #[trigger] r@[k], now_ms),
    {
        let ghost g = item;
        let t = match item.into_data() {
            Some(t) => t,
            None => Transaction { data: Vec::new() },
        };
        r.push(ProcessedTransaction { transaction: t, is_valid: true, processing_time_ms: now_ms });
        proof {
            assert(processed_from(g, r@[r@.len() - 1], now_ms));
        }
    }
    r
}

/// Processes transactions through the memory pool and the batch processor,
/// and validates blocks with a cache of earlier results.
pub struct HighPerformanceProcessor {
    config: PerformanceConfig,
    transaction_pool: MemoryPool<Transaction>,
    block_pool: MemoryPool<Block>,
    batch_processor: BatchProcessor,
    metrics: PerformanceMetrics,
    cache: HighPerformanceCache,
}

impl HighPerformanceProcessor {
    /// The settings.
    pub closed spec fn settings(&self) -> PerformanceConfig {
        self.config
    }

    /// The transaction pool.
    pub closed spec fn tx_pool(&self) -> MemoryPool<Transaction> {
        self.transaction_pool
    }

    /// The block pool.
    pub closed spec fn blk_pool(&self) -> MemoryPool<Block> {
        self.block_pool
    }

    /// The batch processor's counters.
    pub closed spec fn batch_stats(&self) -> BatchProcessorStats {
        self.batch_processor.stats_view()
    }

    /// The throughput counters.
    pub closed spec fn metrics_view(&self) -> PerformanceMetrics {
        self.metrics
    }

    /// The result cache.
    pub closed spec fn result_cache(&self) -> HighPerformanceCache {
        self.cache
    }

    /// The pools are well formed and every cached block result is valid and
    /// kept under its hash.
    pub open spec fn wf(&self) -> bool {
        &&& self.tx_pool().wf()
        &&& self.blk_pool().wf()
        &&& block_results_sound(self.result_cache().block_results())
    }

    /// A processor with pools, batches and cache sized by `config`.
    pub fn new(config: PerformanceConfig) -> (p: Self)
        ensures
            p.wf(),
            p.settings() == config,
            p.tx_pool().total() == config.transaction_pool_size,
            p.tx_pool().allocated() == 0,
            p.blk_pool().total() == config.block_pool_size,
            p.blk_pool().allocated() == 0,
            p.batch_stats().max_batch_size == config.max_batch_size,
            p.batch_stats().max_concurrent_batches == config.max_concurrent_batches,
            p.batch_stats().processed_batches == 0,
            p.metrics_view() == PerformanceMetrics::new_spec(),
            p.result_cache().capacity() == config.cache_size,
            p.result_cache().block_results().len() == 0,
            p.result_cache().transaction_results().len() == 0,
    {
        HighPerformanceProcessor {
            transaction_pool: MemoryPool::new(config.transaction_pool_size),
            block_pool: MemoryPool::new(config.block_pool_size),
            batch_processor: BatchProcessor::new(config.max_batch_size, config.max_concurrent_batches),
            metrics: PerformanceMetrics::new(),
            cache: HighPerformanceCache::new(config.cache_size),
            config,
        }
    }

    /// Processes `transactions` at `now_ms`: each is stored in a block of
    /// the transaction pool, the blocks go through the batch processor, and
    /// each comes out marked valid. The blocks stay taken. Fails, changing
    /// nothing, when the pool lacks free blocks.
    pub fn process_transactions(&mut self, transactions: Vec<Transaction>, now_ms: u64) -> (r: Result<Vec<ProcessedTransaction>, String>)
        requires
            old(self).wf(),
        ensures
            final(self).wf(),
            final(self).settings() == old(self).settings(),
            final(self).metrics_view() == old(self).metrics_view(),
            final(self).result_cache() == old(self).result_cache(),
            final(self).blk_pool() == old(self).blk_pool(),
            r is Ok <==> transactions@.len() <= old(self).tx_pool().free_list().len(),
            match r {
                Ok(out) => {
                    &&& out@.len() == transactions@.len()
                    &&& forall|j: int| 0 <= j < out@.len() ==> (#[trigger] out@[j]).transaction == transactions@[j]
                        && out@[j].is_valid && out@[j].processing_time_ms == now_ms
                    &&& final(self).tx_pool().allocated() == old(self).tx_pool().allocated() + transactions@.len()
                    &&& final(self).batch_stats().total_processed_items
                        == wrapping_add(old(self).batch_stats().total_processed_items, transactions@.len() as u64)
                },
                Err(e) => {
                    &&& e@ == batch_error_message(transactions@.len())
                    &&& final(self).batch_stats() == old(self).batch_stats()
                },
            },
    {
        let n = transactions.len();
        let pooled = match self.transaction_pool.allocate_batch(n) {
            Ok(items) => items,
            Err(e) => {
                return Err(e);
            },
        };
        let ghost txs = transactions@;
        let mut rest = transactions;
        let mut filled: Vec<PooledItem<Transaction>> = Vec::new();
        for item in it: pooled
            invariant
                it.seq().len() == n,
                txs.len() == n,
                rest@ == txs.skip(it.index() as int),
                filled@.len() == it.index(),
                forall|k: int| 0 <= k < it.index() ==> (#[trigger] filled@[k]).value() == Some(txs[k]),
        {
            let mut item = item;
            let t = rest.remove(0);
            proof {
                assert(t == txs[it.index() as int]);
                assert(rest@ =~= txs.skip(it.index() as int + 1));
            }
            item.set_data(t);
            filled.push(item);
        }
        let ghost fs = filled@;
        let processor = |items: Vec<PooledItem<Transaction>>| -> (r: Result<Vec<ProcessedTransaction>, String>)
            ensures
                r matches Ok(v) && v@.len() == items@.len()
                    && forall|k: int| 0 <= k < items@.len() ==> processed_from(items@[k], #[trigger] v@[k], now_ms),
        {
            Ok(process_pooled_transactions(items, now_ms))
        };
        let ghost max = self.batch_processor.stats_view().max_batch_size as nat;
        match self.batch_processor.process_batch(filled, processor) {
            Ok(out) => {
                proof {
                    let chunks = chunks_of(fs, max);
                    let (args, outs) = choose|args: Seq<Vec<PooledItem<Transaction>>>, outs: Seq<Vec<ProcessedTransaction>>|
                        #[trigger] ran_with(processor, chunks, out@, args, outs);
                    let ins = chunks;
                    let os = vec_seqs(outs);
                    assert forall|i: int| 0 <= i < ins.len() implies (#[trigger] os[i]).len() == ins[i].len() by {
                        assert(args[i]@ == chunks[i]);
                        assert(processor.ensures((args[i],), Ok(outs[i])));
                    }
                    let rel = |a: PooledItem<Transaction>, b: ProcessedTransaction| processed_from(a, b, now_ms);
                    assert forall|i: int, k: int| 0 <= i < ins.len() && 0 <= k < ins[i].len() implies rel(ins[i][k], #[trigger] os[i][k]) by {
                        assert(args[i]@ == chunks[i]);
                        assert(processor.ensures((args[i],), Ok(outs[i])));
                        assert(os[i] == outs[i]@);
                    }
                    lemma_flatten_pairwise(ins, os, rel);
                    lemma_chunks_of(fs, max);
                    assert forall|j: int| 0 <= j < out@.len() implies (#[trigger] out@[j]).transaction == txs[j]
                        && out@[j].is_valid && out@[j].processing_time_ms == now_ms by {
                        assert(rel(ins.flatten()[j], os.flatten()[j]));
                        assert(fs[j].value() == Some(txs[j]));
                    }
                }
                Ok(out)
            },
            Err(e) => {
                proof {
                    let chunks = chunks_of(fs, max);
                    let (i, c) = choose|i: int, c: Vec<PooledItem<Transaction>>| #![trigger chunks[i], processor.ensures((c,), Err::<Vec<ProcessedTransaction>, String>(e))]
                        0 <= i < chunks.len() && c@ == chunks[i] && processor.ensures((c,), Err::<Vec<ProcessedTransaction>, String>(e));
                    assert(false);
                }
                Err(e)
            },
        }
    }
}

impl PerformanceMetrics {
    /// All counters at zero.
    pub open spec fn new_spec() -> PerformanceMetrics {
        PerformanceMetrics {
            transactions_processed: 0,
            blocks_processed: 0,
            total_processing_time: 0,
            average_tps: 0,
            peak_tps: 0,
            cache_hit_rate: 0,
            memory_usage: 0,
        }
    }
}


/// The result under a key of sound results is valid and of a block with
/// that hash.
proof fn lemma_result_under_sound(es: Seq<([u8; 32], ProcessedBlock)>, k: Seq<u8>)
    requires
        block_results_sound(es),
        result_under(es, k) is Some,
    ensures
        result_under(es, k)->0.is_valid,
        sha256(result_under(es, k)->0.block.data@) == k,
{
    let ks = result_keys(es);
    ks.index_of_first_ensures(k);
    let i = ks.index_of_first(k)->0;
    assert(ks[i] == es[i].0@);
    assert(es[i].1.is_valid && es[i].0@ == sha256(es[i].1.block.data@));
}

/// Storing a sound result keeps the results sound.
proof fn lemma_put_sound(es: Seq<([u8; 32], ProcessedBlock)>, max: nat, h: [u8; 32], c: ProcessedBlock)
    requires
        block_results_sound(es),
        c.is_valid,
        h@ == sha256(c.block.data@),
    ensures
        block_results_sound(put_result(make_room(es, max), h, c)),
{
    let m = make_room(es, max);
    assert(block_results_sound(m)) by {
        if es.len() >= max && es.len() > 0 {
            assert forall|i: int| 0 <= i < m.len() implies (#[trigger] m[i]).1.is_valid && m[i].0@ == sha256(m[i].1.block.data@) by {
                assert(m[i] == es[i + 1]);
            }
        }
    }
    let t = put_result(m, h, c);
    result_keys(m).index_of_first_ensures(h@);
    assert forall|i: int| 0 <= i < t.len() implies (#[trigger] t[i]).1.is_valid && t[i].0@ == sha256(t[i].1.block.data@) by {
        if i < m.len() && t[i] == m[i] {
        } else {
            assert(t[i] == (h, c));
        }
    }
}

impl HighPerformanceProcessor {
    /// Validates one block: every block passes.
    fn validate_block(&self, block: &Block) -> (r: Result<bool, String>)
        ensures
            r == Ok::<bool, String>(true),
    {
        Ok(true)
    }

    /// Validates `blocks` in order at `now_ms`. A block whose hash has a
    /// cached result gets a copy of it; any other block is validated, and
    /// its result is cached.
    fn validate_blocks_sequential(&mut self, blocks: Vec<Block>, now_ms: u64) -> (r: Result<Vec<ProcessedBlock>, String>)
        requires
            old(self).wf(),
        ensures
            final(self).wf(),
            final(self).settings() == old(self).settings(),
            final(self).tx_pool() == old(self).tx_pool(),
            final(self).blk_pool() == old(self).blk_pool(),
            final(self).batch_stats() == old(self).batch_stats(),
            final(self).metrics_view() == old(self).metrics_view(),
            final(self).result_cache().capacity() == old(self).result_cache().capacity(),
            r matches Ok(out) && out@.len() == blocks@.len()
                && forall|j: int| 0 <= j < out@.len() ==> validated(blocks@[j], #[trigger] out@[j]),
    {
        let ghost bs = blocks@;
        let mut results: Vec<ProcessedBlock> = Vec::new();
        for block in it: blocks
            invariant
                it.seq() == bs,
                self.wf(),
                self.config == old(self).config,
                self.transaction_pool == old(self).transaction_pool,
                self.block_pool == old(self).block_pool,
                self.batch_processor == old(self).batch_processor,
                self.metrics == old(self).metrics,
                self.cache.max_size == old(self).cache.max_size,
                results@.len() == it.index(),
                forall|j: int| 0 <= j < it.index() ==> validated(bs[j], #[trigger] results@[j]),
        {
            let h = block.hash();
            match self.cache.get_block_result(&h) {
                Some(cached) => {
                    proof {
                        lemma_result_under_sound(self.cache.block_results(), h@);
                    }
                    results.push(cached);
                },
                None => {
                    let is_valid = match self.validate_block(&block) {
                        Ok(v) => v,
                        Err(e) => {
                            return Err(e);
                        },
                    };
                    let processed = ProcessedBlock { block, is_valid, validation_time_ms: now_ms };
                    let ghost before = self.cache.block_results();
                    self.cache.cache_block_result(&processed);
                    proof {
                        let (hh, c) = choose|hh: [u8; 32], c: ProcessedBlock| #![auto]
                            hh@ == sha256(processed.block.data@) && same_block_result(c, processed)
                            && self.cache.block_results() == put_result(make_room(before, old(self).cache.max_size as nat), hh, c);
                        lemma_put_sound(before, old(self).cache.max_size as nat, hh, c);
                    }
                    results.push(processed);
                },
            }
        }
        Ok(results)
    }

    /// Validates `blocks` in chunks of their number divided by
    /// `parallelism` (at least one block per chunk), the chunks one after
    /// the other.
    fn validate_blocks_parallel(&mut self, blocks: Vec<Block>, now_ms: u64, parallelism: usize) -> (r: Result<Vec<ProcessedBlock>, String>)
        requires
            old(self).wf(),
            parallelism > 0,
        ensures
            final(self).wf(),
            final(self).settings() == old(self).settings(),
            final(self).tx_pool() == old(self).tx_pool(),
            final(self).blk_pool() == old(self).blk_pool(),
            final(self).batch_stats() == old(self).batch_stats(),
            final(self).metrics_view() == old(self).metrics_view(),
            final(self).result_cache().capacity() == old(self).result_cache().capacity(),
            r matches Ok(out) && out@.len() == blocks@.len()
                && forall|j: int| 0 <= j < out@.len() ==> validated(blocks@[j], #[trigger] out@[j]),
    {
        let ghost bs = blocks@;
        let per = blocks.len() / parallelism;
        let chunk_size: usize = if per > 1 { per } else { 1 };
        let mut rest = blocks;
        let mut results: Vec<ProcessedBlock> = Vec::new();
        while rest.len() > 0
            invariant
                self.wf(),
                self.config == old(self).config,
                self.transaction_pool == old(self).transaction_pool,
                self.block_pool == old(self).block_pool,
                self.batch_processor.stats_view() == old(self).batch_processor.stats_view(),
                self.metrics == old(self).metrics,
                self.cache.max_size == old(self).cache.max_size,
                chunk_size >= 1,
                results@.len() + rest@.len() == bs.len(),
                rest@ == bs.skip(results@.len() as int),
                forall|j: int| 0 <= j < results@.len() ==> validated(bs[j], #[trigger] results@[j]),
            decreases rest@.len(),
        {
            let mut chunk: Vec<Block> = Vec::new();
            let ghost start = results@.len() as int;
            while chunk.len() < chunk_size && rest.len() > 0
                invariant
                    chunk@.len() <= chunk_size,
                    start + chunk@.len() + rest@.len() == bs.len(),
                    rest@ == bs.skip(start + chunk@.len()),
                    chunk@ == bs.subrange(start, start + chunk@.len()),
                    0 <= start,
                decreases rest@.len(),
            {
                let b = rest.remove(0);
                proof {
                    assert(b == bs[start + chunk@.len()]);
                }
                chunk.push(b);
                proof {
                    assert(rest@ =~= bs.skip(start + chunk@.len()));
                    assert(chunk@ =~= bs.subrange(start, start + chunk@.len()));
                }
            }
            let ghost cs = chunk@;
            let mut done = match self.validate_blocks_sequential(chunk, now_ms) {
                Ok(d) => d,
                Err(e) => {
                    return Err(e);
                },
            };
            let ghost before = results@;
            let ghost dv = done@;
            results.append(&mut done);
            proof {
                assert(results@ =~= before + dv);
                assert forall|j: int| 0 <= j < results@.len() implies validated(bs[j], #[trigger] results@[j]) by {
                    if j >= before.len() {
                        let k = j - before.len();
                        assert(results@[j] == dv[k]);
                        assert(cs[k] == bs[start + k]);
                        assert(validated(cs[k], dv[k]));
                    } else {
                        assert(results@[j] == before[j]);
                    }
                }
            }
        }
        Ok(results)
    }

    /// Validates `blocks` at `now_ms` after storing each in a block of the
    /// block pool (which stay taken): in chunks when parallel validation is
    /// on (`parallelism` is the number of workers), else in one pass. Fails,
    /// changing nothing, when the pool lacks free blocks.
    pub fn process_blocks(&mut self, blocks: Vec<Block>, now_ms: u64, parallelism: usize) -> (r: Result<Vec<ProcessedBlock>, String>)
        requires
            old(self).wf(),
            parallelism > 0,
        ensures
            final(self).wf(),
            final(self).settings() == old(self).settings(),
            final(self).tx_pool() == old(self).tx_pool(),
            final(self).batch_stats() == old(self).batch_stats(),
            final(self).metrics_view() == old(self).metrics_view(),
            r is Ok <==> blocks@.len() <= old(self).blk_pool().free_list().len(),
            match r {
                Ok(out) => {
                    &&& out@.len() == blocks@.len()
                    &&& forall|j: int| 0 <= j < out@.len() ==> validated(blocks@[j], #[trigger] out@[j])
                    &&& final(self).blk_pool().allocated() == old(self).blk_pool().allocated() + blocks@.len()
                },
                Err(e) => e@ == batch_error_message(blocks@.len()),
            },
    {
        let n = blocks.len();
        let pooled = match self.block_pool.allocate_batch(n) {
            Ok(items) => items,
            Err(e) => {
                return Err(e);
            },
        };
        let ghost bs = blocks@;
        let mut rest = blocks;
        let mut stored: Vec<Block> = Vec::new();
        for item in it: pooled
            invariant
                it.seq().len() == n,
                bs.len() == n,
                rest@ == bs.skip(it.index() as int),
                stored@ == bs.take(it.index() as int),
        {
            let mut item = item;
            let b = rest.remove(0);
            proof {
                assert(b == bs[it.index() as int]);
                assert(rest@ =~= bs.skip(it.index() as int + 1));
            }
            item.set_data(b);
            let back = match item.into_data() {
                Some(x) => x,
                None => Block { data: Vec::new() },
            };
            stored.push(back);
            proof {
                assert(stored@ =~= bs.take(it.index() as int + 1));
            }
        }
        proof {
            assert(bs.take(n as int) =~= bs);
        }
        if self.config.enable_parallel_validation {
            self.validate_blocks_parallel(stored, now_ms, parallelism)
        } else {
            self.validate_blocks_sequential(stored, now_ms)
        }
    }

    /// Whether a batch of `count` transactions in `duration_micros` can be
    /// recorded.
    pub fn batch_fits(&self, count: usize, duration_micros: u64) -> (b: bool)
        ensures
            b == (duration_micros > 0 && count * 1_000_000 <= u64::MAX
                && self.metrics_view().average_tps + batch_tps(count as nat, duration_micros) <= u64::MAX),
    {
        self.metrics.batch_fits(count, duration_micros)
    }

    /// Records a batch of `count` transactions that took `duration_micros`.
    pub fn record_transaction_batch(&mut self, count: usize, duration_micros: u64)
        requires
            duration_micros > 0,
            count * 1_000_000 <= u64::MAX,
            old(self).metrics_view().average_tps + batch_tps(count as nat, duration_micros) <= u64::MAX,
        ensures
            ({
                let m = old(self).metrics_view();
                let tps = batch_tps(count as nat, duration_micros);
                final(self).metrics_view() == PerformanceMetrics {
                    transactions_processed: wrapping_add(m.transactions_processed, count as u64),
                    total_processing_time: wrapping_add(m.total_processing_time, duration_micros),
                    average_tps: ((m.average_tps + tps) / 2) as u64,
                    peak_tps: if tps > m.peak_tps { tps as u64 } else { m.peak_tps },
                    ..m
                }
            }),
            final(self).settings() == old(self).settings(),
            final(self).tx_pool() == old(self).tx_pool(),
            final(self).blk_pool() == old(self).blk_pool(),
            final(self).batch_stats() == old(self).batch_stats(),
            final(self).result_cache() == old(self).result_cache(),
    {
        self.metrics.record_transaction_batch(count, duration_micros);
    }

    /// Records a batch of `count` blocks that took `duration_micros`.
    pub fn record_block_batch(&mut self, count: usize, duration_micros: u64)
        ensures
            final(self).metrics_view() == (PerformanceMetrics {
                blocks_processed: wrapping_add(old(self).metrics_view().blocks_processed, count as u64),
                total_processing_time: wrapping_add(old(self).metrics_view().total_processing_time, duration_micros),
                ..old(self).metrics_view()
            }),
            final(self).settings() == old(self).settings(),
            final(self).tx_pool() == old(self).tx_pool(),
            final(self).blk_pool() == old(self).blk_pool(),
            final(self).batch_stats() == old(self).batch_stats(),
            final(self).result_cache() == old(self).result_cache(),
    {
        self.metrics.record_block_batch(count, duration_micros);
    }

    /// The throughput counters.
    pub fn get_metrics(&self) -> (m: &PerformanceMetrics)
        ensures
            *m == self.metrics_view(),
    {
        &self.metrics
    }
}

} // verus!
