//! Batch processing: items are split into chunks of at most the batch size
//! and each chunk is handed to a processor; batches and items are counted.
//! Concurrency limits are left to the runtime that drives the processor.

use vstd::prelude::*;
use crate::node_types::{BatchProcessorStats, BatchProcessingConfig};
use crate::memory_pool::{PooledItem, TransactionBlock};
use crate::text::owned;

verus! {

/// The chunks so far and the chunk being filled, after splitting `s`
/// greedily: a new chunk starts once the current one holds `max` items.
pub open spec fn split_state<T>(s: Seq<T>, max: nat) -> (Seq<Seq<T>>, Seq<T>)
    decreases s.len(),
{
    if s.len() == 0 {
        (Seq::empty(), Seq::empty())
    } else {
        let (cs, cur) = split_state(s.drop_last(), max);
        if cur.len() >= max {
            (cs.push(cur), seq![s.last()])
        } else {
            (cs, cur.push(s.last()))
        }
    }
}

/// How `s` is split for batches of `max`: one chunk when it fits, else the
/// greedy chunks (the last one only if it is not empty).
pub open spec fn chunks_of<T>(s: Seq<T>, max: nat) -> Seq<Seq<T>> {
    if s.len() <= max {
        seq![s]
    } else {
        let (cs, cur) = split_state(s, max);
        if cur.len() > 0 {
            cs.push(cur)
        } else {
            cs
        }
    }
}

/// The contents of some vectors.
pub open spec fn vec_seqs<T>(cs: Seq<Vec<T>>) -> Seq<Seq<T>> {
    cs.map_values(|v: Vec<T>| v@)
}

/// Splitting loses and reorders nothing: the chunks laid end to end are
/// `s`; with `max` positive no chunk is empty or holds more than `max`.
pub proof fn lemma_split_state<T>(s: Seq<T>, max: nat)
    ensures
        split_state(s, max).0.flatten() + split_state(s, max).1 == s,
        max > 0 ==> forall|i: int| 0 <= i < split_state(s, max).0.len()
            ==> #[trigger] split_state(s, max).0[i].len() == max,
        max > 0 ==> split_state(s, max).1.len() <= max,
        max > 0 && s.len() > 0 ==> split_state(s, max).1.len() > 0,
    decreases s.len(),
{
    if s.len() > 0 {
        lemma_split_state(s.drop_last(), max);
        let (cs, cur) = split_state(s.drop_last(), max);
        if cur.len() >= max {
            cs.lemma_flatten_push(cur);
            assert(s.drop_last().push(s.last()) =~= s);
            assert(cs.push(cur).flatten() + seq![s.last()] =~= s);
        } else {
            assert(s.drop_last().push(s.last()) =~= s);
            assert((cs.flatten() + cur).push(s.last()) =~= cs.flatten() + cur.push(s.last()));
        }
    } else {
        assert(Seq::<Seq<T>>::empty().flatten() =~= Seq::<T>::empty());
    }
}

/// Splitting into batches loses and reorders nothing, and when the items do
/// not fit in one batch of a positive size, every chunk holds from one to
/// `max` items.
pub proof fn lemma_chunks_of<T>(s: Seq<T>, max: nat)
    ensures
        chunks_of(s, max).flatten() == s,
        s.len() > max && max > 0 ==> forall|i: int| 0 <= i < chunks_of(s, max).len()
            ==> 1 <= #[trigger] chunks_of(s, max)[i].len() <= max,
{
    lemma_split_state(s, max);
    let (cs, cur) = split_state(s, max);
    if s.len() <= max {
        seq![s].lemma_flatten_singleton();
    } else if cur.len() > 0 {
        cs.lemma_flatten_push(cur);
    } else {
        assert(cs.flatten() + cur =~= cs.flatten());
    }
}

/// When each chunk of outputs matches its chunk of inputs item by item
/// under `rel`, so do the outputs and inputs laid end to end.
pub proof fn lemma_flatten_pairwise<A, B>(ins: Seq<Seq<A>>, outs: Seq<Seq<B>>, rel: spec_fn(A, B) -> bool)
    requires
        ins.len() == outs.len(),
        forall|i: int| 0 <= i < ins.len() ==> (#[trigger] outs[i]).len() == ins[i].len(),
        forall|i: int, k: int| 0 <= i < ins.len() && 0 <= k < ins[i].len() ==> rel(ins[i][k], #[trigger] outs[i][k]),
    ensures
        outs.flatten().len() == ins.flatten().len(),
        forall|j: int| 0 <= j < ins.flatten().len() ==> rel(ins.flatten()[j], #[trigger] outs.flatten()[j]),
    decreases ins.len(),
{
    if ins.len() == 0 {
        assert(ins.flatten() =~= Seq::<A>::empty());
        assert(outs.flatten() =~= Seq::<B>::empty());
    } else {
        let pi = ins.drop_last();
        let po = outs.drop_last();
        assert forall|i: int| 0 <= i < pi.len() implies (#[trigger] po[i]).len() == pi[i].len() by {
            assert(po[i] == outs[i] && pi[i] == ins[i]);
        }
        assert forall|i: int, k: int| 0 <= i < pi.len() && 0 <= k < pi[i].len() implies rel(pi[i][k], #[trigger] po[i][k]) by {
            assert(po[i] == outs[i] && pi[i] == ins[i]);
        }
        lemma_flatten_pairwise(pi, po, rel);
        pi.lemma_flatten_push(ins.last());
        po.lemma_flatten_push(outs.last());
        assert(pi.push(ins.last()) =~= ins);
        assert(po.push(outs.last()) =~= outs);
        let n = pi.flatten().len();
        assert forall|j: int| 0 <= j < ins.flatten().len() implies rel(ins.flatten()[j], #[trigger] outs.flatten()[j]) by {
            if j < n {
                assert(ins.flatten()[j] == pi.flatten()[j]);
                assert(outs.flatten()[j] == po.flatten()[j]);
            } else {
                let k = j - n;
                assert(ins.flatten()[j] == ins.last()[k]);
                assert(outs.flatten()[j] == outs.last()[k]);
                assert(rel(ins[ins.len() - 1][k], outs[ins.len() - 1][k]));
            }
        }
    }
}

/// Splits items into batches and counts the work done.
pub struct BatchProcessor {
    max_batch_size: usize,
    max_concurrent_batches: usize,
    processed_batches: u64,
    total_processed_items: u64,
    total_processing_time: u64,
}

impl BatchProcessor {
    /// The counts and limits.
    pub closed spec fn stats_view(&self) -> BatchProcessorStats {
        BatchProcessorStats {
            processed_batches: self.processed_batches,
            total_processed_items: self.total_processed_items,
            total_processing_time: self.total_processing_time,
            max_batch_size: self.max_batch_size,
            max_concurrent_batches: self.max_concurrent_batches,
        }
    }

    /// Nothing processed yet.
    pub fn new(max_batch_size: usize, max_concurrent_batches: usize) -> (p: Self)
        ensures
            p.stats_view() == (BatchProcessorStats {
                processed_batches: 0,
                total_processed_items: 0,
                total_processing_time: 0,
                max_batch_size,
                max_concurrent_batches,
            }),
    {
        BatchProcessor {
            max_batch_size,
            max_concurrent_batches,
            processed_batches: 0,
            total_processed_items: 0,
            total_processing_time: 0,
        }
    }

    /// Splits `items` into batches of at most `max_batch_size` (all in one
    /// when they fit).
    pub fn split_into_chunks<T>(&self, items: Vec<T>) -> (r: Vec<Vec<T>>)
        ensures
            vec_seqs(r@) == chunks_of(items@, self.stats_view().max_batch_size as nat),
    {
        let ghost s = items@;
        let max = self.max_batch_size;
        if items.len() <= max {
            let mut r: Vec<Vec<T>> = Vec::new();
            r.push(items);
            assert(vec_seqs(r@) =~= seq![s]);
            return r;
        }
        let mut chunks: Vec<Vec<T>> = Vec::new();
        let mut current: Vec<T> = Vec::new();
        for item in it: items
            invariant
                it.seq() == s,
                (vec_seqs(chunks@), current@) == split_state(s.take(it.index() as int), max as nat),
        {
            proof {
                assert(s.take(it.index() + 1).drop_last() =~= s.take(it.index() as int));
            }
            if current.len() >= max {
                let ghost before = vec_seqs(chunks@);
                let ghost cur = current@;
                let mut full: Vec<T> = Vec::new();
                core::mem::swap(&mut full, &mut current);
                chunks.push(full);
                proof {
                    assert(vec_seqs(chunks@) =~= before.push(cur));
                }
            }
            current.push(item);
            proof {
                assert(s.take(it.index() + 1).last() == item);
            }
        }
        proof {
            assert(s.take(s.len() as int) =~= s);
        }
        if current.len() > 0 {
            let ghost before = vec_seqs(chunks@);
            let ghost cur = current@;
            chunks.push(current);
            proof {
                assert(vec_seqs(chunks@) =~= before.push(cur));
            }
        }
        chunks
    }
}

/// `f` turned the chunks `args` (holding `chunks`) into `outs`, whose
/// items laid end to end are `out`.
pub open spec fn ran_with<T, R, F: Fn(Vec<T>) -> Result<Vec<R>, String>>(
    f: F,
    chunks: Seq<Seq<T>>,
    out: Seq<R>,
    args: Seq<Vec<T>>,
    outs: Seq<Vec<R>>,
) -> bool {
    &&& args.len() == chunks.len()
    &&& outs.len() == chunks.len()
    &&& forall|i: int| 0 <= i < chunks.len() ==> (#[trigger] args[i])@ == chunks[i] && f.ensures((args[i],), Ok(outs[i]))
    &&& vec_seqs(outs).flatten() == out
}

/// `f` may turn the chunks `chunks` into `out`: some run of it on each
/// chunk, in order, gave results that laid end to end are `out`.
pub open spec fn ran_all<T, R, F: Fn(Vec<T>) -> Result<Vec<R>, String>>(f: F, chunks: Seq<Seq<T>>, out: Seq<R>) -> bool {
    exists|args: Seq<Vec<T>>, outs: Seq<Vec<R>>| #[trigger] ran_with(f, chunks, out, args, outs)
}

impl BatchProcessor {
    /// Splits `items` into batches and runs `processor` on each in order,
    /// stopping at the first error. On success the results are laid end to
    /// end, and every batch and result item is counted (the counters wrap).
    pub fn process_batch<T, R, F: Fn(Vec<T>) -> Result<Vec<R>, String>>(&mut self, items: Vec<T>, processor: F) -> (r: Result<
        Vec<R>,
        String,
    >)
        requires
            forall|c: Vec<T>| #[trigger] processor.requires((c,)),
        ensures
            ({
                let chunks = chunks_of(items@, old(self).stats_view().max_batch_size as nat);
                let s = old(self).stats_view();
                match r {
                    Ok(out) => {
                        &&& ran_all(processor, chunks, out@)
                        &&& final(self).stats_view() == (BatchProcessorStats {
                            processed_batches: vstd::wrapping::u64_specs::wrapping_add(s.processed_batches, chunks.len() as u64),
                            total_processed_items: vstd::wrapping::u64_specs::wrapping_add(s.total_processed_items, out@.len() as u64),
                            ..s
                        })
                    },
                    Err(e) => {
                        &&& exists|i: int, c: Vec<T>| #![trigger chunks[i], processor.ensures((c,), Err::<Vec<R>, String>(e))]
                            0 <= i < chunks.len() && c@ == chunks[i] && processor.ensures((c,), Err::<Vec<R>, String>(e))
                        &&& final(self).stats_view() == s
                    },
                }
            }),
    {
        let chunks = self.split_into_chunks(items);
        let ghost cs = vec_seqs(chunks@);
        let n = chunks.len();
        let mut results: Vec<R> = Vec::new();
        let ghost mut args: Seq<Vec<T>> = Seq::empty();
        let ghost mut outs: Seq<Vec<R>> = Seq::empty();
        proof {
            assert(vec_seqs(outs) =~= Seq::<Seq<R>>::empty());
            assert(Seq::<Seq<R>>::empty().flatten() =~= Seq::<R>::empty());
        }
        for chunk in it: chunks
            invariant
                vec_seqs(it.seq()) == cs,
                n == cs.len(),
                forall|c: Vec<T>| #[trigger] processor.requires((c,)),
                *self == *old(self),
                cs == chunks_of(items@, self.max_batch_size as nat),
                ran_with(processor, cs.take(it.index() as int), results@, args, outs),
        {
            let ghost cv = chunk;
            let ghost k = it.index() as int;
            proof {
                assert(cv@ == cs[k]);
            }
            match processor(chunk) {
                Ok(mut v) => {
                    let ghost vv = v;
                    let ghost before = results@;
                    results.append(&mut v);
                    proof {
                        let nargs = args.push(cv);
                        let nouts = outs.push(vv);
                        assert(vec_seqs(nouts) =~= vec_seqs(outs).push(vv@));
                        vec_seqs(outs).lemma_flatten_push(vv@);
                        assert(cs.take(k + 1).drop_last() =~= cs.take(k));
                        assert forall|i: int| 0 <= i < k + 1 implies (#[trigger] nargs[i])@ == cs.take(k + 1)[i]
                            && processor.ensures((nargs[i],), Ok(nouts[i])) by {
                            if i < k {
                                assert(nargs[i] == args[i]);
                                assert(nouts[i] == outs[i]);
                            }
                        }
                        args = nargs;
                        outs = nouts;
                    }
                },
                Err(e) => {
                    proof {
                        assert(processor.ensures((cv,), Err::<Vec<R>, String>(e)));
                        assert(0 <= k < cs.len() && cv@ == cs[k]);
                        let chunks = chunks_of(items@, old(self).stats_view().max_batch_size as nat);
                        assert(chunks == cs);
                        assert(exists|i: int, c: Vec<T>| #![trigger chunks[i], processor.ensures((c,), Err::<Vec<R>, String>(e))]
                            0 <= i < chunks.len() && c@ == chunks[i] && processor.ensures((c,), Err::<Vec<R>, String>(e))) by {
                            assert(chunks[k] == cs[k]);
                        }
                    }
                    return Err(e);
                },
            }
        }
        proof {
            assert(cs.take(cs.len() as int) =~= cs);
            assert(ran_with(processor, cs, results@, args, outs));
        }
        self.processed_batches = self.processed_batches.wrapping_add(n as u64);
        self.total_processed_items = self.total_processed_items.wrapping_add(results.len() as u64);
        Ok(results)
    }

    /// Adds `micros` of processing time (the counter wraps).
    pub fn record_processing_time(&mut self, micros: u64)
        ensures
            final(self).stats_view() == (BatchProcessorStats {
                total_processing_time: vstd::wrapping::u64_specs::wrapping_add(old(self).stats_view().total_processing_time, micros),
                ..old(self).stats_view()
            }),
    {
        self.total_processing_time = self.total_processing_time.wrapping_add(micros);
    }

    /// The counts and limits.
    pub fn get_stats(&self) -> (s: BatchProcessorStats)
        ensures
            s == self.stats_view(),
    {
        BatchProcessorStats {
            processed_batches: self.processed_batches,
            total_processed_items: self.total_processed_items,
            total_processing_time: self.total_processing_time,
            max_batch_size: self.max_batch_size,
            max_concurrent_batches: self.max_concurrent_batches,
        }
    }
}

/// A batch processor with a thread-pool size for parallel runs; batches
/// are run in order.
pub struct ParallelBatchProcessor {
    batch_processor: BatchProcessor,
    thread_pool_size: usize,
}

impl ParallelBatchProcessor {
    pub closed spec fn inner(&self) -> BatchProcessor {
        self.batch_processor
    }

    pub closed spec fn threads(&self) -> usize {
        self.thread_pool_size
    }

    /// Nothing processed yet.
    pub fn new(max_batch_size: usize, max_concurrent_batches: usize, thread_pool_size: usize) -> (p: Self)
        ensures
            p.inner().stats_view() == (BatchProcessorStats {
                processed_batches: 0,
                total_processed_items: 0,
                total_processing_time: 0,
                max_batch_size,
                max_concurrent_batches,
            }),
            p.threads() == thread_pool_size,
    {
        ParallelBatchProcessor { batch_processor: BatchProcessor::new(max_batch_size, max_concurrent_batches), thread_pool_size }
    }

    /// Processes `items` as `BatchProcessor::process_batch` does.
    pub fn process_batch_parallel<T, R, F: Fn(Vec<T>) -> Result<Vec<R>, String>>(&mut self, items: Vec<T>, processor: F) -> (r: Result<
        Vec<R>,
        String,
    >)
        requires
            forall|c: Vec<T>| #[trigger] processor.requires((c,)),
        ensures
            final(self).threads() == old(self).threads(),
            ({
                let chunks = chunks_of(items@, old(self).inner().stats_view().max_batch_size as nat);
                let s = old(self).inner().stats_view();
                match r {
                    Ok(out) => {
                        &&& ran_all(processor, chunks, out@)
                        &&& final(self).inner().stats_view() == (BatchProcessorStats {
                            processed_batches: vstd::wrapping::u64_specs::wrapping_add(s.processed_batches, chunks.len() as u64),
                            total_processed_items: vstd::wrapping::u64_specs::wrapping_add(s.total_processed_items, out@.len() as u64),
                            ..s
                        })
                    },
                    Err(e) => {
                        &&& exists|i: int, c: Vec<T>| #![trigger chunks[i], processor.ensures((c,), Err::<Vec<R>, String>(e))]
                            0 <= i < chunks.len() && c@ == chunks[i] && processor.ensures((c,), Err::<Vec<R>, String>(e))
                        &&& final(self).inner().stats_view() == s
                    },
                }
            }),
    {
        let ghost items_v = items@;
        let r = self.batch_processor.process_batch(items, processor);
        proof {
            let chunks = chunks_of(items_v, old(self).inner().stats_view().max_batch_size as nat);
            match &r {
                Ok(out) => {
                    assert(ran_all(processor, chunks, out@));
                },
                Err(e) => {
                    assert(exists|i: int, c: Vec<T>| #![trigger chunks[i], processor.ensures((c,), Err::<Vec<R>, String>(*e))]
                            0 <= i < chunks.len() && c@ == chunks[i] && processor.ensures((c,), Err::<Vec<R>, String>(*e)));
                },
            }
        }
        r
    }

    /// The counts and limits.
    pub fn get_stats(&self) -> (s: BatchProcessorStats)
        ensures
            s == self.inner().stats_view(),
    {
        self.batch_processor.get_stats()
    }
}

/// A pooled transaction after streaming processing: the transaction held
/// in its block (`None` when none was written), marked valid, with the
/// caller's clock reading in milliseconds.
pub struct StreamedTransaction {
    pub transaction: Option<TransactionBlock>,
    pub is_valid: bool,
    pub processing_time_ms: u64,
}

/// Whether `out` is `item` processed at `now_ms`.
pub open spec fn streamed_from(item: PooledItem<TransactionBlock>, out: StreamedTransaction, now_ms: u64) -> bool {
    &&& out.transaction == item.value()
    &&& out.is_valid
    &&& out.processing_time_ms == now_ms
}

fn stream_out(items: Vec<PooledItem<TransactionBlock>>, now_ms: u64) -> (r: Vec<StreamedTransaction>)
    ensures
        r@.len() == items@.len(),
        forall|k: int| 0 <= k < items@.len() ==> streamed_from(items@[k], #[trigger] r@[k], now_ms),
{
    let ghost all = items@;
    let mut r: Vec<StreamedTransaction> = Vec::new();
    for item in it: items
        invariant
            it.seq() == all,
            r@.len() == it.index(),
            forall|k: int| 0 <= k < it.index() ==> streamed_from(all[k], #[trigger] r@[k], now_ms),
    {
        let ghost g = item;
        r.push(StreamedTransaction { transaction: item.into_data(), is_valid: true, processing_time_ms: now_ms });
        proof {
            assert(streamed_from(g, r@[r@.len() - 1], now_ms));
        }
    }
    r
}

/// The message when a stopped streaming processor is sent work.
pub open spec fn not_running_message() -> Seq<char> {
    "Processor is not running"@
}

/// Gathers transactions into batches as they arrive and processes a batch
/// once it holds `max_batch_size` of them; processed transactions queue up
/// for the caller. A batch not yet full waits. The counters reported are
/// those of a processor of its own, which the batches do not go through.
pub struct StreamingBatchProcessor {
    batch_processor: BatchProcessor,
    worker: BatchProcessor,
    pending: Vec<PooledItem<TransactionBlock>>,
    processed: Vec<StreamedTransaction>,
    max_batch_size: usize,
    is_running: bool,
}

impl StreamingBatchProcessor {
    /// The batch being gathered.
    pub closed spec fn pending_items(&self) -> Seq<PooledItem<TransactionBlock>> {
        self.pending@
    }

    /// Processed transactions not yet received, oldest first.
    pub closed spec fn outputs(&self) -> Seq<StreamedTransaction> {
        self.processed@
    }

    /// Whether it takes work.
    pub closed spec fn running(&self) -> bool {
        self.is_running
    }

    /// The size at which a batch is processed.
    pub closed spec fn batch_size(&self) -> nat {
        self.max_batch_size as nat
    }

    /// The counters it reports.
    pub closed spec fn reported(&self) -> BatchProcessorStats {
        self.batch_processor.stats_view()
    }

    /// A running processor with nothing gathered or processed.
    pub fn new(max_batch_size: usize, max_concurrent_batches: usize) -> (p: Self)
        ensures
            p.running(),
            p.pending_items().len() == 0,
            p.outputs().len() == 0,
            p.batch_size() == max_batch_size,
            p.reported() == (BatchProcessorStats {
                processed_batches: 0,
                total_processed_items: 0,
                total_processing_time: 0,
                max_batch_size,
                max_concurrent_batches,
            }),
    {
        StreamingBatchProcessor {
            batch_processor: BatchProcessor::new(max_batch_size, max_concurrent_batches),
            worker: BatchProcessor::new(max_batch_size, max_concurrent_batches),
            pending: Vec::new(),
            processed: Vec::new(),
            max_batch_size,
            is_running: true,
        }
    }

    /// Adds `transaction` to the batch at `now_ms`; a batch that reaches
    /// the batch size is processed, its results queued. Refused once
    /// stopped.
    pub fn send_transaction(&mut self, transaction: PooledItem<TransactionBlock>, now_ms: u64) -> (r: Result<(), String>)
        ensures
            final(self).running() == old(self).running(),
            final(self).batch_size() == old(self).batch_size(),
            final(self).reported() == old(self).reported(),
            r is Ok <==> old(self).running(),
            match r {
                Ok(_) => {
                    let batch = old(self).pending_items().push(transaction);
                    if batch.len() >= old(self).batch_size() {
                        &&& final(self).pending_items().len() == 0
                        &&& final(self).outputs().len() == old(self).outputs().len() + batch.len()
                        &&& final(self).outputs().subrange(0, old(self).outputs().len() as int) == old(self).outputs()
                        &&& forall|k: int| 0 <= k < batch.len() ==>
                            streamed_from(batch[k], #[trigger] final(self).outputs()[old(self).outputs().len() + k], now_ms)
                    } else {
                        &&& final(self).pending_items() == batch
                        &&& final(self).outputs() == old(self).outputs()
                    }
                },
                Err(e) => {
                    &&& e@ == not_running_message()
                    &&& final(self).pending_items() == old(self).pending_items()
                    &&& final(self).outputs() == old(self).outputs()
                },
            },
    {
        if !self.is_running {
            return Err(owned("Processor is not running"));
        }
        self.pending.push(transaction);
        if self.pending.len() >= self.max_batch_size {
            let mut batch: Vec<PooledItem<TransactionBlock>> = Vec::new();
            core::mem::swap(&mut batch, &mut self.pending);
            let ghost bs = batch@;
            let processor = |items: Vec<PooledItem<TransactionBlock>>| -> (r: Result<Vec<StreamedTransaction>, String>)
                ensures
                    r matches Ok(v) && v@.len() == items@.len()
                        && forall|k: int| 0 <= k < items@.len() ==> streamed_from(items@[k], #[trigger] v@[k], now_ms),
            {
                Ok(stream_out(items, now_ms))
            };
            let ghost max = self.worker.stats_view().max_batch_size as nat;
            match self.worker.process_batch(batch, processor) {
                Ok(out) => {
                    let ghost before = self.processed@;
                    let ghost ov = out@;
                    proof {
                        let chunks = chunks_of(bs, max);
                        let (args, outs) = choose|args: Seq<Vec<PooledItem<TransactionBlock>>>, outs: Seq<Vec<StreamedTransaction>>|
                            #[trigger] ran_with(processor, chunks, out@, args, outs);
                        let os = vec_seqs(outs);
                        assert forall|i: int| 0 <= i < chunks.len() implies (#[trigger] os[i]).len() == chunks[i].len() by {
                            assert(args[i]@ == chunks[i]);
                            assert(processor.ensures((args[i],), Ok(outs[i])));
                        }
                        let rel = |a: PooledItem<TransactionBlock>, b: StreamedTransaction| streamed_from(a, b, now_ms);
                        assert forall|i: int, k: int| 0 <= i < chunks.len() && 0 <= k < chunks[i].len() implies rel(chunks[i][k], #[trigger] os[i][k]) by {
                            assert(args[i]@ == chunks[i]);
                            assert(processor.ensures((args[i],), Ok(outs[i])));
                            assert(os[i] == outs[i]@);
                        }
                        lemma_flatten_pairwise(chunks, os, rel);
                        lemma_chunks_of(bs, max);
                        assert(forall|k: int| 0 <= k < bs.len() ==> rel(bs[k], #[trigger] ov[k]));
                    }
                    let mut out = out;
                    self.processed.append(&mut out);
                    proof {
                        assert(self.processed@ =~= before + ov);
                        assert(self.processed@.subrange(0, before.len() as int) =~= before);
                        assert forall|k: int| 0 <= k < bs.len() implies
                            streamed_from(bs[k], #[trigger] self.processed@[before.len() + k], now_ms) by {
                            assert(self.processed@[before.len() + k] == ov[k]);
                        }
                    }
                },
                Err(e) => {
                    proof {
                        let chunks = chunks_of(bs, max);
                        let (i, c) = choose|i: int, c: Vec<PooledItem<TransactionBlock>>| #![trigger chunks[i], processor.ensures((c,), Err::<Vec<StreamedTransaction>, String>(e))]
                            0 <= i < chunks.len() && c@ == chunks[i] && processor.ensures((c,), Err::<Vec<StreamedTransaction>, String>(e));
                        assert(false);
                    }
                },
            }
        }
        Ok(())
    }

    /// The oldest processed transaction not yet received, if any.
    pub fn receive_processed(&mut self) -> (r: Option<StreamedTransaction>)
        ensures
            final(self).running() == old(self).running(),
            final(self).pending_items() == old(self).pending_items(),
            final(self).reported() == old(self).reported(),
            final(self).batch_size() == old(self).batch_size(),
            if old(self).outputs().len() > 0 {
                r == Some(old(self).outputs()[0]) && final(self).outputs() == old(self).outputs().drop_first()
            } else {
                r is None && final(self).outputs() == old(self).outputs()
            },
    {
        if self.processed.len() > 0 {
            let x = self.processed.remove(0);
            proof {
                assert(self.processed@ =~= old(self).outputs().drop_first());
            }
            Some(x)
        } else {
            None
        }
    }

    /// Stops taking work.
    pub fn stop(&mut self)
        ensures
            !final(self).running(),
            final(self).pending_items() == old(self).pending_items(),
            final(self).outputs() == old(self).outputs(),
            final(self).reported() == old(self).reported(),
            final(self).batch_size() == old(self).batch_size(),
    {
        self.is_running = false;
    }

    /// The counters it reports.
    pub fn get_stats(&self) -> (s: BatchProcessorStats)
        ensures
            s == self.reported(),
    {
        self.batch_processor.get_stats()
    }
}

/// Runs batches in parallel when configured to, else hands all items to
/// the processor at once.
pub struct BatchProcessingManager {
    config: BatchProcessingConfig,
    parallel_processor: ParallelBatchProcessor,
    streaming_processor: Option<StreamingBatchProcessor>,
}

impl BatchProcessingManager {
    pub closed spec fn config_view(&self) -> BatchProcessingConfig {
        self.config
    }

    pub closed spec fn processor(&self) -> ParallelBatchProcessor {
        self.parallel_processor
    }

    /// Whether a streaming processor was set up.
    pub closed spec fn has_streaming(&self) -> bool {
        self.streaming_processor is Some
    }

    /// A manager with `config` and nothing processed yet.
    pub fn new(config: BatchProcessingConfig) -> (m: Self)
        ensures
            m.config_view() == config,
            m.processor().threads() == config.thread_pool_size,
            m.has_streaming() == config.enable_streaming,
            m.processor().inner().stats_view() == (BatchProcessorStats {
                processed_batches: 0,
                total_processed_items: 0,
                total_processing_time: 0,
                max_batch_size: config.max_batch_size,
                max_concurrent_batches: config.max_concurrent_batches,
            }),
    {
        let parallel_processor = ParallelBatchProcessor::new(
            config.max_batch_size,
            config.max_concurrent_batches,
            config.thread_pool_size,
        );
        let streaming_processor = if config.enable_streaming {
            Some(StreamingBatchProcessor::new(config.max_batch_size, config.max_concurrent_batches))
        } else {
            None
        };
        BatchProcessingManager { config, parallel_processor, streaming_processor }
    }

    /// Processes `transactions` in batches when parallel processing is on,
    /// else by one call of `processor` on all of them.
    pub fn process_transactions<T, R, F: Fn(Vec<T>) -> Result<Vec<R>, String>>(&mut self, transactions: Vec<T>, processor: F) -> (r: Result<
        Vec<R>,
        String,
    >)
        requires
            forall|c: Vec<T>| #[trigger] processor.requires((c,)),
        ensures
            final(self).config_view() == old(self).config_view(),
            !old(self).config_view().enable_parallel_processing ==> processor.ensures((transactions,), r)
                && final(self).processor() == old(self).processor(),
            old(self).config_view().enable_parallel_processing ==> ({
                let chunks = chunks_of(transactions@, old(self).processor().inner().stats_view().max_batch_size as nat);
                match r {
                    Ok(out) => ran_all(processor, chunks, out@),
                    Err(e) => exists|i: int, c: Vec<T>| #![trigger chunks[i], processor.ensures((c,), Err::<Vec<R>, String>(e))]
                        0 <= i < chunks.len() && c@ == chunks[i] && processor.ensures((c,), Err::<Vec<R>, String>(e)),
                }
            }),
    {
        if self.config.enable_parallel_processing {
            let ghost items_v = transactions@;
            let r = self.parallel_processor.process_batch_parallel(transactions, processor);
            proof {
                let chunks = chunks_of(items_v, old(self).processor().inner().stats_view().max_batch_size as nat);
                match &r {
                    Ok(out) => {
                        assert(ran_all(processor, chunks, out@));
                    },
                    Err(e) => {
                        assert(exists|i: int, c: Vec<T>| #![trigger chunks[i], processor.ensures((c,), Err::<Vec<R>, String>(*e))]
                            0 <= i < chunks.len() && c@ == chunks[i] && processor.ensures((c,), Err::<Vec<R>, String>(*e)));
                    },
                }
            }
            r
        } else {
            processor(transactions)
        }
    }

    /// The counts and limits of the batch processor.
    pub fn get_stats(&self) -> (s: BatchProcessorStats)
        ensures
            s == self.processor().inner().stats_view(),
    {
        self.parallel_processor.get_stats()
    }

    /// The configuration.
    pub fn get_config(&self) -> (c: &BatchProcessingConfig)
        ensures
            *c == self.config_view(),
    {
        &self.config
    }
}

} // verus!
