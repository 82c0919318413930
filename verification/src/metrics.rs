//! Performance counters: transactions, blocks, network, memory, cache,
//! consensus and errors, with rates and peaks. Counters wrap as atomic
//! counters do. Times are passed in: processing times and latencies in
//! microseconds, the time since the counters started in whole seconds or
//! milliseconds.

use vstd::prelude::*;
use vstd::wrapping::u64_specs::wrapping_add;
use crate::node_types::{DetailedMetrics, ErrorType, PerformanceSummary};

verus! {

/// The performance counters.
#[derive(Debug)]
pub struct PerformanceMetrics {
    pub transactions_processed: u64,
    pub transactions_per_second: u64,
    pub peak_tps: u64,
    pub average_tps: u64,
    pub blocks_processed: u64,
    pub blocks_per_second: u64,
    pub peak_bps: u64,
    pub average_bps: u64,
    pub messages_sent: u64,
    pub messages_received: u64,
    pub bytes_sent: u64,
    pub bytes_received: u64,
    pub network_latency: u64,
    pub memory_usage: usize,
    pub peak_memory_usage: usize,
    pub cache_hit_rate: u64,
    pub cache_miss_rate: u64,
    pub consensus_rounds: u64,
    pub consensus_latency: u64,
    pub validator_count: usize,
    pub active_validators: usize,
    pub error_count: u64,
    pub validation_errors: u64,
    pub network_errors: u64,
    pub consensus_errors: u64,
    pub total_processing_time: u64,
    pub average_processing_time: u64,
    pub peak_processing_time: u64,
    pub custom_metrics: Vec<(String, u64)>,
}

/// Named custom metrics as text.
pub open spec fn named_values(s: Seq<(String, u64)>) -> Seq<(Seq<char>, u64)> {
    s.map_values(|p: (String, u64)| (p.0@, p.1))
}

/// `s` with `value` added to metric `name` (wrapping), or the metric
/// appended with that value.
pub open spec fn add_metric(s: Seq<(Seq<char>, u64)>, name: Seq<char>, value: u64) -> Seq<(Seq<char>, u64)> {
    match s.map_values(|p: (Seq<char>, u64)| p.0).index_of_first(name) {
        Some(i) => s.update(i, (name, wrapping_add(s[i].1, value))),
        None => s.push((name, value)),
    }
}

/// Every counter is zero.
pub open spec fn all_zero(m: PerformanceMetrics) -> bool {
    &&& m.transactions_processed == 0 && m.transactions_per_second == 0 && m.peak_tps == 0 && m.average_tps == 0
    &&& m.blocks_processed == 0 && m.blocks_per_second == 0 && m.peak_bps == 0 && m.average_bps == 0
    &&& m.messages_sent == 0 && m.messages_received == 0 && m.bytes_sent == 0 && m.bytes_received == 0
    &&& m.network_latency == 0 && m.memory_usage == 0 && m.peak_memory_usage == 0
    &&& m.cache_hit_rate == 0 && m.cache_miss_rate == 0
    &&& m.consensus_rounds == 0 && m.consensus_latency == 0 && m.validator_count == 0 && m.active_validators == 0
    &&& m.error_count == 0 && m.validation_errors == 0 && m.network_errors == 0 && m.consensus_errors == 0
    &&& m.total_processing_time == 0 && m.average_processing_time == 0 && m.peak_processing_time == 0
}

impl PerformanceMetrics {
    /// The custom metrics, in the order they were first recorded.
    pub open spec fn custom(&self) -> Seq<(Seq<char>, u64)> {
        named_values(self.custom_metrics@)
    }

    /// All counters at zero, no custom metrics.
    pub fn new() -> (m: Self)
        ensures
            all_zero(m),
            m.custom().len() == 0,
    {
        let m = PerformanceMetrics {
            transactions_processed: 0,
            transactions_per_second: 0,
            peak_tps: 0,
            average_tps: 0,
            blocks_processed: 0,
            blocks_per_second: 0,
            peak_bps: 0,
            average_bps: 0,
            messages_sent: 0,
            messages_received: 0,
            bytes_sent: 0,
            bytes_received: 0,
            network_latency: 0,
            memory_usage: 0,
            peak_memory_usage: 0,
            cache_hit_rate: 0,
            cache_miss_rate: 0,
            consensus_rounds: 0,
            consensus_latency: 0,
            validator_count: 0,
            active_validators: 0,
            error_count: 0,
            validation_errors: 0,
            network_errors: 0,
            consensus_errors: 0,
            total_processing_time: 0,
            average_processing_time: 0,
            peak_processing_time: 0,
            custom_metrics: Vec::new(),
        };
        assert(named_values(m.custom_metrics@) =~= Seq::empty());
        m
    }

    /// Counts a transaction that took `processing_time_us`, `elapsed_secs`
    /// whole seconds after the counters started: the rate (transactions
    /// per elapsed second) and its peak once a second has passed, the
    /// average and peak processing time.
    pub fn record_transaction(&mut self, processing_time_us: u64, elapsed_secs: u64)
        ensures
            ({
                let n = wrapping_add(old(self).transactions_processed, 1);
                let total = wrapping_add(old(self).total_processing_time, processing_time_us);
                let tps = if elapsed_secs > 0 { n / elapsed_secs } else { old(self).transactions_per_second };
                &&& final(self).transactions_processed == n
                &&& final(self).total_processing_time == total
                &&& final(self).transactions_per_second == tps
                &&& final(self).peak_tps == (if elapsed_secs > 0 && tps > old(self).peak_tps { tps } else { old(self).peak_tps })
                &&& final(self).average_processing_time == (if n > 0 { total / n } else { old(self).average_processing_time })
                &&& final(self).peak_processing_time == (if processing_time_us > old(self).peak_processing_time {
                    processing_time_us
                } else {
                    old(self).peak_processing_time
                })
                &&& *final(self) == (PerformanceMetrics {
                    transactions_processed: final(self).transactions_processed,
                    total_processing_time: final(self).total_processing_time,
                    transactions_per_second: final(self).transactions_per_second,
                    peak_tps: final(self).peak_tps,
                    average_processing_time: final(self).average_processing_time,
                    peak_processing_time: final(self).peak_processing_time,
                    ..*old(self)
                })
            }),
    {
        self.transactions_processed = self.transactions_processed.wrapping_add(1);
        self.total_processing_time = self.total_processing_time.wrapping_add(processing_time_us);
        if elapsed_secs > 0 {
            let tps = self.transactions_processed / elapsed_secs;
            self.transactions_per_second = tps;
            if tps > self.peak_tps {
                self.peak_tps = tps;
            }
        }
        if self.transactions_processed > 0 {
            self.average_processing_time = self.total_processing_time / self.transactions_processed;
        }
        if processing_time_us > self.peak_processing_time {
            self.peak_processing_time = processing_time_us;
        }
    }

    /// Counts a block, `elapsed_secs` whole seconds after the counters
    /// started: the rate (blocks per elapsed second) and its peak once a
    /// second has passed.
    pub fn record_block(&mut self, elapsed_secs: u64)
        ensures
            ({
                let n = wrapping_add(old(self).blocks_processed, 1);
                let bps = if elapsed_secs > 0 { n / elapsed_secs } else { old(self).blocks_per_second };
                *final(self) == (PerformanceMetrics {
                    blocks_processed: n,
                    blocks_per_second: bps,
                    peak_bps: if elapsed_secs > 0 && bps > old(self).peak_bps { bps } else { old(self).peak_bps },
                    ..*old(self)
                })
            }),
    {
        self.blocks_processed = self.blocks_processed.wrapping_add(1);
        if elapsed_secs > 0 {
            let bps = self.blocks_processed / elapsed_secs;
            self.blocks_per_second = bps;
            if bps > self.peak_bps {
                self.peak_bps = bps;
            }
        }
    }

    /// Counts a message of `bytes` bytes sent.
    pub fn record_network_send(&mut self, bytes: u64)
        ensures
            *final(self) == (PerformanceMetrics {
                messages_sent: wrapping_add(old(self).messages_sent, 1),
                bytes_sent: wrapping_add(old(self).bytes_sent, bytes),
                ..*old(self)
            }),
    {
        self.messages_sent = self.messages_sent.wrapping_add(1);
        self.bytes_sent = self.bytes_sent.wrapping_add(bytes);
    }

    /// Counts a message of `bytes` bytes received.
    pub fn record_network_receive(&mut self, bytes: u64)
        ensures
            *final(self) == (PerformanceMetrics {
                messages_received: wrapping_add(old(self).messages_received, 1),
                bytes_received: wrapping_add(old(self).bytes_received, bytes),
                ..*old(self)
            }),
    {
        self.messages_received = self.messages_received.wrapping_add(1);
        self.bytes_received = self.bytes_received.wrapping_add(bytes);
    }

    /// Records the latest network latency.
    pub fn record_network_latency(&mut self, latency_us: u64)
        ensures
            *final(self) == (PerformanceMetrics { network_latency: latency_us, ..*old(self) }),
    {
        self.network_latency = latency_us;
    }

    /// Records the memory in use and its peak.
    pub fn record_memory_usage(&mut self, usage: usize)
        ensures
            *final(self) == (PerformanceMetrics {
                memory_usage: usage,
                peak_memory_usage: if usage > old(self).peak_memory_usage { usage } else { old(self).peak_memory_usage },
                ..*old(self)
            }),
    {
        self.memory_usage = usage;
        if usage > self.peak_memory_usage {
            self.peak_memory_usage = usage;
        }
    }

    /// Counts a cache hit.
    pub fn record_cache_hit(&mut self)
        ensures
            *final(self) == (PerformanceMetrics { cache_hit_rate: wrapping_add(old(self).cache_hit_rate, 1), ..*old(self) }),
    {
        self.cache_hit_rate = self.cache_hit_rate.wrapping_add(1);
    }

    /// Counts a cache miss.
    pub fn record_cache_miss(&mut self)
        ensures
            *final(self) == (PerformanceMetrics { cache_miss_rate: wrapping_add(old(self).cache_miss_rate, 1), ..*old(self) }),
    {
        self.cache_miss_rate = self.cache_miss_rate.wrapping_add(1);
    }

    /// Counts a consensus round and records its latency.
    pub fn record_consensus_round(&mut self, latency_us: u64)
        ensures
            *final(self) == (PerformanceMetrics {
                consensus_rounds: wrapping_add(old(self).consensus_rounds, 1),
                consensus_latency: latency_us,
                ..*old(self)
            }),
    {
        self.consensus_rounds = self.consensus_rounds.wrapping_add(1);
        self.consensus_latency = latency_us;
    }

    /// Records the number of validators.
    pub fn record_validator_count(&mut self, count: usize)
        ensures
            *final(self) == (PerformanceMetrics { validator_count: count, ..*old(self) }),
    {
        self.validator_count = count;
    }

    /// Records the number of active validators.
    pub fn record_active_validators(&mut self, count: usize)
        ensures
            *final(self) == (PerformanceMetrics { active_validators: count, ..*old(self) }),
    {
        self.active_validators = count;
    }

    /// Counts an error, in total and by kind.
    pub fn record_error(&mut self, error_type: ErrorType)
        ensures
            *final(self) == (PerformanceMetrics {
                error_count: wrapping_add(old(self).error_count, 1),
                validation_errors: if error_type == ErrorType::Validation {
                    wrapping_add(old(self).validation_errors, 1)
                } else {
                    old(self).validation_errors
                },
                network_errors: if error_type == ErrorType::Network {
                    wrapping_add(old(self).network_errors, 1)
                } else {
                    old(self).network_errors
                },
                consensus_errors: if error_type == ErrorType::Consensus {
                    wrapping_add(old(self).consensus_errors, 1)
                } else {
                    old(self).consensus_errors
                },
                ..*old(self)
            }),
    {
        self.error_count = self.error_count.wrapping_add(1);
        match error_type {
            ErrorType::Validation => self.validation_errors = self.validation_errors.wrapping_add(1),
            ErrorType::Network => self.network_errors = self.network_errors.wrapping_add(1),
            ErrorType::Consensus => self.consensus_errors = self.consensus_errors.wrapping_add(1),
        }
    }

    /// Adds `value` to custom metric `name` (wrapping), or starts it at
    /// `value`.
    pub fn record_custom_metric(&mut self, name: String, value: u64)
        ensures
            final(self).custom() == add_metric(old(self).custom(), name@, value),
            *final(self) == (PerformanceMetrics { custom_metrics: final(self).custom_metrics, ..*old(self) }),
    {
        let ghost before = named_values(self.custom_metrics@);
        let ghost ks = before.map_values(|p: (Seq<char>, u64)| p.0);
        let mut i: usize = 0;
        while i < self.custom_metrics.len()
            invariant
                i <= self.custom_metrics@.len(),
                before == named_values(self.custom_metrics@),
                ks == before.map_values(|p: (Seq<char>, u64)| p.0),
                *self == *old(self),
                forall|j: int| 0 <= j < i ==> ks[j] != name@,
            decreases self.custom_metrics@.len() - i,
        {
            if self.custom_metrics[i].0 == name {
                proof {
                    ks.index_of_first_ensures(name@);
                    assert(ks[i as int] == name@);
                    let f = ks.index_of_first(name@)->0;
                    assert(f == i);
                }
                let (k, v) = self.custom_metrics.remove(i);
                let nv = v.wrapping_add(value);
                let ghost kv = k@;
                self.custom_metrics.insert(i, (k, nv));
                proof {
                    assert(named_values(self.custom_metrics@) =~= before.update(i as int, (kv, nv)));
                }
                return;
            }
            i = i + 1;
        }
        proof {
            ks.index_of_first_ensures(name@);
            if ks.contains(name@) {
                let j = choose|j: int| 0 <= j < ks.len() && ks[j] == name@;
                assert(ks[j] == name@);
            }
        }
        let ghost nm = name@;
        self.custom_metrics.push((name, value));
        proof {
            assert(named_values(self.custom_metrics@) =~= before.push((nm, value)));
        }
    }

    /// A snapshot of the counters, `uptime_ms` after they started.
    pub fn get_summary(&self, uptime_ms: u64) -> (s: PerformanceSummary)
        ensures
            s == (PerformanceSummary {
                uptime_ms,
                transactions_processed: self.transactions_processed,
                blocks_processed: self.blocks_processed,
                current_tps: self.transactions_per_second,
                peak_tps: self.peak_tps,
                current_bps: self.blocks_per_second,
                peak_bps: self.peak_bps,
                memory_usage: self.memory_usage,
                peak_memory_usage: self.peak_memory_usage,
                cache_hit_rate: self.cache_hit_rate,
                cache_miss_rate: self.cache_miss_rate,
                error_count: self.error_count,
                network_latency: self.network_latency,
                consensus_latency: self.consensus_latency,
                average_processing_time: self.average_processing_time,
                peak_processing_time: self.peak_processing_time,
            }),
    {
        PerformanceSummary {
            uptime_ms,
            transactions_processed: self.transactions_processed,
            blocks_processed: self.blocks_processed,
            current_tps: self.transactions_per_second,
            peak_tps: self.peak_tps,
            current_bps: self.blocks_per_second,
            peak_bps: self.peak_bps,
            memory_usage: self.memory_usage,
            peak_memory_usage: self.peak_memory_usage,
            cache_hit_rate: self.cache_hit_rate,
            cache_miss_rate: self.cache_miss_rate,
            error_count: self.error_count,
            network_latency: self.network_latency,
            consensus_latency: self.consensus_latency,
            average_processing_time: self.average_processing_time,
            peak_processing_time: self.peak_processing_time,
        }
    }

    /// The snapshot with copies of the custom metrics.
    pub fn get_detailed_metrics(&self, uptime_ms: u64) -> (d: DetailedMetrics)
        ensures
            d.summary == self.get_summary_spec(uptime_ms),
            named_values(d.custom_metrics@) == self.custom(),
    {
        let summary = self.get_summary(uptime_ms);
        let mut custom_metrics: Vec<(String, u64)> = Vec::new();
        let mut i: usize = 0;
        while i < self.custom_metrics.len()
            invariant
                i <= self.custom_metrics@.len(),
                named_values(custom_metrics@) == named_values(self.custom_metrics@.take(i as int)),
            decreases self.custom_metrics@.len() - i,
        {
            let k = self.custom_metrics[i].0.clone();
            let v = self.custom_metrics[i].1;
            let ghost before = named_values(custom_metrics@);
            let ghost kv = k@;
            custom_metrics.push((k, v));
            proof {
                assert(named_values(custom_metrics@) =~= before.push((kv, v)));
                assert(named_values(self.custom_metrics@.take(i + 1)) =~= named_values(self.custom_metrics@.take(i as int)).push((kv, v)));
            }
            i = i + 1;
        }
        proof {
            assert(self.custom_metrics@.take(i as int) =~= self.custom_metrics@);
        }
        DetailedMetrics { summary, custom_metrics }
    }

    /// The snapshot `get_summary` gives.
    pub open spec fn get_summary_spec(&self, uptime_ms: u64) -> PerformanceSummary {
        PerformanceSummary {
            uptime_ms,
            transactions_processed: self.transactions_processed,
            blocks_processed: self.blocks_processed,
            current_tps: self.transactions_per_second,
            peak_tps: self.peak_tps,
            current_bps: self.blocks_per_second,
            peak_bps: self.peak_bps,
            memory_usage: self.memory_usage,
            peak_memory_usage: self.peak_memory_usage,
            cache_hit_rate: self.cache_hit_rate,
            cache_miss_rate: self.cache_miss_rate,
            error_count: self.error_count,
            network_latency: self.network_latency,
            consensus_latency: self.consensus_latency,
            average_processing_time: self.average_processing_time,
            peak_processing_time: self.peak_processing_time,
        }
    }

    /// Sets every counter back to zero; the custom metrics stay.
    pub fn reset(&mut self)
        ensures
            all_zero(*final(self)),
            final(self).custom_metrics == old(self).custom_metrics,
    {
        self.transactions_processed = 0;
        self.transactions_per_second = 0;
        self.peak_tps = 0;
        self.average_tps = 0;
        self.blocks_processed = 0;
        self.blocks_per_second = 0;
        self.peak_bps = 0;
        self.average_bps = 0;
        self.messages_sent = 0;
        self.messages_received = 0;
        self.bytes_sent = 0;
        self.bytes_received = 0;
        self.network_latency = 0;
        self.memory_usage = 0;
        self.peak_memory_usage = 0;
        self.cache_hit_rate = 0;
        self.cache_miss_rate = 0;
        self.consensus_rounds = 0;
        self.consensus_latency = 0;
        self.validator_count = 0;
        self.active_validators = 0;
        self.error_count = 0;
        self.validation_errors = 0;
        self.network_errors = 0;
        self.consensus_errors = 0;
        self.total_processing_time = 0;
        self.average_processing_time = 0;
        self.peak_processing_time = 0;
    }
}

} // verus!
