//! Requests, responses and settings of a node.

use vstd::prelude::*;

verus! {

/// Answer to a health check.
#[derive(Debug)]
pub struct HealthResponse {
    pub status: String,
    pub peers: usize,
    pub mempool_size: usize,
    pub round_id: u64,
    pub uptime_seconds: u64,
}

/// A transaction to submit, hex-encoded.
#[derive(Debug)]
pub struct SubmitTransactionRequest {
    pub transaction: String,
}

/// Outcome of a submission; `tx_id` is hex-encoded.
#[derive(Debug)]
pub struct SubmitTransactionResponse {
    pub success: bool,
    pub message: String,
    pub tx_id: Option<String>,
}

/// How a node keeps and syncs history. `T` is the kind of transaction that
/// can be chosen for syncing.
#[derive(Debug)]
pub struct NodeConfig<T> {
    pub archive_mode: bool,
    pub sync_target: Option<String>,
    pub sync_interval_secs: u64,
    pub tx_types_to_sync: Vec<T>,
}

impl<T> NodeConfig<T> {
    /// A configuration with exactly the given settings.
    pub fn new(archive_mode: bool, sync_target: Option<String>, sync_interval_secs: u64, tx_types_to_sync: Vec<T>) -> (c: Self)
        ensures
            c.archive_mode == archive_mode,
            c.sync_target == sync_target,
            c.sync_interval_secs == sync_interval_secs,
            c.tx_types_to_sync == tx_types_to_sync,
    {
        NodeConfig { archive_mode, sync_target, sync_interval_secs, tx_types_to_sync }
    }
}

/// Request for peers, from node `node_id` at `timestamp`.
#[derive(Debug, Clone, Copy)]
pub struct PeerDiscoveryMessage {
    pub node_id: [u8; 32],
    pub timestamp: u64,
}

/// Request for a peer list, from node `node_id` at `timestamp`.
#[derive(Debug, Clone, Copy)]
pub struct GetPeersMessage {
    pub node_id: [u8; 32],
    pub timestamp: u64,
}

/// Direction of relayed data.
#[derive(Debug, Clone, Copy, PartialEq, Eq, Structural)]
pub enum RelayDirection {
    Inbound,
    Outbound,
}

/// Relay settings; `connection_timeout_ms` is in milliseconds.
#[derive(Debug, Clone, Copy)]
pub struct RelayConfig {
    pub max_connections: usize,
    pub connection_timeout_ms: u64,
    pub buffer_size: usize,
    pub enabled: bool,
}

impl Default for RelayConfig {
    /// 100 connections, a five-minute timeout, 8 KiB buffers, enabled.
    fn default() -> (c: Self)
        ensures
            c.max_connections == 100,
            c.connection_timeout_ms == 300000,
            c.buffer_size == 8192,
            c.enabled,
    {
        RelayConfig { max_connections: 100, connection_timeout_ms: 300000, buffer_size: 8192, enabled: true }
    }
}

/// Relay counts.
#[derive(Debug, Clone, Copy)]
pub struct RelayStats {
    pub total_connections: usize,
    pub active_connections: usize,
    pub total_bytes_transferred: u64,
    pub max_connections: usize,
}

/// Counts of a batch processor; `total_processing_time` is in
/// milliseconds.
#[derive(Debug, Clone, Copy)]
pub struct BatchProcessorStats {
    pub processed_batches: u64,
    pub total_processed_items: u64,
    pub total_processing_time: u64,
    pub max_batch_size: usize,
    pub max_concurrent_batches: usize,
}

/// Settings of batch processing; `batch_timeout_ms` is in milliseconds.
#[derive(Debug, Clone, Copy)]
pub struct BatchProcessingConfig {
    pub max_batch_size: usize,
    pub max_concurrent_batches: usize,
    pub thread_pool_size: usize,
    pub enable_parallel_processing: bool,
    pub enable_streaming: bool,
    pub batch_timeout_ms: u64,
}

/// Kinds of error counted by the metrics.
#[derive(Debug, Clone, Copy, PartialEq, Eq, Structural)]
pub enum ErrorType {
    Validation,
    Network,
    Consensus,
}

/// A snapshot of the performance counters; `uptime_ms` is in
/// milliseconds, the latencies and processing times in the unit they were
/// recorded in.
#[derive(Debug, Clone, Copy)]
pub struct PerformanceSummary {
    pub uptime_ms: u64,
    pub transactions_processed: u64,
    pub blocks_processed: u64,
    pub current_tps: u64,
    pub peak_tps: u64,
    pub current_bps: u64,
    pub peak_bps: u64,
    pub memory_usage: usize,
    pub peak_memory_usage: usize,
    pub cache_hit_rate: u64,
    pub cache_miss_rate: u64,
    pub error_count: u64,
    pub network_latency: u64,
    pub consensus_latency: u64,
    pub average_processing_time: u64,
    pub peak_processing_time: u64,
}

/// The summary with the named custom metrics.
#[derive(Debug)]
pub struct DetailedMetrics {
    pub summary: PerformanceSummary,
    pub custom_metrics: Vec<(String, u64)>,
}

} // verus!
