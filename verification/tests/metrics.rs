use ippan::metrics::PerformanceMetrics;
use ippan::node_types::ErrorType;

#[test]
fn test_performance_metrics() {
    let mut metrics = PerformanceMetrics::new();

    metrics.record_transaction(10_000, 0);
    metrics.record_transaction(20_000, 0);
    metrics.record_transaction(15_000, 0);

    metrics.record_block(0);
    metrics.record_block(0);

    metrics.record_network_send(1024);
    metrics.record_network_receive(2048);

    metrics.record_memory_usage(1024 * 1024);

    metrics.record_cache_hit();
    metrics.record_cache_miss();

    metrics.record_consensus_round(50_000);

    metrics.record_error(ErrorType::Validation);
    metrics.record_error(ErrorType::Network);

    let summary = metrics.get_summary(0);
    assert_eq!(summary.transactions_processed, 3);
    assert_eq!(summary.blocks_processed, 2);
    assert_eq!(summary.memory_usage, 1024 * 1024);
    assert_eq!(summary.cache_hit_rate, 1);
    assert_eq!(summary.cache_miss_rate, 1);
    assert_eq!(summary.error_count, 2);
}

#[test]
fn rates_averages_and_peaks() {
    let mut m = PerformanceMetrics::new();
    m.record_transaction(100, 0);
    assert_eq!(m.transactions_per_second, 0);
    m.record_transaction(300, 1);
    assert_eq!(m.transactions_per_second, 2);
    assert_eq!(m.peak_tps, 2);
    assert_eq!(m.average_processing_time, 200);
    assert_eq!(m.peak_processing_time, 300);
    m.record_transaction(50, 3);
    assert_eq!(m.transactions_per_second, 1);
    assert_eq!(m.peak_tps, 2);
    m.record_block(2);
    assert_eq!(m.blocks_per_second, 0);
    m.record_memory_usage(10);
    m.record_memory_usage(5);
    assert_eq!(m.peak_memory_usage, 10);
    assert_eq!(m.memory_usage, 5);
    m.record_error(ErrorType::Consensus);
    assert_eq!((m.consensus_errors, m.validation_errors, m.error_count), (1, 0, 1));
}

#[test]
fn custom_metrics_accumulate_and_reset_keeps_them() {
    let mut m = PerformanceMetrics::new();
    m.record_custom_metric("a".to_string(), 2);
    m.record_custom_metric("b".to_string(), 1);
    m.record_custom_metric("a".to_string(), 3);
    let d = m.get_detailed_metrics(7);
    assert_eq!(d.summary.uptime_ms, 7);
    assert_eq!(d.custom_metrics, vec![("a".to_string(), 5), ("b".to_string(), 1)]);
    m.record_network_send(9);
    m.reset();
    assert_eq!(m.bytes_sent, 0);
    assert_eq!(m.custom_metrics.len(), 2);
}
