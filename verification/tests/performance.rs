use ippan::performance::{
    Block, HighPerformanceCache, HighPerformanceProcessor, PerformanceConfig, PerformanceMetrics,
    ProcessedBlock, Transaction,
};

fn small_config(parallel: bool) -> PerformanceConfig {
    PerformanceConfig {
        max_batch_size: 2,
        max_concurrent_batches: 4,
        transaction_pool_size: 5,
        block_pool_size: 4,
        enable_lockfree: true,
        enable_zero_copy: true,
        enable_batch_processing: true,
        enable_parallel_validation: parallel,
        compression_level: 6,
        cache_size: 2,
        enable_metrics: true,
    }
}

#[test]
fn processor_passes_transactions_through_the_pool() {
    let mut p = HighPerformanceProcessor::new(small_config(true));
    let txs: Vec<Transaction> = (0..3u8).map(|i| Transaction { data: vec![i, i] }).collect();
    let out = p.process_transactions(txs, 77).unwrap();
    assert_eq!(out.len(), 3);
    for (i, t) in out.iter().enumerate() {
        assert_eq!(t.transaction.data, vec![i as u8, i as u8]);
        assert!(t.is_valid);
        assert_eq!(t.processing_time_ms, 77);
    }
    let more: Vec<Transaction> = (0..3u8).map(|i| Transaction { data: vec![i] }).collect();
    assert_eq!(
        p.process_transactions(more, 78).unwrap_err(),
        "Not enough free blocks in pool. Requested: 3, Available: 0"
    );
}

#[test]
fn processor_validates_blocks_with_the_cache() {
    for parallel in [true, false] {
        let mut p = HighPerformanceProcessor::new(small_config(parallel));
        let blocks = vec![Block { data: vec![1] }, Block { data: vec![2] }, Block { data: vec![1] }];
        let out = p.process_blocks(blocks, 10, 2).unwrap();
        assert_eq!(out.len(), 3);
        assert!(out.iter().all(|b| b.is_valid && b.validation_time_ms == 10));
        assert_eq!(out[2].block.data, vec![1]);
        assert!(p.process_blocks(vec![Block { data: vec![9] }, Block { data: vec![8] }], 11, 2).is_err());
    }
}

#[test]
fn processor_metrics_average_and_peak() {
    let mut m = PerformanceMetrics::new();
    m.record_transaction_batch(10, 1_000_000);
    assert_eq!(m.get_transactions_processed(), 10);
    assert_eq!(m.get_average_tps(), 5);
    assert_eq!(m.get_peak_tps(), 10);
    m.record_transaction_batch(1, 500_000);
    assert_eq!(m.get_average_tps(), 3);
    assert_eq!(m.get_peak_tps(), 10);
    m.record_block_batch(4, 20);
    assert_eq!(m.blocks_processed, 4);
    assert_eq!(m.total_processing_time, 1_500_020);

    let mut p = HighPerformanceProcessor::new(small_config(false));
    p.record_transaction_batch(3, 1_000);
    assert_eq!(p.get_metrics().peak_tps, 3_000);
}

#[test]
fn result_cache_keeps_the_newest() {
    let mut c = HighPerformanceCache::new(2);
    let r = |d: u8, t: u64| ProcessedBlock { block: Block { data: vec![d] }, is_valid: true, validation_time_ms: t };
    c.cache_block_result(&r(1, 1));
    c.cache_block_result(&r(2, 2));
    c.cache_block_result(&r(3, 3));
    let h1 = Block { data: vec![1] }.hash();
    let h3 = Block { data: vec![3] }.hash();
    assert!(c.get_block_result(&h1).is_none());
    assert_eq!(c.get_block_result(&h3).unwrap().validation_time_ms, 3);
    assert!(c.get_transaction_result(&h3).is_none());
}
