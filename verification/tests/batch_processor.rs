use ippan::batch_processor::{BatchProcessingManager, BatchProcessor, ParallelBatchProcessor, StreamingBatchProcessor};
use ippan::memory_pool::{MemoryPool, PooledItem, TransactionBlock};
use ippan::node_types::BatchProcessingConfig;

fn items(pool: &mut MemoryPool<i32>, n: i32) -> Vec<PooledItem<i32>> {
    (0..n)
        .map(|i| {
            let mut item = pool.allocate().unwrap();
            item.set_data(i);
            item
        })
        .collect()
}

fn values(chunk: Vec<PooledItem<i32>>) -> Result<Vec<i32>, String> {
    Ok(chunk.into_iter().map(|item| *item.data().unwrap()).collect())
}

#[test]
fn test_batch_processor() {
    let mut processor = BatchProcessor::new(10, 5);

    let mut pool = MemoryPool::new(100);
    let items = items(&mut pool, 25);

    let results = processor.process_batch(items, values).unwrap();

    assert_eq!(results.len(), 25);
    assert_eq!(processor.get_stats().processed_batches, 3);
}

#[test]
fn test_parallel_batch_processor() {
    let mut processor = ParallelBatchProcessor::new(10, 5, 4);

    let mut pool = MemoryPool::new(100);
    let items = items(&mut pool, 20);

    let results = processor.process_batch_parallel(items, values).unwrap();

    assert_eq!(results.len(), 20);
}

#[test]
fn test_batch_processing_manager() {
    let config = BatchProcessingConfig {
        max_batch_size: 10000,
        max_concurrent_batches: 100,
        thread_pool_size: 4,
        enable_parallel_processing: true,
        enable_streaming: false,
        batch_timeout_ms: 100,
    };
    let mut manager = BatchProcessingManager::new(config);

    let mut pool = MemoryPool::new(100);
    let items = items(&mut pool, 15);

    let results = manager.process_transactions(items, values).unwrap();

    assert_eq!(results.len(), 15);
}

#[test]
fn chunks_keep_order_and_size() {
    let p = BatchProcessor::new(4, 1);
    let chunks = p.split_into_chunks((1..=10).collect::<Vec<i32>>());
    assert_eq!(chunks, vec![vec![1, 2, 3, 4], vec![5, 6, 7, 8], vec![9, 10]]);
    assert_eq!(p.split_into_chunks(vec![1, 2, 3]), vec![vec![1, 2, 3]]);
    assert_eq!(p.split_into_chunks(Vec::<i32>::new()), vec![Vec::<i32>::new()]);
    let zero = BatchProcessor::new(0, 1);
    assert_eq!(zero.split_into_chunks(vec![1, 2]), vec![vec![], vec![1], vec![2]]);
}

#[test]
fn first_failing_batch_stops_processing() {
    let mut p = BatchProcessor::new(2, 1);
    let r = p.process_batch(vec![1, 2, 3, 4, 5], |c: Vec<i32>| if c.contains(&3) { Err("bad".to_string()) } else { Ok(c) });
    assert_eq!(r, Err("bad".to_string()));
    assert_eq!(p.get_stats().processed_batches, 0);
    let ok = p.process_batch(vec![1, 2, 3], |c: Vec<i32>| Ok(c.iter().map(|x| x * 10).collect::<Vec<i32>>())).unwrap();
    assert_eq!(ok, vec![10, 20, 30]);
    assert_eq!(p.get_stats().processed_batches, 2);
    assert_eq!(p.get_stats().total_processed_items, 3);
    p.record_processing_time(7);
    assert_eq!(p.get_stats().total_processing_time, 7);
}

#[test]
fn sequential_manager_hands_everything_over_at_once() {
    let config = BatchProcessingConfig {
        max_batch_size: 2,
        max_concurrent_batches: 1,
        thread_pool_size: 1,
        enable_parallel_processing: false,
        enable_streaming: false,
        batch_timeout_ms: 100,
    };
    let mut manager = BatchProcessingManager::new(config);
    let r = manager.process_transactions(vec![1, 2, 3], |c: Vec<i32>| Ok(vec![c.len()])).unwrap();
    assert_eq!(r, vec![3]);
    assert_eq!(manager.get_stats().processed_batches, 0);
    assert!(!manager.get_config().enable_parallel_processing);
}

#[test]
fn streaming_processor_processes_full_batches_only() {
    let mut pool: MemoryPool<TransactionBlock> = MemoryPool::new(8);
    let mut s = StreamingBatchProcessor::new(2, 1);
    for i in 0..3u8 {
        let mut item = pool.allocate().unwrap();
        item.set_data(TransactionBlock { data: vec![i], timestamp: i as u64, signature: Vec::new() });
        s.send_transaction(item, 100 + i as u64).unwrap();
    }
    let first = s.receive_processed().unwrap();
    assert_eq!(first.transaction.unwrap().data, vec![0]);
    assert_eq!(first.processing_time_ms, 101);
    assert!(first.is_valid);
    assert_eq!(s.receive_processed().unwrap().transaction.unwrap().data, vec![1]);
    assert!(s.receive_processed().is_none());
    assert_eq!(s.get_stats().processed_batches, 0);
    s.stop();
    let item = pool.allocate().unwrap();
    assert_eq!(s.send_transaction(item, 200), Err("Processor is not running".to_string()));
}
