use ippan::memory_pool::{MemoryPool, MemoryPoolManager, ZeroCopyBuffer};

#[test]
fn test_memory_pool() {
    let mut pool = MemoryPool::new(10);

    assert_eq!(pool.total_blocks(), 10);
    assert_eq!(pool.allocated_blocks(), 0);
    assert_eq!(pool.available_blocks(), 10);

    let mut item = pool.allocate().unwrap();
    item.set_data(42);

    assert_eq!(pool.allocated_blocks(), 1);
    assert_eq!(pool.available_blocks(), 9);
    assert_eq!(*item.data().unwrap(), 42);

    assert!(pool.deallocate(item));

    assert_eq!(pool.allocated_blocks(), 0);
    assert_eq!(pool.available_blocks(), 10);
}

#[test]
fn test_memory_pool_batch() {
    let mut pool: MemoryPool<u8> = MemoryPool::new(5);

    let items = pool.allocate_batch(3).unwrap();
    assert_eq!(items.len(), 3);
    assert_eq!(pool.allocated_blocks(), 3);

    for item in items {
        assert!(pool.deallocate(item));
    }
    assert_eq!(pool.allocated_blocks(), 0);
}

#[test]
fn test_zero_copy_buffer() {
    let mut buffer = ZeroCopyBuffer::new(100);

    buffer.write(b"hello").unwrap();
    buffer.write(b"world").unwrap();

    assert_eq!(buffer.position(), 10);
    assert_eq!(buffer.remaining(), 90);

    buffer.reset();
    let data1 = buffer.read(5).unwrap().to_vec();
    let data2 = buffer.read(5).unwrap().to_vec();

    assert_eq!(data1, b"hello");
    assert_eq!(data2, b"world");
}

#[test]
fn test_memory_pool_manager() {
    let mut manager = MemoryPoolManager::new(100, 50, 200);

    let stats = manager.get_stats();
    assert_eq!(stats.transaction_pool.total, 100);
    assert_eq!(stats.block_pool.total, 50);
    assert_eq!(stats.message_pool.total, 200);

    let _transaction = manager.get_transaction().unwrap();
    let _block = manager.get_block().unwrap();
    let _message = manager.get_message().unwrap();

    let stats_after = manager.get_stats();
    assert_eq!(stats_after.transaction_pool.allocated, 1);
    assert_eq!(stats_after.block_pool.allocated, 1);
    assert_eq!(stats_after.message_pool.allocated, 1);
}

#[test]
fn pool_runs_dry_and_batch_fails_without_room() {
    let mut pool: MemoryPool<u8> = MemoryPool::new(2);
    let a = pool.allocate().unwrap();
    let _b = pool.allocate().unwrap();
    assert!(pool.allocate().is_none());
    assert!(pool.allocate_batch(1).is_err());
    assert!(pool.deallocate(a));
    assert_eq!(pool.available_blocks(), 1);
}

#[test]
fn buffer_refuses_overflow_and_short_reads() {
    let mut buffer = ZeroCopyBuffer::new(4);
    assert_eq!(buffer.write(b"hello").unwrap_err(), "Buffer overflow");
    assert_eq!(buffer.position(), 0);
    buffer.write(b"abcd").unwrap();
    assert_eq!(buffer.as_slice(), b"abcd");
    buffer.as_mut_slice()[0] = b'z';
    assert_eq!(buffer.as_slice(), b"zbcd");
    assert!(buffer.read(1).is_err());
    buffer.reset();
    assert_eq!(buffer.read(2).unwrap(), b"zb");
}

#[test]
fn manager_returns_items_of_every_kind() {
    let mut manager = MemoryPoolManager::new(2, 2, 2);
    let t = manager.get_transaction().unwrap();
    let b = manager.get_block().unwrap();
    let m = manager.get_message().unwrap();
    assert!(manager.return_transaction(t));
    assert!(manager.return_block(b));
    assert!(manager.return_message(m));
    let s = manager.get_stats();
    assert_eq!((s.transaction_pool.allocated, s.transaction_pool.available, s.transaction_pool.total), (0, 2, 2));
    assert_eq!((s.block_pool.allocated, s.block_pool.available), (0, 2));
    assert_eq!((s.message_pool.allocated, s.message_pool.available), (0, 2));
    assert!(manager.get_transactions(3).is_err());
    let ts = manager.get_transactions(2).unwrap();
    assert_eq!(ts.len(), 2);
    assert!(manager.get_transaction().is_none());
}

#[test]
fn buffer_writes_append_at_the_cursor() {
    let mut buffer = ZeroCopyBuffer::new(8);
    buffer.write(b"ab").unwrap();
    buffer.write(b"cde").unwrap();
    assert_eq!(buffer.as_slice(), b"abcde");
    assert_eq!(buffer.remaining(), 3);
    assert!(buffer.write(b"wxyz").is_err());
    assert_eq!(buffer.as_slice(), b"abcde");
}
