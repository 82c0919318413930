use ippan::lockfree::{next_power_of_two, LockFreeHashMap, LockFreeRingBuffer, LockFreeStack};

#[test]
fn test_ring_buffer() {
    let mut buffer = LockFreeRingBuffer::new(4);

    assert!(buffer.is_empty());
    assert!(!buffer.is_full());

    assert!(buffer.try_push(1).is_ok());
    assert!(buffer.try_push(2).is_ok());
    assert!(buffer.try_push(3).is_ok());

    assert_eq!(buffer.len(), 3);
    assert!(!buffer.is_empty());

    assert_eq!(buffer.try_pop(), Some(1));
    assert_eq!(buffer.try_pop(), Some(2));
    assert_eq!(buffer.try_pop(), Some(3));
    assert_eq!(buffer.try_pop(), None);

    assert!(buffer.is_empty());
}

#[test]
fn test_hash_map() {
    let mut map = LockFreeHashMap::new(16);

    assert!(map.is_empty());

    assert_eq!(map.insert("key1", "value1"), None);
    assert_eq!(map.insert("key2", "value2"), None);
    assert_eq!(map.insert("key1", "value1_updated"), Some("value1"));

    assert_eq!(map.len(), 2);

    assert_eq!(map.get("key1"), Some("value1_updated"));
    assert_eq!(map.get("key2"), Some("value2"));
    assert_eq!(map.get("key3"), None);

    assert_eq!(map.remove("key1"), Some("value1_updated"));
    assert_eq!(map.remove("key1"), None);
    assert_eq!(map.len(), 1);
}

#[test]
fn test_stack() {
    let mut stack = LockFreeStack::new();

    assert!(stack.is_empty());

    stack.push(1);
    stack.push(2);
    stack.push(3);

    assert!(!stack.is_empty());

    assert_eq!(stack.pop(), Some(3));
    assert_eq!(stack.pop(), Some(2));
    assert_eq!(stack.pop(), Some(1));
    assert_eq!(stack.pop(), None);

    assert!(stack.is_empty());
}

#[test]
fn ring_buffer_keeps_one_slot_free_and_rounds_capacity_up() {
    assert_eq!(next_power_of_two(0), 1);
    assert_eq!(next_power_of_two(5), 8);
    assert_eq!(next_power_of_two(8), 8);
    let mut buffer = LockFreeRingBuffer::new(3);
    assert!(buffer.try_push(10).is_ok());
    assert!(buffer.try_push(20).is_ok());
    assert!(buffer.try_push(30).is_ok());
    assert!(buffer.is_full());
    assert_eq!(buffer.try_push(40), Err(40));
    assert_eq!(buffer.try_pop(), Some(10));
    assert!(buffer.try_push(40).is_ok());
    assert_eq!(buffer.try_pop(), Some(20));
    assert_eq!(buffer.try_pop(), Some(30));
    assert_eq!(buffer.try_pop(), Some(40));
}

#[test]
fn hash_map_keeps_many_keys_apart() {
    let mut map = LockFreeHashMap::new(2);
    for i in 0..50u32 {
        let k = format!("k{}", i);
        assert_eq!(map.insert(&k, i), None);
    }
    assert_eq!(map.len(), 50);
    for i in 0..50u32 {
        let k = format!("k{}", i);
        assert_eq!(map.get(&k), Some(i));
    }
    assert_eq!(map.remove("k7"), Some(7));
    assert_eq!(map.get("k7"), None);
    assert_eq!(map.len(), 49);
}

#[test]
fn full_ring_buffer_refuses_a_push() {
    let mut b = LockFreeRingBuffer::new(4);
    assert!(b.try_push(1).is_ok());
    assert!(b.try_push(2).is_ok());
    assert!(b.try_push(3).is_ok());
    assert_eq!(b.try_push(4), Err(4));
    assert_eq!(b.len(), 3);
    assert!(b.is_full());
    assert_eq!(b.try_pop(), Some(1));
}

#[test]
fn hash_map_length_counts_new_keys_only() {
    let mut m = LockFreeHashMap::new(8);
    assert_eq!(m.insert("a", 1), None);
    assert_eq!(m.insert("b", 2), None);
    assert_eq!(m.len(), 2);
    assert_eq!(m.insert("a", 3), Some(1));
    assert_eq!(m.len(), 2);
    assert_eq!(m.remove("b"), Some(2));
    assert_eq!(m.len(), 1);
}
