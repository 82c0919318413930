use ippan::serialization::{BatchSerializer, HighPerformanceSerializer, StreamingSerializer, ZeroCopySerializer};

type TestData = (u64, Vec<u8>);

#[test]
fn test_high_performance_serializer() {
    let serializer = HighPerformanceSerializer::new(true, 6);

    let data: TestData = (123, vec![1, 2, 3, 4, 5]);

    let serialized = serializer.encode(&bincode::serialize(&data).unwrap());
    let deserialized: TestData = bincode::deserialize(&serializer.decode(&serialized)).unwrap();

    assert_eq!(data, deserialized);
}

#[test]
fn test_zero_copy_serializer() {
    let mut serializer = ZeroCopySerializer::new(1000);

    let data: TestData = (456, vec![6, 7, 8, 9, 10]);

    serializer.write(&bincode::serialize(&data).unwrap()).unwrap();
    let deserialized: TestData = bincode::deserialize(serializer.read()).unwrap();

    assert_eq!(data, deserialized);
}

#[test]
fn test_batch_serializer() {
    let serializer = BatchSerializer::new(true, 6, 10);

    let items: Vec<TestData> = vec![(1, vec![1, 2, 3]), (2, vec![4, 5, 6]), (3, vec![7, 8, 9])];

    let serialized = serializer.serializer().encode(&bincode::serialize(&items).unwrap());
    let deserialized: Vec<TestData> = bincode::deserialize(&serializer.serializer().decode(&serialized)).unwrap();

    assert_eq!(items, deserialized);
}

#[test]
fn test_streaming_serializer() {
    let mut serializer = StreamingSerializer::new(true, 6, 1000);

    let items: Vec<TestData> = vec![(1, vec![1, 2, 3]), (2, vec![4, 5, 6]), (3, vec![7, 8, 9])];

    for item in &items {
        serializer.add_item(&bincode::serialize(item).unwrap()).unwrap();
    }

    let serialized = serializer.flush();
    assert!(!serialized.is_empty());
    assert_eq!(serializer.buffer_size(), 0);
}

#[test]
fn zero_copy_serializer_overflows_and_resets() {
    let mut serializer = ZeroCopySerializer::new(4);
    assert_eq!(serializer.write(&[1, 2, 3, 4, 5]).unwrap_err(), "Buffer overflow");
    serializer.write(&[1, 2]).unwrap();
    serializer.write(&[3]).unwrap();
    assert_eq!(serializer.read(), &[1, 2, 3]);
    assert_eq!(serializer.position(), 3);
    serializer.reset();
    assert_eq!(serializer.position(), 0);
    assert_eq!(serializer.read(), &[] as &[u8]);
}

#[test]
fn streaming_serializer_refuses_past_its_limit() {
    let mut serializer = StreamingSerializer::new(false, 0, 5);
    serializer.add_item(&[1, 2, 3]).unwrap();
    assert_eq!(serializer.add_item(&[4, 5, 6]).unwrap_err(), "Buffer overflow");
    assert_eq!(serializer.buffer_size(), 3);
    serializer.add_item(&[4, 5]).unwrap();
    assert_eq!(serializer.flush(), vec![1, 2, 3, 4, 5]);
}
