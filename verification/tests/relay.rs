use ippan::relay::{ConnectionState, RelayService};

#[test]
fn test_relay_service_creation() {
    let service = RelayService::new();

    assert_eq!(service.config.max_connections, 100);
    assert!(service.config.enabled);
    assert!(!service.running);
}

#[test]
fn test_relay_service_start_stop() {
    let mut service = RelayService::new();

    service.start().unwrap();
    assert!(service.running);

    service.stop().unwrap();
    assert!(!service.running);
}

#[test]
fn test_relay_connection_creation() {
    let mut service = RelayService::new();

    let connection_id = service.create_relay_connection("127.0.0.1:8080", "127.0.0.1:8081", 0).unwrap();

    assert!(!connection_id.is_empty());
}

#[test]
fn relay_table_caps_closes_and_counts_bytes() {
    let mut service = RelayService::new();
    service.config.max_connections = 2;
    let a = service.create_relay_connection("1.1.1.1:1", "2.2.2.2:2", 5).unwrap();
    assert_eq!(a, "relay_1.1.1.1:1_2.2.2.2:2");
    service.create_relay_connection("3.3.3.3:3", "4.4.4.4:4", 6).unwrap();
    assert_eq!(
        service.create_relay_connection("5.5.5.5:5", "6.6.6.6:6", 7).unwrap_err(),
        "Maximum relay connections reached"
    );
    service.record_relayed_bytes("3.3.3.3:3", 100, 8);
    service.record_relayed_bytes("9.9.9.9:9", 100, 8);
    service.connections[0].state = ConnectionState::Connected;
    let stats = service.get_relay_stats();
    assert_eq!(stats.total_connections, 2);
    assert_eq!(stats.active_connections, 1);
    assert_eq!(stats.total_bytes_transferred, 100);
    assert_eq!(stats.max_connections, 2);
    service.close_relay_connection(&a).unwrap();
    assert_eq!(service.connections[0].state, ConnectionState::Closed);
    assert_eq!(service.connections[1].last_activity_ms, 8);
    service.stop().unwrap();
    assert_eq!(service.get_relay_stats().total_connections, 0);
}
