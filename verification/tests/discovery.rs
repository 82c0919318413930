use ippan::discovery::{
    BootstrapPeer, DiscoveryMessage, DiscoveryService, PeerAnnouncement, PeerInfo, PeerResponse,
    PeerStatus, Peerstore, PingMessage, make_peer_key,
};

fn peer(address: &str, port: u16, last_seen: i64) -> PeerInfo {
    PeerInfo {
        node_id: [1u8; 32],
        address: address.to_string(),
        port,
        features: vec!["blocks".to_string()],
        last_seen,
        score: 1_000_000,
        status: PeerStatus::Reachable,
    }
}

#[test]
fn test_discovery_service_creation() {
    let node_id = [1u8; 32];
    let bootstrap_peers = vec![
        BootstrapPeer { ip: "127.0.0.1".to_string(), port: 8080 },
        BootstrapPeer { ip: "127.0.0.1".to_string(), port: 8081 },
    ];
    let service = DiscoveryService::new(node_id, bootstrap_peers).unwrap();
    assert_eq!(service.max_peers(), 100);
    assert_eq!(service.bootstrap_peers().len(), 2);
}

#[test]
fn discovery_test_peer_info() {
    let peer_info = peer("127.0.0.1", 8080, 0);
    assert_eq!(peer_info.address, "127.0.0.1");
    assert_eq!(peer_info.port, 8080);
    assert_eq!(peer_info.status, PeerStatus::Reachable);
}

#[test]
fn peerstore_keys_scores_and_capacity() {
    assert_eq!(make_peer_key("10.0.0.1", 9000), "10.0.0.1:9000");
    let mut store = Peerstore::new(2);
    store.add_peer(peer("a", 1, 0)).unwrap();
    store.add_peer(peer("b", 2, 0)).unwrap();
    store.add_peer(peer("c", 3, 0)).unwrap();
    assert_eq!(store.get_all_peers().len(), 2);
    assert_eq!(store.get_peer_score("a", 1), 1_000_000);
    assert_eq!(store.get_peer_score("c", 3), 0);

    store.update_peer_score("a", 1, 2_500_000).unwrap();
    assert_eq!(store.get_peer_score("a", 1), 1_000_000);
    store.update_peer_score("b", 2, -4).unwrap();
    assert_eq!(store.get_peer_score("b", 2), 0);
    store.update_peer_score("b", 2, 400_000).unwrap();
    let good = store.get_peers_with_min_score(500_000);
    assert_eq!(good.len(), 1);
    assert_eq!(good[0].address, "a");

    store.remove_peer("a", 1).unwrap();
    assert_eq!(store.get_all_peers().len(), 1);
    assert_eq!(store.get_peer_score("a", 1), 0);
    store.add_peer(peer("c", 3, 0)).unwrap();
    assert_eq!(store.get_all_peers().len(), 2);
}

#[test]
fn peerstore_bans_expire() {
    let mut store = Peerstore::new(10);
    store.ban_peer("x", 7, 5, 1_000).unwrap();
    assert!(store.is_peer_banned("x", 7, 1_000));
    assert!(store.is_peer_banned("x", 7, 300_999));
    assert!(!store.is_peer_banned("x", 7, 301_000));
    assert!(!store.is_peer_banned("y", 7, 1_000));
    store.cleanup_expired_bans(300_999);
    assert!(store.is_peer_banned("x", 7, 2_000));
    store.cleanup_expired_bans(301_000);
    assert!(!store.is_peer_banned("x", 7, 2_000));
}

#[test]
fn discovery_adds_bootstrap_peers_and_drops_stale_ones() {
    let bootstrap = vec![
        BootstrapPeer { ip: "127.0.0.1".to_string(), port: 8080 },
        BootstrapPeer { ip: "127.0.0.1".to_string(), port: 8081 },
    ];
    let mut service = DiscoveryService::new([3u8; 32], bootstrap).unwrap();
    assert_eq!(service.start(), Ok(()));
    assert!(!service.running());
    service.discover_peers(1_000);
    let known = service.get_known_peers();
    assert_eq!(known.len(), 2);
    assert_eq!(known[0].features, vec!["bootstrap".to_string()]);
    assert_eq!(known[0].score, 500_000);
    assert_eq!(known[0].status, PeerStatus::Unknown);
    assert_eq!(service.get_reachable_peers().len(), 2);

    service.add_peer(peer("10.0.0.9", 1, 700_000)).unwrap();
    assert_eq!(service.get_peer_count(), 3);
    service.cleanup_stale_peers(601_001);
    assert_eq!(service.get_peer_count(), 1);
    assert_eq!(service.get_known_peers()[0].address, "10.0.0.9");
    service.cleanup_stale_peers(1_300_000);
    assert_eq!(service.get_peer_count(), 1);
    service.cleanup_stale_peers(1_300_001);
    assert_eq!(service.get_peer_count(), 0);
}

#[test]
fn discovery_messages_fill_the_store() {
    let mut store = Peerstore::new(100);
    let announcement = DiscoveryMessage::PeerAnnouncement(PeerAnnouncement {
        node_id: [1u8; 32],
        address: "127.0.0.1".to_string(),
        port: 8080,
        features: vec!["blocks".to_string(), "transactions".to_string()],
        timestamp: 5,
        signature: None,
    });
    DiscoveryService::handle_discovery_message(announcement, &mut store, 42);
    let peers = store.get_all_peers();
    assert_eq!(peers.len(), 1);
    assert_eq!(peers[0].last_seen, 42);
    assert_eq!(peers[0].status, PeerStatus::Reachable);

    let response = DiscoveryMessage::PeerResponse(PeerResponse {
        node_id: [2u8; 32],
        peers: vec![peer("a", 1, 7), peer("b", 2, 8), peer("a", 1, 9)],
        timestamp: 6,
    });
    DiscoveryService::handle_discovery_message(response, &mut store, 50);
    let peers = store.get_all_peers();
    assert_eq!(peers.len(), 3);
    assert_eq!(peers[1].address, "a");
    assert_eq!(peers[1].last_seen, 9);

    let ping = DiscoveryMessage::Ping(PingMessage { node_id: [0u8; 32], nonce: 1, timestamp: 0 });
    DiscoveryService::handle_discovery_message(ping, &mut store, 60);
    assert_eq!(store.get_all_peers().len(), 3);
}

#[test]
fn discovery_builds_messages() {
    let service = DiscoveryService::new([9u8; 32], Vec::new()).unwrap();
    match service.announce_node("1.2.3.4".to_string(), 30303, vec!["relay".to_string()], 77).unwrap() {
        DiscoveryMessage::PeerAnnouncement(a) => {
            assert_eq!(a.node_id, [9u8; 32]);
            assert_eq!(a.port, 30303);
            assert_eq!(a.timestamp, 77);
            assert!(a.signature.is_none());
        }
        _ => panic!("not an announcement"),
    }
    match service.request_peers(12, 78).unwrap() {
        DiscoveryMessage::PeerRequest(q) => assert_eq!(q.max_peers, 12),
        _ => panic!("not a request"),
    }
}
