use ippan::http_peers::{P2P, PeerInfo, PeerList, Relay};

fn list(addrs: &[&str]) -> PeerList {
    PeerList { peers: addrs.iter().map(|a| PeerInfo { address: a.to_string() }).collect() }
}

#[test]
fn p2p_lists_itself_first_and_dedupes_additions() {
    let mut p = P2P::new(vec!["10.0.0.1:3031".to_string(), "10.0.0.2:3031".to_string()], "127.0.0.1:3031".to_string());
    let addrs: Vec<String> = p.get_peers().into_iter().map(|x| x.address).collect();
    assert_eq!(addrs, vec!["127.0.0.1:3031", "10.0.0.1:3031", "10.0.0.2:3031"]);
    p.add_peer("10.0.0.1:3031");
    p.add_peer("10.0.0.3:3031");
    assert_eq!(p.get_peers().len(), 4);
    assert_eq!(p.get_peers()[3].address, "10.0.0.3:3031");
}

#[test]
fn p2p_sync_merges_fetched_lists_in_order() {
    let mut p = P2P::new(Vec::new(), "me".to_string());
    p.sync_peers(vec![Some(list(&["a", "me", "b"])), None, Some(list(&["b", "c"]))]);
    let addrs: Vec<String> = p.get_peers().into_iter().map(|x| x.address).collect();
    assert_eq!(addrs, vec!["me", "a", "b", "c"]);
}

#[test]
fn relay_urls_and_removal() {
    let mut r = Relay::new(vec!["1.1.1.1:80".to_string()]);
    r.add_peer("2.2.2.2:80");
    r.add_peer("1.1.1.1:80");
    assert_eq!(r.block_urls(), vec!["http://1.1.1.1:80/new_block", "http://2.2.2.2:80/new_block"]);
    assert_eq!(r.transaction_urls(), vec!["http://1.1.1.1:80/new_tx", "http://2.2.2.2:80/new_tx"]);
    r.remove_peer("1.1.1.1:80");
    assert_eq!(r.block_urls(), vec!["http://2.2.2.2:80/new_block"]);
}
