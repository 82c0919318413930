//! Peer lists of the HTTP gossip layer: the node's own list of peer
//! addresses, merged with the lists other nodes serve, and the relay's list
//! of peer URLs to which new blocks and transactions are posted.

use vstd::prelude::*;
use crate::strvec::views;
use crate::text::{owned, concat};
use crate::caching::drop_all;

verus! {

/// A peer's address, such as "127.0.0.1:3031".
#[derive(Debug)]
pub struct PeerInfo {
    pub address: String,
}

/// The peers a node serves to others.
#[derive(Debug)]
pub struct PeerList {
    pub peers: Vec<PeerInfo>,
}

/// The addresses of `ps`, in order.
pub open spec fn addresses(ps: Seq<PeerInfo>) -> Seq<Seq<char>> {
    ps.map_values(|p: PeerInfo| p.address@)
}

/// `s` with `a` added at the end unless it is there already.
pub open spec fn with_address(s: Seq<Seq<char>>, a: Seq<char>) -> Seq<Seq<char>> {
    if s.contains(a) { s } else { s.push(a) }
}

/// `s` with each of `xs` added in turn.
pub open spec fn with_addresses(s: Seq<Seq<char>>, xs: Seq<Seq<char>>) -> Seq<Seq<char>>
    decreases xs.len(),
{
    if xs.len() == 0 { s } else { with_address(with_addresses(s, xs.drop_last()), xs.last()) }
}

/// The addresses of the lists fetched, laid end to end in order; a failed
/// fetch contributes nothing.
pub open spec fn fetched_addresses(fs: Seq<Option<PeerList>>) -> Seq<Seq<char>>
    decreases fs.len(),
{
    if fs.len() == 0 {
        Seq::empty()
    } else {
        fetched_addresses(fs.drop_last()) + match fs.last() {
            Some(l) => addresses(l.peers@),
            None => Seq::empty(),
        }
    }
}

/// This node's peer list: its own address first, then the peers it knows.
pub struct P2P {
    peers: Vec<PeerInfo>,
}

impl P2P {
    /// The addresses known, in order.
    pub closed spec fn known(&self) -> Seq<Seq<char>> {
        addresses(self.peers@)
    }

    /// A list of `my_addr` followed by `initial_peers`, as given.
    pub fn new(initial_peers: Vec<String>, my_addr: String) -> (p: Self)
        ensures
            p.known() == seq![my_addr@] + views(initial_peers@),
    {
        let ghost init = initial_peers@;
        let mut all: Vec<PeerInfo> = Vec::new();
        all.push(PeerInfo { address: my_addr });
        for a in it: initial_peers
            invariant
                it.seq() == init,
                addresses(all@) == seq![my_addr@] + views(init.take(it.index() as int)),
        {
            let ghost before = all@;
            all.push(PeerInfo { address: a });
            proof {
                assert(addresses(all@) =~= addresses(before).push(a@));
                assert(views(init.take(it.index() as int + 1)) =~= views(init.take(it.index() as int)).push(a@));
            }
        }
        proof {
            assert(init.take(init.len() as int) =~= init);
        }
        P2P { peers: all }
    }

    /// Adds `address` at the end unless it is known.
    pub fn add_peer(&mut self, address: &str)
        ensures
            final(self).known() == with_address(old(self).known(), address@),
    {
        let target = owned(address);
        let mut i: usize = 0;
        while i < self.peers.len()
            invariant
                i <= self.peers@.len(),
                target@ == address@,
                forall|j: int| 0 <= j < i ==> self.peers@[j].address@ != address@,
            decreases self.peers@.len() - i,
        {
            if self.peers[i].address == target {
                proof {
                    assert(addresses(self.peers@)[i as int] == address@);
                }
                return;
            }
            i = i + 1;
        }
        proof {
            if addresses(self.peers@).contains(address@) {
                let j = choose|j: int| 0 <= j < addresses(self.peers@).len() && addresses(self.peers@)[j] == address@;
                assert(self.peers@[j].address@ == address@);
            }
        }
        let ghost before = self.peers@;
        self.peers.push(PeerInfo { address: target });
        proof {
            assert(addresses(self.peers@) =~= addresses(before).push(address@));
        }
    }

    /// Copies of the known peers.
    pub fn get_peers(&self) -> (r: Vec<PeerInfo>)
        ensures
            addresses(r@) == self.known(),
    {
        let mut r: Vec<PeerInfo> = Vec::new();
        let mut i: usize = 0;
        while i < self.peers.len()
            invariant
                i <= self.peers@.len(),
                addresses(r@) == addresses(self.peers@).take(i as int),
            decreases self.peers@.len() - i,
        {
            let ghost before = r@;
            r.push(PeerInfo { address: self.peers[i].address.clone() });
            proof {
                assert(addresses(r@) =~= addresses(before).push(self.peers@[i as int].address@));
                assert(addresses(self.peers@).take(i as int + 1) =~= addresses(self.peers@).take(i as int).push(self.peers@[i as int].address@));
            }
            i = i + 1;
        }
        proof {
            assert(addresses(self.peers@).take(self.peers@.len() as int) =~= addresses(self.peers@));
        }
        r
    }

    /// Merges the peer lists fetched from the known peers, in order: each
    /// address not yet known is added. A failed fetch is `None`.
    pub fn sync_peers(&mut self, fetched: Vec<Option<PeerList>>)
        ensures
            final(self).known() == with_addresses(old(self).known(), fetched_addresses(fetched@)),
    {
        let ghost fs = fetched@;
        for f in it: fetched
            invariant
                it.seq() == fs,
                self.known() == with_addresses(old(self).known(), fetched_addresses(fs.take(it.index() as int))),
        {
            let ghost i = it.index() as int;
            let ghost start = self.known();
            proof {
                assert(fs.take(i + 1).drop_last() =~= fs.take(i));
            }
            match f {
                Some(list) => {
                    let ghost ps = list.peers@;
                    for np in jt: list.peers
                        invariant
                            jt.seq() == ps,
                            self.known() == with_addresses(start, addresses(ps.take(jt.index() as int))),
                    {
                        self.add_peer(np.address.as_str());
                        proof {
                            let k = jt.index() as int;
                            assert(addresses(ps.take(k + 1)).drop_last() =~= addresses(ps.take(k)));
                            assert(addresses(ps.take(k + 1)).last() == np.address@);
                        }
                    }
                    proof {
                        assert(ps.take(ps.len() as int) =~= ps);
                        lemma_with_addresses_append(old(self).known(), fetched_addresses(fs.take(i)), addresses(ps));
                    }
                },
                None => {
                    proof {
                        assert(fetched_addresses(fs.take(i + 1)) =~= fetched_addresses(fs.take(i)));
                    }
                },
            }
        }
        proof {
            assert(fs.take(fs.len() as int) =~= fs);
        }
    }
}

/// Adding two runs of addresses in turn is adding them laid end to end.
proof fn lemma_with_addresses_append(s: Seq<Seq<char>>, a: Seq<Seq<char>>, b: Seq<Seq<char>>)
    ensures
        with_addresses(with_addresses(s, a), b) == with_addresses(s, a + b),
    decreases b.len(),
{
    if b.len() > 0 {
        lemma_with_addresses_append(s, a, b.drop_last());
        assert((a + b).drop_last() =~= a + b.drop_last());
        assert((a + b).last() == b.last());
    } else {
        assert(a + b =~= a);
    }
}

/// The peer URLs to which new blocks and transactions are posted.
pub struct Relay {
    peers: Vec<String>,
}

impl Relay {
    /// The peer URLs, in order.
    pub closed spec fn urls(&self) -> Seq<Seq<char>> {
        views(self.peers@)
    }

    /// A relay to `peer_urls`, as given.
    pub fn new(peer_urls: Vec<String>) -> (r: Self)
        ensures
            r.urls() == views(peer_urls@),
    {
        Relay { peers: peer_urls }
    }

    /// Adds `url` at the end unless it is there.
    pub fn add_peer(&mut self, url: &str)
        ensures
            final(self).urls() == with_address(old(self).urls(), url@),
    {
        let target = owned(url);
        let mut i: usize = 0;
        while i < self.peers.len()
            invariant
                i <= self.peers@.len(),
                target@ == url@,
                forall|j: int| 0 <= j < i ==> self.peers@[j]@ != url@,
            decreases self.peers@.len() - i,
        {
            if self.peers[i] == target {
                proof {
                    assert(views(self.peers@)[i as int] == url@);
                }
                return;
            }
            i = i + 1;
        }
        proof {
            if views(self.peers@).contains(url@) {
                let j = choose|j: int| 0 <= j < views(self.peers@).len() && views(self.peers@)[j] == url@;
                assert(self.peers@[j]@ == url@);
            }
        }
        let ghost before = self.peers@;
        self.peers.push(target);
        proof {
            assert(views(self.peers@) =~= views(before).push(url@));
        }
    }

    /// Removes every occurrence of `url`.
    pub fn remove_peer(&mut self, url: &str)
        ensures
            final(self).urls() == drop_all(old(self).urls(), url@),
    {
        let target = owned(url);
        let ghost all = views(self.peers@);
        let mut kept: Vec<String> = Vec::new();
        let mut i: usize = 0;
        while i < self.peers.len()
            invariant
                i <= self.peers@.len(),
                target@ == url@,
                all == views(self.peers@),
                views(kept@) == drop_all(all.take(i as int), url@),
            decreases self.peers@.len() - i,
        {
            proof {
                let t = all.take(i as int + 1);
                assert(t.drop_last() =~= all.take(i as int));
                assert(t.last() == all[i as int]);
            }
            if self.peers[i] != target {
                let ghost before = kept@;
                kept.push(self.peers[i].clone());
                proof {
                    assert(views(kept@) =~= views(before).push(all[i as int]));
                }
            }
            i = i + 1;
        }
        proof {
            assert(all.take(all.len() as int) =~= all);
        }
        self.peers = kept;
    }

    /// Where a new block goes: `http://<peer>/new_block` for each peer.
    pub fn block_urls(&self) -> (r: Vec<String>)
        ensures
            views(r@) == self.urls().map_values(|u: Seq<char>| "http://"@ + u + "/new_block"@),
    {
        self.post_urls("/new_block")
    }

    /// Where a new transaction goes: `http://<peer>/new_tx` for each peer.
    pub fn transaction_urls(&self) -> (r: Vec<String>)
        ensures
            views(r@) == self.urls().map_values(|u: Seq<char>| "http://"@ + u + "/new_tx"@),
    {
        self.post_urls("/new_tx")
    }

    fn post_urls(&self, path: &str) -> (r: Vec<String>)
        ensures
            views(r@) == self.urls().map_values(|u: Seq<char>| "http://"@ + u + path@),
    {
        let mut r: Vec<String> = Vec::new();
        let mut i: usize = 0;
        while i < self.peers.len()
            invariant
                i <= self.peers@.len(),
                views(r@) == self.urls().map_values(|u: Seq<char>| "http://"@ + u + path@).take(i as int),
            decreases self.peers@.len() - i,
        {
            let head = concat("http://", self.peers[i].as_str());
            let url = concat(head.as_str(), path);
            let ghost before = r@;
            r.push(url);
            proof {
                assert(views(r@) =~= views(before).push(url@));
                assert(self.urls().map_values(|u: Seq<char>| "http://"@ + u + path@).take(i as int + 1)
                    =~= self.urls().map_values(|u: Seq<char>| "http://"@ + u + path@).take(i as int).push(url@));
            }
            i = i + 1;
        }
        proof {
            assert(self.urls().map_values(|u: Seq<char>| "http://"@ + u + path@).take(self.peers@.len() as int)
                =~= self.urls().map_values(|u: Seq<char>| "http://"@ + u + path@));
        }
        r
    }
}

} // verus!
