//! Relay connections between two addresses: a table of connections by id,
//! capped in size, with their state and the bytes relayed. Sockets stay
//! with the caller; addresses are given in their `ip:port` text.

use vstd::prelude::*;
use crate::node_types::{RelayConfig, RelayStats};
use crate::text::{owned, concat};

verus! {

/// State of a relay connection.
#[derive(Debug, Clone, Copy, PartialEq, Eq, Structural)]
pub enum ConnectionState {
    Connecting,
    Connected,
    Closed,
    Error,
}

/// One relay connection; times in milliseconds since the Unix epoch.
#[derive(Debug)]
pub struct RelayConnection {
    pub id: String,
    pub source_addr: String,
    pub target_addr: String,
    pub state: ConnectionState,
    pub created_at_ms: i64,
    pub last_activity_ms: i64,
    pub bytes_transferred: u64,
}

/// The ids of some connections.
pub open spec fn connection_ids(s: Seq<RelayConnection>) -> Seq<Seq<char>> {
    s.map_values(|c: RelayConnection| c.id@)
}

/// Bytes relayed over all of `s`.
pub open spec fn bytes_total(s: Seq<RelayConnection>) -> nat
    decreases s.len(),
{
    if s.len() == 0 {
        0
    } else {
        bytes_total(s.drop_last()) + s.last().bytes_transferred as nat
    }
}

/// Connections of `s` in state Connected.
pub open spec fn connected_count(s: Seq<RelayConnection>) -> nat
    decreases s.len(),
{
    if s.len() == 0 {
        0
    } else {
        connected_count(s.drop_last()) + if s.last().state == ConnectionState::Connected { 1nat } else { 0nat }
    }
}

/// The id of the connection from `source` to `target`.
pub open spec fn relay_id(source: Seq<char>, target: Seq<char>) -> Seq<char> {
    "relay_"@ + source + "_"@ + target
}

/// Relays data between peers.
pub struct RelayService {
    pub connections: Vec<RelayConnection>,
    pub config: RelayConfig,
    pub running: bool,
}

impl RelayService {
    /// The connections, in the order they were made.
    pub open spec fn table(&self) -> Seq<RelayConnection> {
        self.connections@
    }

    /// No connections, the default settings, not running.
    pub fn new() -> (s: Self)
        ensures
            s.table().len() == 0,
            s.config.max_connections == 100,
            s.config.connection_timeout_ms == 300000,
            s.config.buffer_size == 8192,
            s.config.enabled,
            !s.running,
    {
        RelayService { connections: Vec::new(), config: RelayConfig::default(), running: false }
    }

    /// Marks the service as running; listening is left to the caller.
    pub fn start(&mut self) -> (r: Result<(), String>)
        ensures
            r is Ok,
            final(self).running,
            final(self).table() == old(self).table(),
            final(self).config == old(self).config,
    {
        self.running = true;
        Ok(())
    }

    /// Stops the service and forgets every connection.
    pub fn stop(&mut self) -> (r: Result<(), String>)
        ensures
            r is Ok,
            !final(self).running,
            final(self).table().len() == 0,
            final(self).config == old(self).config,
    {
        self.running = false;
        self.connections = Vec::new();
        Ok(())
    }

    /// Position of the connection with id `id`.
    fn find(&self, id: &str) -> (r: Option<usize>)
        ensures
            match r {
                Some(i) => i < self.table().len() && connection_ids(self.table()).index_of_first(id@) == Some(i as int),
                None => connection_ids(self.table()).index_of_first(id@) is None,
            },
    {
        let key = owned(id);
        let mut i: usize = 0;
        while i < self.connections.len()
            invariant
                i <= self.connections@.len(),
                key@ == id@,
                forall|j: int| 0 <= j < i ==> self.connections@[j].id@ != id@,
            decreases self.connections@.len() - i,
        {
            if self.connections[i].id == key {
                proof {
                    let ks = connection_ids(self.connections@);
                    ks.index_of_first_ensures(id@);
                    assert(ks[i as int] == id@);
                    let f = ks.index_of_first(id@)->0;
                    if f < i {
                        assert(ks[f] == self.connections@[f].id@);
                    }
                }
                return Some(i);
            }
            i = i + 1;
        }
        proof {
            let ks = connection_ids(self.connections@);
            ks.index_of_first_ensures(id@);
            if ks.contains(id@) {
                let j = choose|j: int| 0 <= j < ks.len() && ks[j] == id@;
                assert(ks[j] == self.connections@[j].id@);
            }
        }
        None
    }

    /// Opens a connection from `source_addr` to `target_addr` at `now`,
    /// with id "relay_<source>_<target>", in state Connecting; a full table
    /// is an error. An existing connection with that id is replaced.
    pub fn create_relay_connection(&mut self, source_addr: &str, target_addr: &str, now_ms: i64) -> (r: Result<String, String>)
        ensures
            final(self).config == old(self).config,
            final(self).running == old(self).running,
            old(self).table().len() >= old(self).config.max_connections ==> (r matches Err(e)
                && e@ == "Maximum relay connections reached"@ && final(self).table() == old(self).table()),
            old(self).table().len() < old(self).config.max_connections ==> ({
                let id = relay_id(source_addr@, target_addr@);
                &&& r matches Ok(got) && got@ == id
                &&& match connection_ids(old(self).table()).index_of_first(id) {
                    Some(i) => final(self).table().len() == old(self).table().len() && final(self).table()
                        == old(self).table().update(i, final(self).table()[i]),
                    None => final(self).table().len() == old(self).table().len() + 1
                        && final(self).table().drop_last() == old(self).table(),
                }
                &&& connection_ids(final(self).table()).index_of_first(id) matches Some(k) && {
                    let c = final(self).table()[k];
                    &&& c.id@ == id
                    &&& c.source_addr@ == source_addr@
                    &&& c.target_addr@ == target_addr@
                    &&& c.state == ConnectionState::Connecting
                    &&& c.created_at_ms == now_ms && c.last_activity_ms == now_ms
                    &&& c.bytes_transferred == 0
                }
            }),
    {
        let mut id = concat("relay_", source_addr);
        id.append("_");
        id.append(target_addr);
        if self.connections.len() >= self.config.max_connections {
            return Err(owned("Maximum relay connections reached"));
        }
        let connection = RelayConnection {
            id: id.clone(),
            source_addr: owned(source_addr),
            target_addr: owned(target_addr),
            state: ConnectionState::Connecting,
            created_at_ms: now_ms,
            last_activity_ms: now_ms,
            bytes_transferred: 0,
        };
        let ghost before = self.connections@;
        match self.find(id.as_str()) {
            Some(i) => {
                let _ = self.connections.remove(i);
                self.connections.insert(i, connection);
                proof {
                    assert(self.connections@ =~= before.update(i as int, self.connections@[i as int]));
                    assert(connection_ids(self.connections@) =~= connection_ids(before).update(i as int, id@));
                    connection_ids(before).index_of_first_ensures(id@);
                    connection_ids(self.connections@).index_of_first_ensures(id@);
                    assert(connection_ids(self.connections@) =~= connection_ids(before));
                }
            },
            None => {
                self.connections.push(connection);
                proof {
                    let ks = connection_ids(before);
                    let nks = connection_ids(self.connections@);
                    assert(nks =~= ks.push(id@));
                    assert(self.connections@.drop_last() =~= before);
                    ks.index_of_first_ensures(id@);
                    assert(nks[ks.len() as int] == id@);
                    nks.index_of_first_ensures(id@);
                    let f = nks.index_of_first(id@)->0;
                    if f < ks.len() {
                        assert(ks[f] == nks[f]);
                    }
                }
            },
        }
        Ok(id)
    }

    /// Marks the connection with id `connection_id` closed (nothing happens
    /// when there is none).
    pub fn close_relay_connection(&mut self, connection_id: &str) -> (r: Result<(), String>)
        ensures
            r is Ok,
            final(self).config == old(self).config,
            final(self).running == old(self).running,
            match connection_ids(old(self).table()).index_of_first(connection_id@) {
                Some(i) => final(self).table() == old(self).table().update(i,
                    RelayConnection { state: ConnectionState::Closed, ..old(self).table()[i] }),
                None => final(self).table() == old(self).table(),
            },
    {
        match self.find(connection_id) {
            Some(i) => {
                let ghost before = self.connections@;
                let mut c = self.connections.remove(i);
                c.state = ConnectionState::Closed;
                self.connections.insert(i, c);
                proof {
                    assert(self.connections@ =~= before.update(i as int, c));
                }
            },
            None => {},
        }
        Ok(())
    }

    /// Counts `n` more bytes relayed for the first connection from
    /// `source_addr`, at `now` (nothing happens when there is none).
    pub fn record_relayed_bytes(&mut self, source_addr: &str, n: u64, now_ms: i64)
        requires
            forall|i: int| 0 <= i < old(self).table().len() ==> (#[trigger] old(self).table()[i]).bytes_transferred + n <= u64::MAX,
        ensures
            final(self).config == old(self).config,
            final(self).running == old(self).running,
            match old(self).table().map_values(|c: RelayConnection| c.source_addr@).index_of_first(source_addr@) {
                Some(i) => final(self).table() == old(self).table().update(i, RelayConnection {
                    bytes_transferred: (old(self).table()[i].bytes_transferred + n) as u64,
                    last_activity_ms: now_ms,
                    ..old(self).table()[i]
                }),
                None => final(self).table() == old(self).table(),
            },
    {
        let key = owned(source_addr);
        let ghost ks = self.connections@.map_values(|c: RelayConnection| c.source_addr@);
        let mut i: usize = 0;
        while i < self.connections.len()
            invariant
                i <= self.connections@.len(),
                key@ == source_addr@,
                *self == *old(self),
                ks == self.connections@.map_values(|c: RelayConnection| c.source_addr@),
                forall|j: int| 0 <= j < self.connections@.len() ==> (#[trigger] self.connections@[j]).bytes_transferred + n <= u64::MAX,
                forall|j: int| 0 <= j < i ==> ks[j] != source_addr@,
            decreases self.connections@.len() - i,
        {
            if self.connections[i].source_addr == key {
                proof {
                    ks.index_of_first_ensures(source_addr@);
                    assert(ks[i as int] == source_addr@);
                    let f = ks.index_of_first(source_addr@)->0;
                    assert(f == i);
                }
                let ghost before = self.connections@;
                let mut c = self.connections.remove(i);
                c.bytes_transferred = c.bytes_transferred + n;
                c.last_activity_ms = now_ms;
                self.connections.insert(i, c);
                proof {
                    assert(self.connections@ =~= before.update(i as int, c));
                }
                return;
            }
            i = i + 1;
        }
        proof {
            ks.index_of_first_ensures(source_addr@);
            if ks.contains(source_addr@) {
                let j = choose|j: int| 0 <= j < ks.len() && ks[j] == source_addr@;
                assert(ks[j] == source_addr@);
            }
        }
    }

    /// Counts of the table: connections, those connected, bytes relayed,
    /// and the cap.
    pub fn get_relay_stats(&self) -> (s: RelayStats)
        requires
            bytes_total(self.table()) <= u64::MAX,
        ensures
            s.total_connections == self.table().len(),
            s.active_connections == connected_count(self.table()),
            s.total_bytes_transferred == bytes_total(self.table()),
            s.max_connections == self.config.max_connections,
    {
        let mut active: usize = 0;
        let mut total: u64 = 0;
        let mut i: usize = 0;
        proof {
            lemma_bytes_total_prefix(self.connections@, 0);
        }
        while i < self.connections.len()
            invariant
                i <= self.connections@.len(),
                active <= i,
                active == connected_count(self.connections@.take(i as int)),
                total == bytes_total(self.connections@.take(i as int)),
                bytes_total(self.connections@) <= u64::MAX,
            decreases self.connections@.len() - i,
        {
            proof {
                assert(self.connections@.take(i + 1).drop_last() =~= self.connections@.take(i as int));
                lemma_bytes_total_prefix(self.connections@, i + 1);
            }
            if self.connections[i].state == ConnectionState::Connected {
                active = active + 1;
            }
            total = total + self.connections[i].bytes_transferred;
            i = i + 1;
        }
        proof {
            assert(self.connections@.take(i as int) =~= self.connections@);
        }
        RelayStats {
            total_connections: self.connections.len(),
            active_connections: active,
            total_bytes_transferred: total,
            max_connections: self.config.max_connections,
        }
    }
}

/// The bytes of a prefix are at most the bytes of the whole.
pub proof fn lemma_bytes_total_prefix(s: Seq<RelayConnection>, i: int)
    requires
        0 <= i <= s.len(),
    ensures
        bytes_total(s.take(i)) <= bytes_total(s),
    decreases s.len(),
{
    if i < s.len() {
        assert(s.drop_last().take(i) =~= s.take(i));
        lemma_bytes_total_prefix(s.drop_last(), i);
    } else {
        assert(s.take(i) =~= s);
    }
}

} // verus!
