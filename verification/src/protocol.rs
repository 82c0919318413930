//! Messages of the network protocols, their handlers, and the manager that
//! routes each message to the handler registered for its protocol.

use vstd::prelude::*;
use crate::keyed::{Keyed, keys_of, lookup, stored, removed, find_key, store, remove_key};
use crate::text::owned;

verus! {

/// Kinds of block message.
#[derive(Debug, Clone, Copy, PartialEq, Eq, Structural)]
pub enum BlockMessageType {
    Announcement,
    Request,
    Response,
    Validation,
}

/// Kinds of transaction message.
#[derive(Debug, Clone, Copy, PartialEq, Eq, Structural)]
pub enum TransactionMessageType {
    Announcement,
    Request,
    Response,
    Validation,
}

/// Kinds of consensus message.
#[derive(Debug, Clone, Copy, PartialEq, Eq, Structural)]
pub enum ConsensusMessageType {
    BlockProposal,
    BlockVote,
    RoundChange,
    ViewChange,
}

/// Kinds of storage message.
#[derive(Debug, Clone, Copy, PartialEq, Eq, Structural)]
pub enum StorageMessageType {
    Request,
    Response,
    Proof,
    Challenge,
}

/// Kinds of domain message.
#[derive(Debug, Clone, Copy, PartialEq, Eq, Structural)]
pub enum DomainMessageType {
    Registration,
    Renewal,
    Transfer,
    Query,
}

/// Handles the block protocol.
pub struct BlockProtocolHandler;

/// Handles the transaction protocol.
pub struct TransactionProtocolHandler;

/// Handles the consensus protocol.
pub struct ConsensusProtocolHandler;

/// Handles the storage protocol.
pub struct StorageProtocolHandler;

/// Handles the domain protocol.
pub struct DomainProtocolHandler;

/// A block message; the time is in milliseconds since the Unix epoch.
#[derive(Debug)]
pub struct BlockMessage {
    pub msg_type: BlockMessageType,
    pub block_data: Option<Vec<u8>>,
    pub block_hash: Option<[u8; 32]>,
    pub height: Option<u64>,
    pub timestamp: i64,
}

/// A transaction message; the time is in milliseconds since the Unix epoch.
#[derive(Debug)]
pub struct TransactionMessage {
    pub msg_type: TransactionMessageType,
    pub tx_data: Option<Vec<u8>>,
    pub tx_hash: Option<[u8; 32]>,
    pub tx_type: Option<String>,
    pub timestamp: i64,
}

/// A consensus message; the time is in milliseconds since the Unix epoch.
#[derive(Debug)]
pub struct ConsensusMessage {
    pub msg_type: ConsensusMessageType,
    pub round: u64,
    pub phase: String,
    pub payload: Option<Vec<u8>>,
    pub timestamp: i64,
}

/// A storage message; the time is in milliseconds since the Unix epoch.
#[derive(Debug)]
pub struct StorageMessage {
    pub msg_type: StorageMessageType,
    pub file_hash: Option<[u8; 32]>,
    pub shard_index: Option<u32>,
    pub shard_data: Option<Vec<u8>>,
    pub proof: Option<Vec<u8>>,
    pub timestamp: i64,
}

/// A domain message; the time is in milliseconds since the Unix epoch.
#[derive(Debug)]
pub struct DomainMessage {
    pub msg_type: DomainMessageType,
    pub domain_name: Option<String>,
    pub domain_data: Option<Vec<u8>>,
    pub timestamp: i64,
}

/// A message of one of the protocols.
#[derive(Debug)]
pub enum ProtocolMessage {
    Block(BlockMessage),
    Transaction(TransactionMessage),
    Consensus(ConsensusMessage),
    Storage(StorageMessage),
    Domain(DomainMessage),
}

/// The name of the protocol a message belongs to.
pub open spec fn protocol_of(m: ProtocolMessage) -> Seq<char> {
    match m {
        ProtocolMessage::Block(_) => "block"@,
        ProtocolMessage::Transaction(_) => "transaction"@,
        ProtocolMessage::Consensus(_) => "consensus"@,
        ProtocolMessage::Storage(_) => "storage"@,
        ProtocolMessage::Domain(_) => "domain"@,
    }
}

/// The name of the protocol `m` belongs to.
pub fn message_protocol(m: &ProtocolMessage) -> (r: &'static str)
    ensures
        r@ == protocol_of(*m),
{
    match m {
        ProtocolMessage::Block(_) => "block",
        ProtocolMessage::Transaction(_) => "transaction",
        ProtocolMessage::Consensus(_) => "consensus",
        ProtocolMessage::Storage(_) => "storage",
        ProtocolMessage::Domain(_) => "domain",
    }
}

/// Something that handles the messages of one protocol. Its users
/// implement it; nothing is assumed of what the methods return.
pub trait ProtocolHandler {
    /// Handles `message`.
    fn handle_message(&self, message: ProtocolMessage) -> Result<(), String>;

    /// The protocol's name.
    fn protocol_name(&self) -> &str;
}

/// What became of a message handed to the manager.
#[derive(Debug, PartialEq, Eq)]
pub enum Dispatch {
    /// The protocol's handler took it.
    Handled,
    /// The protocol's handler failed with this message.
    Failed(String),
    /// No handler is registered for the protocol.
    Unhandled,
}

/// A handler under the name of its protocol.
pub struct HandlerEntry<H> {
    pub name: String,
    pub handler: H,
}

impl<H> Keyed for HandlerEntry<H> {
    open spec fn key_view(&self) -> Seq<char> {
        self.name@
    }

    fn key(&self) -> (k: &String) {
        &self.name
    }
}

/// Routes messages to the handlers registered by protocol name. `H` is the
/// type of the handlers, such as an enum of the protocols a node speaks.
pub struct ProtocolManager<H: ProtocolHandler> {
    handlers: Vec<HandlerEntry<H>>,
    running: bool,
    receiver_taken: bool,
}

/// The message when the manager is started a second time.
pub open spec fn receiver_taken_message() -> Seq<char> {
    "Message receiver already taken"@
}

impl<H: ProtocolHandler> ProtocolManager<H> {
    /// The registered handlers under their names, in registration order.
    pub closed spec fn entries(&self) -> Seq<HandlerEntry<H>> {
        self.handlers@
    }

    /// The names of the registered handlers, in registration order.
    pub open spec fn names(&self) -> Seq<Seq<char>> {
        keys_of(self.entries())
    }

    /// Whether the manager runs.
    pub closed spec fn is_running(&self) -> bool {
        self.running
    }

    /// Whether the message loop has been started before.
    pub closed spec fn started_before(&self) -> bool {
        self.receiver_taken
    }

    /// No two handlers share a name.
    pub open spec fn wf(&self) -> bool {
        self.names().no_duplicates()
    }

    /// An empty manager, not running.
    pub fn new() -> (m: Self)
        ensures
            m.wf(),
            m.entries().len() == 0,
            !m.is_running(),
            !m.started_before(),
    {
        ProtocolManager { handlers: Vec::new(), running: false, receiver_taken: false }
    }

    /// Whether the manager runs.
    pub fn running(&self) -> (b: bool)
        ensures
            b == self.is_running(),
    {
        self.running
    }

    /// Marks the manager running and hands its message loop over, which can
    /// be done once.
    pub fn start(&mut self) -> (r: Result<(), String>)
        ensures
            final(self).is_running(),
            final(self).started_before(),
            final(self).entries() == old(self).entries(),
            match r {
                Ok(_) => !old(self).started_before(),
                Err(e) => old(self).started_before() && e@ == receiver_taken_message(),
            },
    {
        self.running = true;
        if self.receiver_taken {
            return Err(owned("Message receiver already taken"));
        }
        self.receiver_taken = true;
        Ok(())
    }

    /// Marks the manager stopped.
    pub fn stop(&mut self) -> (r: Result<(), String>)
        ensures
            r is Ok,
            !final(self).is_running(),
            final(self).started_before() == old(self).started_before(),
            final(self).entries() == old(self).entries(),
    {
        self.running = false;
        Ok(())
    }

    /// Registers `handler` under the name it gives for its protocol,
    /// replacing the handler with that name in place.
    pub fn register_handler(&mut self, handler: H) -> (r: Result<(), String>)
        requires
            old(self).wf(),
        ensures
            r is Ok,
            final(self).wf(),
            exists|e: HandlerEntry<H>| #![auto]
                e.handler == handler && final(self).entries() == stored(old(self).entries(), e),
            final(self).is_running() == old(self).is_running(),
            final(self).started_before() == old(self).started_before(),
    {
        let name = owned(handler.protocol_name());
        let entry = HandlerEntry { name, handler };
        let ghost e = entry;
        store(&mut self.handlers, entry);
        Ok(())
    }

    /// Removes the handler named `protocol_name`, if any.
    pub fn unregister_handler(&mut self, protocol_name: &str) -> (r: Result<(), String>)
        requires
            old(self).wf(),
        ensures
            r is Ok,
            final(self).wf(),
            final(self).entries() == removed(old(self).entries(), protocol_name@),
            !final(self).names().contains(protocol_name@),
            final(self).is_running() == old(self).is_running(),
            final(self).started_before() == old(self).started_before(),
    {
        remove_key(&mut self.handlers, protocol_name);
        Ok(())
    }

    /// The names of the registered protocols.
    pub fn get_registered_protocols(&self) -> (r: Vec<String>)
        ensures
            r@.map_values(|s: String| s@) == self.names(),
    {
        let mut r: Vec<String> = Vec::new();
        let mut i: usize = 0;
        while i < self.handlers.len()
            invariant
                i <= self.handlers@.len(),
                r@.map_values(|s: String| s@) =~= self.names().take(i as int),
            decreases self.handlers@.len() - i,
        {
            let n = self.handlers[i].name.clone();
            let ghost before = r@;
            r.push(n);
            proof {
                assert(r@.map_values(|s: String| s@) =~= before.map_values(|s: String| s@).push(n@));
                assert(self.names().take(i as int + 1) =~= self.names().take(i as int).push(self.names()[i as int]));
            }
            i = i + 1;
        }
        proof {
            assert(self.names().take(self.names().len() as int) =~= self.names());
        }
        r
    }

    /// Hands `message` to the handler registered for its protocol.
    pub fn process_message(&self, message: ProtocolMessage) -> (r: Dispatch)
        ensures
            (r is Unhandled) <==> lookup(self.entries(), protocol_of(message)) is None,
    {
        let name = message_protocol(&message);
        match find_key(&self.handlers, name) {
            Some(i) => {
                match self.handlers[i].handler.handle_message(message) {
                    Ok(()) => Dispatch::Handled,
                    Err(e) => Dispatch::Failed(e),
                }
            },
            None => Dispatch::Unhandled,
        }
    }
}

impl ProtocolHandler for BlockProtocolHandler {
    /// Takes any message; only block messages concern it.
    fn handle_message(&self, message: ProtocolMessage) -> (r: Result<(), String>)
        ensures
            r is Ok,
    {
        Ok(())
    }

    fn protocol_name(&self) -> (r: &str)
        ensures
            r@ == "block"@,
    {
        "block"
    }
}

impl ProtocolHandler for TransactionProtocolHandler {
    /// Takes any message; only transaction messages concern it.
    fn handle_message(&self, message: ProtocolMessage) -> (r: Result<(), String>)
        ensures
            r is Ok,
    {
        Ok(())
    }

    fn protocol_name(&self) -> (r: &str)
        ensures
            r@ == "transaction"@,
    {
        "transaction"
    }
}

impl ProtocolHandler for ConsensusProtocolHandler {
    /// Takes any message; only consensus messages concern it.
    fn handle_message(&self, message: ProtocolMessage) -> (r: Result<(), String>)
        ensures
            r is Ok,
    {
        Ok(())
    }

    fn protocol_name(&self) -> (r: &str)
        ensures
            r@ == "consensus"@,
    {
        "consensus"
    }
}

impl ProtocolHandler for StorageProtocolHandler {
    /// Takes any message; only storage messages concern it.
    fn handle_message(&self, message: ProtocolMessage) -> (r: Result<(), String>)
        ensures
            r is Ok,
    {
        Ok(())
    }

    fn protocol_name(&self) -> (r: &str)
        ensures
            r@ == "storage"@,
    {
        "storage"
    }
}

impl ProtocolHandler for DomainProtocolHandler {
    /// Takes any message; only domain messages concern it.
    fn handle_message(&self, message: ProtocolMessage) -> (r: Result<(), String>)
        ensures
            r is Ok,
    {
        Ok(())
    }

    fn protocol_name(&self) -> (r: &str)
        ensures
            r@ == "domain"@,
    {
        "domain"
    }
}

} // verus!
