use ippan::protocol::{
    BlockMessage, BlockMessageType, BlockProtocolHandler, ConsensusMessage, ConsensusMessageType,
    Dispatch, DomainProtocolHandler, ProtocolHandler, ProtocolManager, ProtocolMessage,
    TransactionMessage, TransactionMessageType,
};

enum Handler {
    Block(BlockProtocolHandler),
    Domain(DomainProtocolHandler),
    Failing,
}

impl ProtocolHandler for Handler {
    fn handle_message(&self, message: ProtocolMessage) -> Result<(), String> {
        match self {
            Handler::Block(h) => h.handle_message(message),
            Handler::Domain(h) => h.handle_message(message),
            Handler::Failing => Err("cannot take it".to_string()),
        }
    }

    fn protocol_name(&self) -> &str {
        match self {
            Handler::Block(h) => h.protocol_name(),
            Handler::Domain(h) => h.protocol_name(),
            Handler::Failing => "consensus",
        }
    }
}

fn block_message() -> ProtocolMessage {
    ProtocolMessage::Block(BlockMessage {
        msg_type: BlockMessageType::Announcement,
        block_data: Some(vec![1, 2, 3, 4]),
        block_hash: Some([1u8; 32]),
        height: Some(123),
        timestamp: 1_700_000_000_000,
    })
}

#[test]
fn test_protocol_manager_creation() {
    let manager: ProtocolManager<BlockProtocolHandler> = ProtocolManager::new();
    assert!(!manager.running());
}

#[test]
fn test_protocol_manager_start_stop() {
    let mut manager: ProtocolManager<BlockProtocolHandler> = ProtocolManager::new();
    manager.start().unwrap();
    assert!(manager.running());
    manager.stop().unwrap();
    assert!(!manager.running());
}

#[test]
fn test_protocol_handler_registration() {
    let mut manager = ProtocolManager::new();
    manager.register_handler(BlockProtocolHandler).unwrap();
    let protocols = manager.get_registered_protocols();
    assert!(protocols.contains(&"block".to_string()));
}

#[test]
fn protocol_manager_starts_once() {
    let mut manager: ProtocolManager<Handler> = ProtocolManager::new();
    assert_eq!(manager.start(), Ok(()));
    manager.stop().unwrap();
    assert_eq!(manager.start(), Err("Message receiver already taken".to_string()));
    assert!(manager.running());
}

#[test]
fn protocol_messages_reach_their_handler() {
    let mut manager = ProtocolManager::new();
    manager.register_handler(Handler::Block(BlockProtocolHandler)).unwrap();
    manager.register_handler(Handler::Domain(DomainProtocolHandler)).unwrap();
    manager.register_handler(Handler::Failing).unwrap();
    manager.register_handler(Handler::Block(BlockProtocolHandler)).unwrap();
    assert_eq!(manager.get_registered_protocols(), vec!["block".to_string(), "domain".to_string(), "consensus".to_string()]);

    assert_eq!(manager.process_message(block_message()), Dispatch::Handled);
    let vote = ProtocolMessage::Consensus(ConsensusMessage {
        msg_type: ConsensusMessageType::BlockVote,
        round: 7,
        phase: "commit".to_string(),
        payload: None,
        timestamp: 0,
    });
    assert_eq!(manager.process_message(vote), Dispatch::Failed("cannot take it".to_string()));
    let tx = ProtocolMessage::Transaction(TransactionMessage {
        msg_type: TransactionMessageType::Announcement,
        tx_data: Some(vec![1, 2, 3, 4]),
        tx_hash: Some([1u8; 32]),
        tx_type: Some("payment".to_string()),
        timestamp: 0,
    });
    assert_eq!(manager.process_message(tx), Dispatch::Unhandled);

    manager.unregister_handler("block").unwrap();
    manager.unregister_handler("absent").unwrap();
    assert_eq!(manager.get_registered_protocols(), vec!["domain".to_string(), "consensus".to_string()]);
    assert_eq!(manager.process_message(block_message()), Dispatch::Unhandled);
}
