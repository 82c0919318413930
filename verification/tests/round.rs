use ippan::round::{select_verifier_set, Block, BlockHeader, Round, RoundError, RoundManager};

#[test]
fn test_round_creation() {
    let verifier_set = vec![[1u8; 32], [2u8; 32], [3u8; 32]];
    let round = Round::new(1, 1234567890, verifier_set.clone());

    assert_eq!(round.round_id, 1);
    assert_eq!(round.verifier_set, verifier_set);
    assert!(!round.is_finalized());
}

#[test]
fn test_round_manager() {
    let mut manager = RoundManager::new(200);

    let verifier_set = vec![[1u8; 32], [2u8; 32], [3u8; 32]];
    manager.start_new_round(1, 1234567890, verifier_set);

    let current_round = manager.get_current_round();
    assert!(current_round.is_some());
    assert_eq!(current_round.unwrap().round_id, 1);
}

#[test]
fn test_verifier_selection() {
    let validators = vec![[1u8; 32], [2u8; 32], [3u8; 32], [4u8; 32], [5u8; 32]];
    let previous_hash = [0u8; 32];

    let verifier_set = select_verifier_set(&previous_hash, &validators, 3);
    assert_eq!(verifier_set.len(), 3);
}

#[test]
fn test_block_addition_to_round() {
    let verifier_set = vec![[1u8; 32], [2u8; 32], [3u8; 32]];
    let mut round = Round::new(1, 1234567890, verifier_set);

    let block = Block { header: BlockHeader { round_id: 1 }, id: [1u8; 32], transaction_count: 1 };

    round.add_block(block).unwrap();
    assert_eq!(round.get_all_blocks().len(), 1);
}

#[test]
fn verifier_selection_is_distinct_members_and_deterministic() {
    let validators = vec![[1u8; 32], [2u8; 32], [3u8; 32], [4u8; 32], [5u8; 32]];
    let a = select_verifier_set(&[7u8; 32], &validators, 4);
    let b = select_verifier_set(&[7u8; 32], &validators, 4);
    assert_eq!(a, b);
    assert_eq!(a.len(), 4);
    for (i, x) in a.iter().enumerate() {
        assert!(validators.contains(x));
        for y in &a[i + 1..] {
            assert_ne!(x, y);
        }
    }
    assert_eq!(select_verifier_set(&[7u8; 32], &validators, 9).len(), 5);
    assert!(select_verifier_set(&[7u8; 32], &[], 0).is_empty());
}

#[test]
fn round_rejects_foreign_blocks_and_finalizes_at_quorum() {
    let verifier_set = vec![[1u8; 32], [2u8; 32], [3u8; 32]];
    let mut round = Round::new(4, 0, verifier_set);
    assert_eq!(round.finality_threshold, 3);
    let foreign = Block { header: BlockHeader { round_id: 5 }, id: [9u8; 32], transaction_count: 2 };
    assert_eq!(round.add_block(foreign), Err(RoundError::RoundMismatch { block_round: 5, round: 4 }));
    assert_eq!(round.add_finality_signature([8u8; 32], [0u8; 64]), Err(RoundError::NotVerifier));
    assert_eq!(round.add_finality_signature([1u8; 32], [0u8; 64]), Ok(false));
    assert_eq!(round.add_finality_signature([1u8; 32], [1u8; 64]), Ok(false));
    assert_eq!(round.add_finality_signature([2u8; 32], [0u8; 64]), Ok(false));
    assert_eq!(round.add_finality_signature([3u8; 32], [0u8; 64]), Ok(true));
    assert!(round.is_finalized());
    round.end_round(5_000_000);
    assert_eq!(round.duration_ms(), 5000);
}

#[test]
fn manager_clamps_cadence_and_archives_rounds() {
    assert_eq!(RoundManager::new(10).get_round_cadence_ms(), 100);
    assert_eq!(RoundManager::new(1000).get_round_cadence_ms(), 250);
    let mut manager = RoundManager::new(200);
    let b = Block { header: BlockHeader { round_id: 1 }, id: [1u8; 32], transaction_count: 1 };
    assert_eq!(manager.add_block_to_current_round(b), Err(RoundError::NoCurrentRound));
    manager.start_new_round(1, 0, vec![[1u8; 32]]);
    manager.start_new_round(2, 10, vec![[1u8; 32]]);
    assert_eq!(manager.get_completed_rounds().len(), 1);
    assert_eq!(manager.get_current_round().unwrap().round_id, 2);
}

#[test]
fn final_round_holds_its_quorum_of_signatures() {
    let mut round = Round::new(7, 0, vec![[1u8; 32], [2u8; 32]]);
    assert_eq!(round.add_finality_signature([1u8; 32], [0u8; 64]), Ok(false));
    assert_eq!(round.add_finality_signature([2u8; 32], [0u8; 64]), Ok(true));
    assert!(round.is_finalized());
    assert!(round.finality_signatures.len() >= round.finality_threshold);
    round.end_round(10);
    assert!(round.is_finalized());
}
