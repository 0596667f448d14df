use ledger_pool::config::{PoolConfig, ProtocolVersion};
use ledger_pool::consensus::NodeOutcome;
use ledger_pool::errors::{format_result, LedgerError};
use ledger_pool::networker::InMemoryNetworker;
use ledger_pool::pool::AbstractPool;
use ledger_pool::pool_factory::PoolFactory;
use ledger_pool::registry::ValidatorRegistry;
use ledger_pool::requests::LedgerType;
use ledger_pool::shared::LocalPool;

fn txns(n: usize) -> Vec<String> {
    (0..n).map(|i| format!("{{\"node\": {}}}", i)).collect()
}

/// A pool whose node `i` is scripted with `outcomes[i]`: a payload, or
/// unreachable when absent.
fn scripted_pool(outcomes: &[Option<&str>]) -> LocalPool {
    let registry = ValidatorRegistry::new(txns(outcomes.len())).unwrap();
    let mut networker = InMemoryNetworker::create(PoolConfig::default(), registry.node_count());
    for (i, o) in outcomes.iter().enumerate() {
        if let Some(payload) = o {
            networker.set_outcome(
                i,
                NodeOutcome::Reply {
                    raw: payload.to_string(),
                    normalized: payload.to_string(),
                    elapsed_ms: 5,
                },
            );
        }
    }
    AbstractPool::new(PoolConfig::default(), registry, networker)
}

#[test]
fn consensus_three_against_one_agrees_on_majority() {
    let mut pool = scripted_pool(&[Some("P"), Some("P"), Some("P"), Some("Q")]);
    let r = pool.get_txn_consensus(LedgerType::Domain, 1);
    assert_eq!(r.unwrap().0, "P");
}

#[test]
fn consensus_stops_at_second_matching_reply() {
    // The fourth node would disagree, but the quorum of two is complete
    // after the second reply, so its outcome can no longer matter.
    let mut pool = scripted_pool(&[Some("P"), Some("P"), Some("Q"), Some("Q")]);
    let r = pool.get_txn_consensus(LedgerType::Domain, 1);
    assert_eq!(r.unwrap().0, "P");
}

#[test]
fn consensus_seven_nodes_split_with_one_down() {
    // Three report P, three report Q, one is unreachable; the quorum is
    // three, and whichever value gathers three matching replies first in
    // arrival order wins.
    let mut pool = scripted_pool(&[
        Some("P"),
        Some("Q"),
        Some("P"),
        Some("Q"),
        Some("P"),
        Some("Q"),
        None,
    ]);
    let r = pool.get_txn_consensus(LedgerType::Domain, 1);
    assert_eq!(r.unwrap().0, "P");
}

#[test]
fn consensus_all_unreachable_is_no_consensus_with_empty_tally() {
    let mut pool = scripted_pool(&[None, None, None, None]);
    let r = pool.get_txn_consensus(LedgerType::Domain, 1);
    match r {
        Err(LedgerError::NoConsensus(tally)) => assert!(tally.is_empty()),
        other => panic!("expected NoConsensus, got {:?}", other),
    }
}

#[test]
fn consensus_without_majority_reports_counts() {
    let mut pool = scripted_pool(&[Some("P"), Some("Q"), Some("R"), None]);
    let r = pool.get_txn_consensus(LedgerType::Domain, 1);
    match r {
        Err(LedgerError::NoConsensus(tally)) => {
            assert_eq!(tally.len(), 3);
            assert!(tally.contains(&("P".to_string(), 1)));
            assert!(tally.contains(&("Q".to_string(), 1)));
            assert!(tally.contains(&("R".to_string(), 1)));
        }
        other => panic!("expected NoConsensus, got {:?}", other),
    }
}

#[test]
fn single_strategy_walks_nodes_round_robin() {
    let mut pool = scripted_pool(&[Some("A"), None, Some("C"), Some("D")]);
    assert_eq!(pool.get_txn(LedgerType::Domain, 1).unwrap().0, "A");
    assert!(matches!(
        pool.get_txn(LedgerType::Domain, 1),
        Err(LedgerError::ConnectionError)
    ));
    assert_eq!(pool.get_txn(LedgerType::Domain, 1).unwrap().0, "C");
    assert_eq!(pool.get_txn(LedgerType::Domain, 1).unwrap().0, "D");
    assert_eq!(pool.get_txn(LedgerType::Domain, 1).unwrap().0, "A");
}

#[test]
fn full_set_returns_one_entry_per_node() {
    let mut pool = scripted_pool(&[Some("P"), None, Some("Q"), None]);
    let (entries, timing) = pool.get_txn_full(LedgerType::Domain, 1).unwrap();
    assert_eq!(entries.len(), 4);
    assert_eq!(entries[0].0, 0);
    assert_eq!(entries[0].1.as_deref().unwrap(), "P");
    assert!(matches!(entries[1].1, Err(LedgerError::ConnectionError)));
    assert_eq!(entries[2].1.as_deref().unwrap(), "Q");
    assert!(matches!(entries[3].1, Err(LedgerError::ConnectionError)));
    assert_eq!(entries[3].0, 3);
    assert_eq!(timing, vec![(0, 5), (1, 0), (2, 5), (3, 0)]);
}

#[test]
fn full_set_fails_only_when_no_node_was_contactable() {
    let mut pool = scripted_pool(&[None, None, None, None]);
    let r = pool.get_txn_full(LedgerType::Domain, 1);
    assert!(matches!(r, Err(LedgerError::ConnectionError)));
}

#[test]
fn request_ids_increase_across_strategies() {
    let mut pool = scripted_pool(&[Some("P"), Some("P"), Some("P"), Some("P")]);
    assert_eq!(pool.next_request_id(), 1);
    pool.get_txn(LedgerType::Domain, 1).unwrap();
    assert_eq!(pool.next_request_id(), 2);
    pool.get_txn_consensus(LedgerType::Domain, 1).unwrap();
    assert_eq!(pool.next_request_id(), 3);
    pool.get_txn_full(LedgerType::Domain, 1).unwrap();
    assert_eq!(pool.next_request_id(), 4);
}

#[test]
fn factory_pool_has_no_reachable_nodes_until_connected() {
    let factory = PoolFactory::from_genesis_lines(&txns(4)).unwrap();
    let mut pool = factory.create_local().unwrap();
    assert!(matches!(
        pool.get_txn(LedgerType::Domain, 1),
        Err(LedgerError::ConnectionError)
    ));
    match pool.get_txn_consensus(LedgerType::Domain, 1) {
        Err(LedgerError::NoConsensus(tally)) => assert!(tally.is_empty()),
        other => panic!("expected NoConsensus, got {:?}", other),
    }
}

#[test]
fn shared_pool_reports_its_validator_count_and_thresholds() {
    let factory = PoolFactory::from_genesis_lines(&txns(7)).unwrap();
    let shared = factory.create_shared().unwrap();
    assert_eq!(shared.node_count(), 7);
    assert_eq!(shared.max_faulty(), 2);
    assert_eq!(shared.quorum(), 3);
}

#[test]
fn shared_pool_clones_share_one_id_space() {
    let factory = PoolFactory::from_genesis_lines(&txns(4)).unwrap();
    let shared = factory.create_shared().unwrap();
    let clone = shared.clone();
    assert_eq!(shared.next_request_id(), 1);
    let _ = shared.get_txn(LedgerType::Domain, 1);
    assert_eq!(clone.next_request_id(), 2);
    let _ = clone.get_txn_consensus(LedgerType::Domain, 1);
    assert_eq!(shared.next_request_id(), 3);
    assert!(matches!(
        shared.get_txn(LedgerType::Domain, 1),
        Err(LedgerError::ConnectionError)
    ));
    assert!(matches!(
        clone.get_txn_consensus(LedgerType::Domain, 1),
        Err(LedgerError::NoConsensus(_))
    ));
    assert!(matches!(
        shared.get_txn_full(LedgerType::Domain, 1),
        Err(LedgerError::ConnectionError)
    ));
}

#[test]
fn in_flight_limit_of_one_gives_the_same_answers() {
    let mut config = PoolConfig::default();
    config.conn_limit = 1;
    let registry = ValidatorRegistry::new(txns(4)).unwrap();
    let mut networker = InMemoryNetworker::create(config, registry.node_count());
    for (i, payload) in ["P", "P", "Q", "Q"].iter().enumerate() {
        networker.set_outcome(
            i,
            NodeOutcome::Reply {
                raw: payload.to_string(),
                normalized: payload.to_string(),
                elapsed_ms: 5,
            },
        );
    }
    let mut pool = AbstractPool::new(config, registry, networker);
    assert_eq!(pool.get_txn_consensus(LedgerType::Domain, 1).unwrap().0, "P");
    let (entries, _) = pool.get_txn_full(LedgerType::Domain, 1).unwrap();
    assert_eq!(entries.len(), 4);
    assert_eq!(entries[3].1.as_deref().unwrap(), "Q");
}

#[test]
fn protocol_version_can_be_set_before_creating_pools() {
    let mut factory = PoolFactory::from_genesis_lines(&txns(4)).unwrap();
    assert_eq!(factory.config.protocol_version, 2);
    factory.set_protocol_version(ProtocolVersion::Node1_3);
    assert_eq!(factory.config.protocol_version, 1);
    factory.set_protocol_version(ProtocolVersion::Node1_4);
    assert_eq!(factory.config.protocol_version, 2);
}

#[test]
fn default_config_values() {
    let config = PoolConfig::default();
    assert_eq!(config.protocol_version, 2);
    assert_eq!(config.ack_timeout_ms, 5000);
    assert_eq!(config.reply_timeout_ms, 60000);
    assert_eq!(config.conn_limit, 8);
}

#[test]
fn results_format_to_payload_timing_or_label() {
    let formatted = format_result(&Ok(("x".to_string(), vec![(0, 7), (1, 1234)])));
    assert_eq!(formatted, "x\n\nnode 0: 7 ms\nnode 1: 1234 ms\n");
    assert_eq!(format_result(&Ok(("y".to_string(), Vec::new()))), "y\n\n");
    assert_eq!(format_result(&Err(LedgerError::ConnectionError)), "connection error");
    assert_eq!(format_result(&Err(LedgerError::NoConsensus(Vec::new()))), "no consensus");
}

#[test]
fn timing_record_per_contacted_node() {
    let registry = ValidatorRegistry::new(txns(4)).unwrap();
    let mut networker = InMemoryNetworker::create(PoolConfig::default(), registry.node_count());
    for (i, (payload, ms)) in [("P", 5), ("P", 7), ("Q", 11), ("Q", 13)].iter().enumerate() {
        networker.set_outcome(
            i,
            NodeOutcome::Reply {
                raw: payload.to_string(),
                normalized: payload.to_string(),
                elapsed_ms: *ms,
            },
        );
    }
    let mut pool = AbstractPool::new(PoolConfig::default(), registry, networker);
    let (msg, timing) = pool.get_txn_consensus(LedgerType::Domain, 1).unwrap();
    assert_eq!(msg, "P");
    assert_eq!(timing, vec![(0, 5), (1, 7)]);
    let (payload, timing) = pool.get_txn(LedgerType::Domain, 1).unwrap();
    assert_eq!(payload, "P");
    assert_eq!(timing, vec![(0, 5)]);
    let (_, timing) = pool.get_txn_full(LedgerType::Domain, 1).unwrap();
    assert_eq!(timing, vec![(0, 5), (1, 7), (2, 11), (3, 13)]);
}

#[test]
fn error_labels_are_stable() {
    assert_eq!(LedgerError::InvalidStructure.label(), "invalid structure");
    assert_eq!(LedgerError::ConnectionError.label(), "connection error");
    assert_eq!(LedgerError::Timeout.label(), "timeout");
    assert_eq!(LedgerError::NoConsensus(Vec::new()).label(), "no consensus");
    assert_eq!(LedgerError::Cancelled.label(), "cancelled");
}
