use ledger_pool::config::PoolConfig;
use ledger_pool::consensus::NodeOutcome;
use ledger_pool::networker::{InMemoryNetworker, Networker};
use ledger_pool::requests::{LedgerType, Request};

fn request(req_id: u64) -> Request {
    Request { req_id, ledger_type: LedgerType::Domain, seq_no: 1 }
}

#[test]
fn completions_arrive_in_send_order() {
    let mut net = InMemoryNetworker::create(PoolConfig::default(), 3);
    net.set_outcome(
        1,
        NodeOutcome::Reply {
            raw: "payload".to_string(),
            normalized: "payload".to_string(),
            elapsed_ms: 9,
        },
    );
    let req = request(7);
    net.send(2, &req);
    net.send(1, &req);

    let (node, outcome) = net.recv().unwrap();
    assert_eq!(node, 2);
    assert!(matches!(outcome, NodeOutcome::Unreachable { .. }));

    let (node, outcome) = net.recv().unwrap();
    assert_eq!(node, 1);
    match outcome {
        NodeOutcome::Reply { raw, normalized, elapsed_ms } => {
            assert_eq!(raw, "payload");
            assert_eq!(normalized, "payload");
            assert_eq!(elapsed_ms, 9);
        }
        NodeOutcome::Unreachable { .. } => panic!("node 1 was scripted with a reply"),
    }

    assert!(net.recv().is_none());
}

#[test]
fn cancel_discards_outstanding_sends_and_is_idempotent() {
    let mut net = InMemoryNetworker::create(PoolConfig::default(), 4);
    let req = request(9);
    net.send(0, &req);
    net.send(3, &req);
    net.cancel(9);
    assert!(net.recv().is_none());
    net.cancel(9);
    assert!(net.recv().is_none());
}
