use ledger_pool::consensus::{aggregate_quorum, NodeOutcome, Tally};
use ledger_pool::errors::LedgerError;

fn reply(payload: &str) -> NodeOutcome {
    NodeOutcome::Reply {
        raw: payload.to_string(),
        normalized: payload.to_string(),
        elapsed_ms: 5,
    }
}

#[test]
fn first_value_with_quorum_wins() {
    let events = vec![reply("P"), reply("Q"), reply("P")];
    let r = aggregate_quorum(&events, 2);
    assert_eq!(r.unwrap(), "P");
}

#[test]
fn order_decides_between_two_quorate_values() {
    let one_unreachable = NodeOutcome::Unreachable { elapsed_ms: 0 };
    let order_p_first = vec![
        reply("P"),
        reply("Q"),
        reply("P"),
        reply("Q"),
        reply("P"),
        reply("Q"),
        one_unreachable,
    ];
    let r = aggregate_quorum(&order_p_first, 3);
    assert_eq!(r.unwrap(), "P");

    let order_q_first = vec![
        reply("Q"),
        reply("P"),
        reply("Q"),
        reply("P"),
        reply("Q"),
        reply("P"),
        NodeOutcome::Unreachable { elapsed_ms: 0 },
    ];
    let r = aggregate_quorum(&order_q_first, 3);
    assert_eq!(r.unwrap(), "Q");
}

#[test]
fn exhaustion_without_quorum_reports_tally() {
    let events = vec![reply("P"), reply("Q"), NodeOutcome::Unreachable { elapsed_ms: 0 }, reply("R")];
    let r = aggregate_quorum(&events, 2);
    match r {
        Err(LedgerError::NoConsensus(tally)) => {
            assert_eq!(tally.len(), 3);
            assert!(tally.contains(&("P".to_string(), 1)));
            assert!(tally.contains(&("Q".to_string(), 1)));
            assert!(tally.contains(&("R".to_string(), 1)));
        }
        other => panic!("expected NoConsensus, got {:?}", other.map_err(|e| e.label().to_string())),
    }
}

#[test]
fn no_events_means_empty_tally() {
    let r = aggregate_quorum(&Vec::new(), 1);
    match r {
        Err(LedgerError::NoConsensus(tally)) => assert!(tally.is_empty()),
        _ => panic!("expected NoConsensus"),
    }
}

#[test]
fn agreement_counts_normalized_but_returns_first_raw() {
    let events = vec![
        NodeOutcome::Reply {
            raw: "{\"v\": 1, \"sig\": \"a\"}".to_string(),
            normalized: "{\"v\": 1}".to_string(),
            elapsed_ms: 3,
        },
        NodeOutcome::Reply {
            raw: "{\"v\": 2, \"sig\": \"x\"}".to_string(),
            normalized: "{\"v\": 2}".to_string(),
            elapsed_ms: 4,
        },
        NodeOutcome::Reply {
            raw: "{\"v\": 1, \"sig\": \"b\"}".to_string(),
            normalized: "{\"v\": 1}".to_string(),
            elapsed_ms: 5,
        },
    ];
    let r = aggregate_quorum(&events, 2);
    assert_eq!(r.unwrap(), "{\"v\": 1, \"sig\": \"a\"}");
}

#[test]
fn tally_counts_and_representative() {
    let mut tally = Tally::new();
    let p = "P".to_string();
    let raw1 = "P-first".to_string();
    let raw2 = "P-second".to_string();
    assert_eq!(tally.record(&p, &raw1), 1);
    assert_eq!(tally.record(&p, &raw2), 2);
    assert_eq!(tally.representative(&p), "P-first");
    let counts = tally.into_counts();
    assert_eq!(counts, vec![("P".to_string(), 2)]);
}
