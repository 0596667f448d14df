use ledger_pool::errors::LedgerError;
use ledger_pool::registry::ValidatorRegistry;

fn txns(n: usize) -> Vec<String> {
    (0..n).map(|i| format!("{{\"node\": {}}}", i)).collect()
}

#[test]
fn thresholds_for_four_nodes() {
    let reg = ValidatorRegistry::new(txns(4)).unwrap();
    assert_eq!(reg.node_count(), 4);
    assert_eq!(reg.max_faulty(), 1);
    assert_eq!(reg.quorum(), 2);
}

#[test]
fn thresholds_for_seven_nodes() {
    let reg = ValidatorRegistry::new(txns(7)).unwrap();
    assert_eq!(reg.max_faulty(), 2);
    assert_eq!(reg.quorum(), 3);
}

#[test]
fn thresholds_for_ten_nodes() {
    let reg = ValidatorRegistry::new(txns(10)).unwrap();
    assert_eq!(reg.max_faulty(), 3);
    assert_eq!(reg.quorum(), 4);
}

#[test]
fn construction_with_empty_list_fails() {
    let r = ValidatorRegistry::new(Vec::new());
    assert!(matches!(r, Err(LedgerError::InvalidStructure)));
}

#[test]
fn construction_with_three_nodes_fails() {
    let r = ValidatorRegistry::new(txns(3));
    assert!(matches!(r, Err(LedgerError::InvalidStructure)));
}

#[test]
fn registry_keeps_transactions_in_order() {
    let reg = ValidatorRegistry::new(txns(5)).unwrap();
    assert_eq!(reg.transaction(0), "{\"node\": 0}");
    assert_eq!(reg.transaction(4), "{\"node\": 4}");
}
