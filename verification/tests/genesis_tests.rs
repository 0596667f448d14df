use ledger_pool::errors::LedgerError;
use ledger_pool::genesis::transactions_from_genesis;
use ledger_pool::pool_factory::PoolFactory;

fn lines(ls: &[&str]) -> Vec<String> {
    ls.iter().map(|l| l.to_string()).collect()
}

#[test]
fn blank_lines_are_dropped_and_order_kept() {
    let input = lines(&["{\"a\": 1}", "", "  \t ", "{\"b\": 2}", "\r\n"]);
    let txns = transactions_from_genesis(&input).unwrap();
    assert_eq!(txns, vec!["{\"a\": 1}".to_string(), "{\"b\": 2}".to_string()]);
}

#[test]
fn malformed_record_is_rejected() {
    let input = lines(&["{\"a\": 1}", "not a json object"]);
    let r = transactions_from_genesis(&input);
    assert!(matches!(r, Err(LedgerError::InvalidStructure)));
}

#[test]
fn json_scalar_is_not_a_record() {
    let input = lines(&["42"]);
    let r = transactions_from_genesis(&input);
    assert!(matches!(r, Err(LedgerError::InvalidStructure)));
}

#[test]
fn unicode_whitespace_lines_are_blank() {
    let input = lines(&["\u{0C}\u{3000}\u{A0}", "{\"a\": 1}", "\u{2028}\u{2009}"]);
    let txns = transactions_from_genesis(&input).unwrap();
    assert_eq!(txns, vec!["{\"a\": 1}".to_string()]);
}

#[test]
fn empty_genesis_fails_factory_construction() {
    let r = PoolFactory::from_genesis_lines(&Vec::new());
    assert!(matches!(r, Err(LedgerError::InvalidStructure)));
}

#[test]
fn all_blank_genesis_fails_factory_construction() {
    let r = PoolFactory::from_genesis_lines(&lines(&["", "   "]));
    assert!(matches!(r, Err(LedgerError::InvalidStructure)));
}

#[test]
fn one_blank_line_one_record_gives_single_validator_and_no_pool() {
    let factory = PoolFactory::from_genesis_lines(&lines(&["", "{\"dest\": \"n1\"}"])).unwrap();
    assert_eq!(factory.transactions.len(), 1);
    let r = factory.create_local();
    assert!(matches!(r, Err(LedgerError::InvalidStructure)));
    let r = factory.create_shared();
    assert!(matches!(r, Err(LedgerError::InvalidStructure)));
}
