use entity::error::LedgerError;
use entity::ledger::Ledger;
use entity::user::{Model, Relation};

fn s(text: &str) -> String {
    text.to_string()
}

fn sorted(mut keys: Vec<u64>) -> Vec<u64> {
    keys.sort();
    keys
}

#[test]
fn deposit_scaled_balance_reads_back() {
    let mut ledger = Ledger::new();
    ledger.create(s("u1"), 0).unwrap();
    assert_eq!(ledger.update_balance(&s("u1"), 5_000_000), Ok(()));
    let row = ledger.get(&s("u1")).unwrap();
    assert_eq!(row.balance_millionths, 5_000_000);
    assert_eq!(row.id, "u1");
}

#[test]
fn delete_with_order_reference_is_refused() {
    let mut ledger = Ledger::new();
    ledger.create(s("u2"), 0).unwrap();
    assert_eq!(ledger.add_order(1, s("u2")), Ok(()));
    assert_eq!(
        ledger.delete(&s("u2")),
        Err(LedgerError::ReferentialIntegrityViolation)
    );
    assert!(ledger.get(&s("u2")).is_ok());
}

#[test]
fn create_then_get_returns_same_row() {
    let mut ledger = Ledger::new();
    let made = ledger.create(s("alice"), -42).unwrap();
    assert_eq!(made.id, "alice");
    assert_eq!(made.balance_millionths, -42);
    let row = ledger.get(&s("alice")).unwrap();
    assert_eq!(row.id, "alice");
    assert_eq!(row.balance_millionths, -42);
}

#[test]
fn extreme_balances_are_kept_exactly() {
    let mut ledger = Ledger::new();
    ledger.create(s("max"), i64::MAX).unwrap();
    ledger.create(s("min"), i64::MIN).unwrap();
    assert_eq!(ledger.get(&s("max")).unwrap().balance_millionths, i64::MAX);
    assert_eq!(ledger.get(&s("min")).unwrap().balance_millionths, i64::MIN);
}

#[test]
fn unknown_id_is_not_found() {
    let mut ledger = Ledger::new();
    ledger.create(s("known"), 1).unwrap();
    assert!(matches!(ledger.get(&s("ghost")), Err(LedgerError::NotFound)));
    assert_eq!(
        ledger.update_balance(&s("ghost"), 10),
        Err(LedgerError::NotFound)
    );
    assert_eq!(
        ledger.compare_and_update_balance(&s("ghost"), 0, 10),
        Err(LedgerError::NotFound)
    );
    assert!(matches!(ledger.get(&s("ghost")), Err(LedgerError::NotFound)));
    assert_eq!(ledger.get(&s("known")).unwrap().balance_millionths, 1);
}

#[test]
fn second_create_is_duplicate_key() {
    let mut ledger = Ledger::new();
    ledger.create(s("dup"), 7).unwrap();
    assert!(matches!(
        ledger.create(s("dup"), 9),
        Err(LedgerError::DuplicateKey)
    ));
    assert_eq!(ledger.get(&s("dup")).unwrap().balance_millionths, 7);
}

#[test]
fn empty_id_is_invalid_argument() {
    let mut ledger = Ledger::new();
    assert!(matches!(
        ledger.create(String::new(), 0),
        Err(LedgerError::InvalidArgument)
    ));
    assert!(matches!(ledger.get(&String::new()), Err(LedgerError::NotFound)));
}

#[test]
fn repeated_update_is_idempotent() {
    let mut ledger = Ledger::new();
    ledger.create(s("u"), 3).unwrap();
    assert_eq!(ledger.update_balance(&s("u"), 250), Ok(()));
    assert_eq!(ledger.get(&s("u")).unwrap().balance_millionths, 250);
    assert_eq!(ledger.update_balance(&s("u"), 250), Ok(()));
    assert_eq!(ledger.get(&s("u")).unwrap().balance_millionths, 250);
}

#[test]
fn racing_writers_lose_no_update() {
    let mut ledger = Ledger::new();
    ledger.create(s("r"), 100).unwrap();
    let seen = ledger.get(&s("r")).unwrap().balance_millionths;
    assert_eq!(ledger.compare_and_update_balance(&s("r"), seen, 150), Ok(()));
    assert_eq!(
        ledger.compare_and_update_balance(&s("r"), seen, 90),
        Err(LedgerError::ConcurrentModification)
    );
    assert_eq!(ledger.get(&s("r")).unwrap().balance_millionths, 150);
    let fresh = ledger.get(&s("r")).unwrap().balance_millionths;
    assert_eq!(ledger.compare_and_update_balance(&s("r"), fresh, 90), Ok(()));
    assert_eq!(ledger.get(&s("r")).unwrap().balance_millionths, 90);
}

#[test]
fn racing_writer_with_unchanged_value_succeeds() {
    let mut ledger = Ledger::new();
    ledger.create(s("r"), 100).unwrap();
    assert_eq!(ledger.compare_and_update_balance(&s("r"), 100, 100), Ok(()));
    assert_eq!(ledger.compare_and_update_balance(&s("r"), 100, 60), Ok(()));
    assert_eq!(ledger.get(&s("r")).unwrap().balance_millionths, 60);
}

#[test]
fn delete_after_unlinking_succeeds() {
    let mut ledger = Ledger::new();
    ledger.create(s("owner"), 0).unwrap();
    ledger.add_market(10, s("owner")).unwrap();
    ledger.add_order(20, s("owner")).unwrap();
    assert_eq!(
        ledger.delete(&s("owner")),
        Err(LedgerError::ReferentialIntegrityViolation)
    );
    assert_eq!(ledger.remove_market(10), Ok(()));
    assert_eq!(
        ledger.delete(&s("owner")),
        Err(LedgerError::ReferentialIntegrityViolation)
    );
    assert_eq!(ledger.remove_order(20), Ok(()));
    assert_eq!(ledger.delete(&s("owner")), Ok(()));
    assert!(matches!(ledger.get(&s("owner")), Err(LedgerError::NotFound)));
}

#[test]
fn delete_with_market_reference_is_refused() {
    let mut ledger = Ledger::new();
    ledger.create(s("m"), 0).unwrap();
    ledger.add_market(5, s("m")).unwrap();
    assert_eq!(
        ledger.delete(&s("m")),
        Err(LedgerError::ReferentialIntegrityViolation)
    );
}

#[test]
fn delete_unknown_is_not_found() {
    let mut ledger = Ledger::new();
    assert_eq!(ledger.delete(&s("nobody")), Err(LedgerError::NotFound));
}

#[test]
fn delete_keeps_other_users() {
    let mut ledger = Ledger::new();
    ledger.create(s("a"), 1).unwrap();
    ledger.create(s("b"), 2).unwrap();
    ledger.create(s("c"), 3).unwrap();
    assert_eq!(ledger.delete(&s("b")), Ok(()));
    assert_eq!(ledger.get(&s("a")).unwrap().balance_millionths, 1);
    assert_eq!(ledger.get(&s("c")).unwrap().balance_millionths, 3);
    assert!(matches!(ledger.get(&s("b")), Err(LedgerError::NotFound)));
    ledger.create(s("b"), 4).unwrap();
    assert_eq!(ledger.get(&s("b")).unwrap().balance_millionths, 4);
}

#[test]
fn links_need_an_existing_user_and_a_free_key() {
    let mut ledger = Ledger::new();
    assert_eq!(ledger.add_market(1, s("nobody")), Err(LedgerError::NotFound));
    assert_eq!(ledger.add_order(1, s("nobody")), Err(LedgerError::NotFound));
    ledger.create(s("x"), 0).unwrap();
    assert_eq!(ledger.add_market(1, s("x")), Ok(()));
    assert_eq!(ledger.add_market(1, s("x")), Err(LedgerError::DuplicateKey));
    assert_eq!(ledger.add_order(1, s("x")), Ok(()));
    assert_eq!(ledger.add_order(1, s("x")), Err(LedgerError::DuplicateKey));
    assert_eq!(ledger.remove_market(2), Err(LedgerError::NotFound));
    assert_eq!(ledger.remove_order(2), Err(LedgerError::NotFound));
}

#[test]
fn listing_returns_each_related_key_once() {
    let mut ledger = Ledger::new();
    ledger.create(s("p"), 0).unwrap();
    ledger.create(s("q"), 0).unwrap();
    ledger.add_market(3, s("p")).unwrap();
    ledger.add_market(1, s("q")).unwrap();
    ledger.add_market(2, s("p")).unwrap();
    ledger.add_order(7, s("q")).unwrap();
    ledger.add_order(8, s("q")).unwrap();
    assert_eq!(sorted(ledger.list_markets_for(&s("p"))), vec![2, 3]);
    assert_eq!(sorted(ledger.list_markets_for(&s("q"))), vec![1]);
    assert_eq!(sorted(ledger.list_orders_for(&s("q"))), vec![7, 8]);
    assert!(ledger.list_orders_for(&s("p")).is_empty());
    assert!(ledger.list_markets_for(&s("nobody")).is_empty());
    assert_eq!(
        sorted(ledger.related_keys(Relation::Order, &s("q"))),
        vec![7, 8]
    );
    assert_eq!(
        sorted(ledger.related_keys(Relation::Market, &s("p"))),
        vec![2, 3]
    );
    ledger.remove_market(3).unwrap();
    assert_eq!(ledger.list_markets_for(&s("p")), vec![2]);
}

#[test]
fn listing_can_be_repeated() {
    let mut ledger = Ledger::new();
    ledger.create(s("p"), 0).unwrap();
    ledger.add_order(4, s("p")).unwrap();
    let first = ledger.list_orders_for(&s("p"));
    let second = ledger.list_orders_for(&s("p"));
    assert_eq!(first, second);
    assert_eq!(first, vec![4]);
}

#[test]
fn model_new_holds_both_columns() {
    let row = Model::new(s("id9"), 9_000_000);
    assert_eq!(row.id, "id9");
    assert_eq!(row.balance_millionths, 9_000_000);
}
