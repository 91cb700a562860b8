use ledger::cache::{reconcile_total, short_circuits, CacheStore, CachedLedger, TotalReconcile};
use ledger::error::ServerError;
use ledger::ledger::{provisioned_ledger, Ledger};
use ledger::models::{Transaction, TransactionType};

fn withdraw(value: u32, date: i64) -> Transaction {
    Transaction::new(value, TransactionType::Withdraw, "tx".to_string(), date)
}

fn deposit(value: u32, date: i64) -> Transaction {
    Transaction::new(value, TransactionType::Deposit, "tx".to_string(), date)
}

fn small_backend(limit: u32) -> CachedLedger {
    let mut l = Ledger::new();
    l.add_account(1, limit);
    CachedLedger::new(l)
}

#[test]
fn mirror_starts_empty_and_fills_on_first_write() {
    let mut c = small_backend(1000);
    assert_eq!(c.cache.read(1), (None, None));

    let balance = c.add_transaction(1, deposit(10, 1), 1).unwrap();
    assert_eq!(balance.total, 10);
    // with no cached total, the increment starts from zero and happens to
    // land on the authoritative value here
    assert_eq!(c.cache.read(1), (Some(10), Some(1000)));
}

#[test]
fn mirrored_limit_is_confirmed_never_changed() {
    let mut c = small_backend(1000);
    c.add_transaction(1, deposit(10, 1), 1).unwrap();
    assert_eq!(c.cache.read(1).1, Some(1000));

    // further writes — accepted or rejected — leave the mirrored limit as is
    c.add_transaction(1, deposit(5, 2), 2).unwrap();
    assert_eq!(c.cache.read(1).1, Some(1000));
    let err = c.add_transaction(1, withdraw(3000, 3), 3).unwrap_err();
    assert_eq!(err, ServerError::TransactionWouldExceedLimit);
    assert_eq!(c.cache.read(1).1, Some(1000));
}

#[test]
fn drifted_mirror_heals_on_next_accepted_write() {
    let mut c = small_backend(1000);
    c.add_transaction(1, deposit(10, 1), 1).unwrap();

    // an outside writer leaves the mirrored total wrong
    c.set_cached_total(1, 777);
    assert_eq!(c.cache.read(1).0, Some(777));

    let balance = c.add_transaction(1, deposit(5, 2), 2).unwrap();
    assert_eq!(balance.total, 15);
    assert_eq!(c.cache.read(1).0, Some(15));
}

#[test]
fn coherent_mirror_is_incremented_in_place() {
    let mut c = small_backend(1000);
    c.add_transaction(1, deposit(10, 1), 1).unwrap();
    c.add_transaction(1, withdraw(4, 2), 2).unwrap();
    assert_eq!(c.cache.read(1).0, Some(6));
    assert_eq!(c.ledger.accounts[0].total, 6);
}

#[test]
fn stale_mirror_can_reject_early_without_touching_the_store() {
    let mut c = small_backend(1000);
    c.add_transaction(1, deposit(10, 1), 1).unwrap();

    // a stale-low mirror makes the next withdrawal look illegal
    c.set_cached_total(1, -1000);
    let err = c.add_transaction(1, withdraw(1, 2), 2).unwrap_err();
    assert_eq!(err, ServerError::TransactionWouldExceedLimit);

    // the authoritative store was never consulted: no mutation anywhere
    let stmt = c.get_statement(1, 3).unwrap();
    assert_eq!(stmt.balance.total, 10);
    assert_eq!(stmt.last_transactions.len(), 1);
    assert_eq!(c.cache.read(1).0, Some(-1000));
}

#[test]
fn eviction_is_harmless() {
    let mut c = small_backend(1000);
    c.add_transaction(1, deposit(10, 1), 1).unwrap();
    c.evict(1);
    assert_eq!(c.cache.read(1), (None, None));

    let balance = c.add_transaction(1, withdraw(4, 2), 2).unwrap();
    assert_eq!(balance.total, 6);
    assert_eq!(c.cache.read(1).1, Some(1000));
}

#[test]
fn statement_reads_pass_the_mirror_by() {
    let mut c = CachedLedger::new(provisioned_ledger());
    c.add_transaction(3, deposit(25, 1), 1).unwrap();
    c.set_cached_total(3, 999999);

    // the statement reflects the authoritative store, not the mirror
    let stmt = c.get_statement(3, 2).unwrap();
    assert_eq!(stmt.balance.total, 25);
    assert_eq!(stmt.balance.limit, 1000000);
    assert_eq!(stmt.balance.statement_date, Some(2));
}

#[test]
fn unknown_account_through_the_cache() {
    let mut c = CachedLedger::new(provisioned_ledger());
    let err = c.add_transaction(9999, deposit(1, 1), 1).unwrap_err();
    assert_eq!(err, ServerError::UserNotFound(9999));
    let err = c.get_statement(9999, 2).unwrap_err();
    assert_eq!(err, ServerError::UserNotFound(9999));
}

#[test]
fn statement_bound_holds_through_the_cache() {
    let mut c = CachedLedger::new(provisioned_ledger());
    for i in 1..=11u32 {
        c.add_transaction(2, deposit(i, i as i64), i as i64).unwrap();
    }
    let stmt = c.get_statement(2, 50).unwrap();
    assert_eq!(stmt.last_transactions.len(), 10);
    for (pos, t) in stmt.last_transactions.iter().enumerate() {
        assert_eq!(t.value, 11 - pos as u32);
    }
}

#[test]
fn short_circuit_needs_both_fields() {
    assert!(short_circuits(Some(-1000), Some(1000), -1));
    assert!(!short_circuits(Some(-1000), Some(1000), 0));
    assert!(!short_circuits(None, Some(1000), -5000));
    assert!(!short_circuits(Some(-1000), None, -5000));
    assert!(!short_circuits(None, None, -5000));
}

#[test]
fn reconcile_detects_drift_exactly() {
    assert_eq!(reconcile_total(Some(10), 5, 15), TotalReconcile::Increment(5));
    assert_eq!(reconcile_total(Some(10), 5, 16), TotalReconcile::Overwrite(16));
    assert_eq!(reconcile_total(Some(777), 5, 15), TotalReconcile::Overwrite(15));
    assert_eq!(reconcile_total(None, 5, 15), TotalReconcile::Increment(5));
}

#[test]
fn mirror_store_semantics() {
    let mut s = CacheStore::new();
    assert_eq!(s.read(9), (None, None));

    // an increment with nothing cached starts from zero
    s.incr_total(9, 7);
    assert_eq!(s.read(9), (Some(7), None));

    s.incr_total(9, -10);
    assert_eq!(s.read(9), (Some(-3), None));

    s.set_limit(9, 500);
    assert_eq!(s.read(9), (Some(-3), Some(500)));

    s.set_total(9, 42);
    assert_eq!(s.read(9), (Some(42), Some(500)));

    // other ids are untouched throughout
    assert_eq!(s.read(8), (None, None));

    s.evict(9);
    assert_eq!(s.read(9), (None, None));
}
