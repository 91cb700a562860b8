use ledger::error::ServerError;
use ledger::ledger::{provisioned_accounts, provisioned_ledger, Ledger};
use ledger::models::{assemble_statement, Balance, Transaction, TransactionType};
use ledger::rule::{apply, ApplyOutcome};

fn withdraw(value: u32, date: i64) -> Transaction {
    Transaction::new(value, TransactionType::Withdraw, "description".to_string(), date)
}

fn deposit(value: u32, date: i64) -> Transaction {
    Transaction::new(value, TransactionType::Deposit, "description".to_string(), date)
}

#[test]
fn should_not_exceed_limit() {
    let mut l = Ledger::new();
    assert!(l.add_account(1, 1000));

    let result = l.add_transaction(1, withdraw(1001, 1), 1);
    assert!(result.is_err());
    assert_eq!(result.unwrap_err(), ServerError::TransactionWouldExceedLimit);

    let result = l.add_transaction(1, withdraw(1000, 2), 2);
    assert!(result.is_ok());
    assert_eq!(result.unwrap().total, -1000);
}

#[test]
fn rule_accepts_exactly_down_to_minus_limit() {
    assert_eq!(apply(0, 1000, -1000), ApplyOutcome::Accepted { new_total: -1000 });
    assert_eq!(apply(0, 1000, -1001), ApplyOutcome::LimitExceeded);
    assert_eq!(apply(-1000, 1000, -1), ApplyOutcome::LimitExceeded);
    assert_eq!(apply(-1000, 1000, 1), ApplyOutcome::Accepted { new_total: -999 });
    assert_eq!(apply(5, 0, -5), ApplyOutcome::Accepted { new_total: 0 });
    assert_eq!(apply(5, 0, -6), ApplyOutcome::LimitExceeded);
}

#[test]
fn rule_reports_unrepresentable_totals() {
    assert_eq!(apply(i32::MAX, 10, 1), ApplyOutcome::Overflow);
    assert_eq!(apply(i32::MAX, 10, -1), ApplyOutcome::Accepted { new_total: i32::MAX - 1 });
    // a limit wider than i32 admits totals that the stored column cannot hold
    assert_eq!(apply(i32::MIN, u32::MAX, -1), ApplyOutcome::Overflow);
}

#[test]
fn withdraw_to_exact_limit_then_one_more() {
    // limit 1000, total 0: a withdrawal of 1000 is accepted, one more unit is not
    let mut l = Ledger::new();
    l.add_account(7, 1000);

    let balance = l.add_transaction(7, withdraw(1000, 10), 10).unwrap();
    assert_eq!(balance.total, -1000);
    assert_eq!(balance.limit, 1000);
    assert_eq!(balance.statement_date, Some(10));

    let err = l.add_transaction(7, withdraw(1, 11), 11).unwrap_err();
    assert_eq!(err, ServerError::TransactionWouldExceedLimit);

    let stmt = l.get_statement(7, 12).unwrap();
    assert_eq!(stmt.balance.total, -1000);
    assert_eq!(stmt.last_transactions.len(), 1);
}

#[test]
fn deposit_off_the_floor() {
    // limit 1000, total -1000: a deposit of 1 is accepted and lands at -999
    let mut l = Ledger::new();
    l.add_account(3, 1000);
    l.add_transaction(3, withdraw(1000, 1), 1).unwrap();

    let balance = l.add_transaction(3, deposit(1, 2), 2).unwrap();
    assert_eq!(balance.total, -999);
}

#[test]
fn statement_for_unknown_account() {
    let l = provisioned_ledger();
    let err = l.get_statement(9999, 1).unwrap_err();
    assert_eq!(err, ServerError::UserNotFound(9999));
}

#[test]
fn add_transaction_for_unknown_account() {
    let mut l = provisioned_ledger();
    let err = l.add_transaction(9999, deposit(1, 1), 1).unwrap_err();
    assert_eq!(err, ServerError::UserNotFound(9999));
}

#[test]
fn statement_keeps_the_ten_most_recent() {
    // eleven sequential transactions: the statement holds exactly the last
    // ten, most recent first
    let mut l = Ledger::new();
    l.add_account(2, 100000);
    for i in 1..=11u32 {
        l.add_transaction(2, deposit(i, i as i64), i as i64).unwrap();
    }

    let stmt = l.get_statement(2, 99).unwrap();
    assert_eq!(stmt.last_transactions.len(), 10);
    for (pos, t) in stmt.last_transactions.iter().enumerate() {
        assert_eq!(t.value, 11 - pos as u32);
        assert_eq!(t.date, (11 - pos as i64) as i64);
    }
    assert_eq!(stmt.balance.total, (1..=11).sum::<i32>());
}

#[test]
fn rejected_transaction_leaves_no_trace() {
    let mut l = Ledger::new();
    l.add_account(4, 50);
    l.add_transaction(4, deposit(30, 1), 1).unwrap();

    let before = l.get_statement(4, 2).unwrap();
    let err = l.add_transaction(4, withdraw(81, 3), 3).unwrap_err();
    assert_eq!(err, ServerError::TransactionWouldExceedLimit);

    let after = l.get_statement(4, 4).unwrap();
    assert_eq!(after.balance.total, before.balance.total);
    assert_eq!(after.last_transactions.len(), before.last_transactions.len());
}

#[test]
fn overflowing_total_is_a_transient_failure() {
    let mut l = Ledger::new();
    l.add_account(5, 10);
    l.add_transaction(5, deposit(2_000_000_000, 1), 1).unwrap();

    let before = l.get_statement(5, 2).unwrap();
    let err = l.add_transaction(5, deposit(2_000_000_000, 3), 3).unwrap_err();
    assert_eq!(err, ServerError::Transient);

    let after = l.get_statement(5, 4).unwrap();
    assert_eq!(after.balance.total, before.balance.total);
    assert_eq!(after.last_transactions.len(), before.last_transactions.len());
}

#[test]
fn signed_transaction_values() {
    let t = deposit(1000, 1);
    assert_eq!(t.value(), 1000);
    let t = withdraw(1000, 1);
    assert_eq!(t.value(), -1000);
    let t = withdraw(u32::MAX, 1);
    assert_eq!(t.value(), -(u32::MAX as i64));
}

#[test]
fn fresh_balance_is_empty() {
    let b = Balance::new(77);
    assert_eq!(b.total, 0);
    assert_eq!(b.limit, 77);
    assert_eq!(b.statement_date, None);
}

#[test]
fn error_status_codes() {
    assert_eq!(ServerError::UserNotFound(1).status_code(), 404);
    assert_eq!(ServerError::TransactionWouldExceedLimit.status_code(), 422);
    assert_eq!(ServerError::Transient.status_code(), 422);
    assert_eq!(ServerError::UserNotFound(1).message(), "user not found");
}

#[test]
fn provisioned_set_is_fixed() {
    let pairs = provisioned_accounts();
    assert_eq!(
        pairs,
        vec![(1, 100000), (2, 80000), (3, 1000000), (4, 10000000), (5, 500000)]
    );

    let l = provisioned_ledger();
    for (id, limit) in pairs {
        let stmt = l.get_statement(id, 1).unwrap();
        assert_eq!(stmt.balance.limit, limit);
        assert_eq!(stmt.balance.total, 0);
        assert!(stmt.last_transactions.is_empty());
    }
    assert!(l.get_statement(6, 1).is_err());
}

#[test]
fn duplicate_account_is_refused() {
    let mut l = Ledger::new();
    assert!(l.add_account(1, 10));
    assert!(!l.add_account(1, 20));
    assert_eq!(l.get_statement(1, 1).unwrap().balance.limit, 10);
}

#[test]
fn assemble_statement_truncates_and_keeps_order() {
    let mut rows = Vec::new();
    for i in 0..12u32 {
        rows.push(deposit(100 - i, (100 - i) as i64));
    }
    let stmt = assemble_statement(42, 7, 55, &rows);
    assert_eq!(stmt.balance.total, 42);
    assert_eq!(stmt.balance.limit, 7);
    assert_eq!(stmt.balance.statement_date, Some(55));
    assert_eq!(stmt.last_transactions.len(), 10);
    for (pos, t) in stmt.last_transactions.iter().enumerate() {
        assert_eq!(t.value, 100 - pos as u32);
        assert_eq!(t.description, "description");
    }

    let short = assemble_statement(0, 1, 2, &rows[..3].to_vec());
    assert_eq!(short.last_transactions.len(), 3);
}
