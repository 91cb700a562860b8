//! Data model: transactions, balances and statements.
//!
//! Timestamps are plain UTC values in milliseconds since the epoch; the code
//! that reads the clock lives outside this library and hands the value in.

use vstd::prelude::*;

verus! {

/// Whether a transaction puts money in or takes money out.
#[derive(Clone, Copy, Debug, PartialEq, Eq, Structural)]
pub enum TransactionType {
    Deposit,
    Withdraw,
}

/// One immutable ledger entry: an amount, a direction, a short free-form
/// description and the creation time (UTC milliseconds).
#[derive(Clone, Debug)]
pub struct Transaction {
    pub value: u32,
    pub transaction_type: TransactionType,
    pub description: String,
    pub date: i64,
}

/// The signed effect of a transaction on a balance: `+value` for a deposit,
/// `-value` for a withdrawal.
pub open spec fn signed_value(transaction_type: TransactionType, value: u32) -> int {
    match transaction_type {
        TransactionType::Deposit => value as int,
        TransactionType::Withdraw => -(value as int),
    }
}

impl Transaction {
    /// Builds a transaction; `date` is the creation time in UTC milliseconds.
    pub fn new(value: u32, transaction_type: TransactionType, description: String, date: i64) -> (t: Self)
        ensures
            t.value == value,
            t.transaction_type == transaction_type,
            t.description == description,
            t.date == date,
    {
        Self { value, transaction_type, description, date }
    }

    /// The signed value of this transaction. Wide enough (`i64`) to carry
    /// `-value` for any `u32` amount.
    pub fn value(&self) -> (v: i64)
        ensures
            v == signed_value(self.transaction_type, self.value),
    {
        match self.transaction_type {
            TransactionType::Deposit => self.value as i64,
            TransactionType::Withdraw => -(self.value as i64),
        }
    }

    /// The signed effect of this transaction, as a spec-level value.
    pub open spec fn signed(self) -> int {
        signed_value(self.transaction_type, self.value)
    }
}

/// A snapshot of an account's balance: the running total, the immutable
/// credit limit, and the time the snapshot was produced (not a transaction
/// time; `None` until a read stamps it).
#[derive(Clone, Debug)]
pub struct Balance {
    pub total: i32,
    pub statement_date: Option<i64>,
    pub limit: u32,
}

impl Balance {
    /// A freshly provisioned balance: zero total, no snapshot time yet.
    pub fn new(limit: u32) -> (b: Self)
        ensures
            b.total == 0,
            b.statement_date is None,
            b.limit == limit,
    {
        Self { total: 0, statement_date: None, limit }
    }
}

/// A read-only view: the current balance plus the ten most recent
/// transactions, newest first.
#[derive(Clone, Debug)]
pub struct Statement {
    pub balance: Balance,
    pub last_transactions: Vec<Transaction>,
}

/// Newest-first order: creation times never increase along the sequence.
pub open spec fn newest_first(s: Seq<Transaction>) -> bool {
    forall|i: int, j: int|
        0 <= i <= j < s.len() ==> #[trigger] s[i].date >= #[trigger] s[j].date
}

/// An exact copy of a transaction (its description is heap-allocated, so
/// this is more than a bitwise copy).
fn clone_transaction(t: &Transaction) -> (r: Transaction)
    ensures
        r == *t,
{
    Transaction {
        value: t.value,
        transaction_type: t.transaction_type,
        description: t.description.clone(),
        date: t.date,
    }
}

/// How many transactions a statement may carry at most.
pub open spec fn statement_limit() -> int {
    10
}

/// Builds a statement from a balance snapshot and a newest-first transaction
/// list, keeping at most the ten most recent entries. Every backend funnels
/// its fetched rows through this function, so the ten-transaction bound holds
/// whatever the store handed back.
pub fn assemble_statement(total: i32, limit: u32, now: i64, transactions: &Vec<Transaction>) -> (s: Statement)
    ensures
        s.balance.total == total,
        s.balance.limit == limit,
        s.balance.statement_date == Some(now),
        s.last_transactions@ == transactions@.take(
            if transactions@.len() <= statement_limit() { transactions@.len() as int } else { statement_limit() },
        ),
        s.last_transactions@.len() <= statement_limit(),
        newest_first(transactions@) ==> newest_first(s.last_transactions@),
{
    let n: usize = if transactions.len() <= 10 { transactions.len() } else { 10 };
    let mut picked: Vec<Transaction> = Vec::new();
    let mut k: usize = 0;
    while k < n
        invariant
            n <= transactions@.len(),
            n <= statement_limit(),
            k <= n,
            picked@ == transactions@.take(k as int),
        decreases n - k,
    {
        picked.push(clone_transaction(&transactions[k]));
        proof {
            assert(picked@ =~= transactions@.take(k + 1 as int));
        }
        k += 1;
    }
    let balance = Balance { total, statement_date: Some(now), limit };
    Statement { balance, last_transactions: picked }
}

} // verus!
