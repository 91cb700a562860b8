//! The authoritative store, modelled: accounts keyed by id, each with an
//! immutable credit limit, a running total and an append-only transaction
//! log. `Ledger` implements the repository contract — `add_transaction` and
//! `get_statement` — exactly as every backend must observably behave: the
//! balance rule decides acceptance, a rejected or failed transaction leaves
//! no trace, and a statement carries at most the ten most recent entries.

use vstd::prelude::*;

use crate::error::ServerError;
use crate::models::{
    assemble_statement, newest_first, statement_limit, Balance, Statement, Transaction,
};
use crate::rule::{apply, within_limit, ApplyOutcome};

verus! {

/// One account: id, immutable limit, running total, and the transaction log,
/// newest entry first.
#[derive(Clone, Debug)]
pub struct Account {
    pub id: u32,
    pub limit: u32,
    pub total: i32,
    pub transactions: Vec<Transaction>,
}

impl Account {
    /// The account invariant: the total never falls below `-limit`.
    pub open spec fn wf(self) -> bool {
        within_limit(self.total as int, self.limit as int)
    }

    /// The log is ordered newest first.
    pub open spec fn log_newest_first(self) -> bool {
        newest_first(self.transactions@)
    }
}

/// The authoritative account store.
pub struct Ledger {
    pub accounts: Vec<Account>,
}

impl Ledger {
    /// No two entries share an account id.
    pub open spec fn ids_unique(self) -> bool {
        forall|i: int, j: int|
            0 <= i < j < self.accounts@.len()
                ==> (#[trigger] self.accounts@[i]).id != (#[trigger] self.accounts@[j]).id
    }

    /// Well-formed: unique ids and every account within its limit.
    pub open spec fn wf(self) -> bool {
        &&& self.ids_unique()
        &&& forall|i: int|
            0 <= i < self.accounts@.len() ==> (#[trigger] self.accounts@[i]).wf()
    }

    /// Whether an account with this id is provisioned.
    pub open spec fn has_account(self, id: u32) -> bool {
        exists|i: int|
            0 <= i < self.accounts@.len() && (#[trigger] self.accounts@[i]).id == id
    }

    /// The position of the account with this id (meaningful when
    /// `has_account(id)` holds and ids are unique).
    pub open spec fn account_index(self, id: u32) -> int {
        choose|i: int|
            0 <= i < self.accounts@.len() && (#[trigger] self.accounts@[i]).id == id
    }

    /// The account with this id (meaningful when `has_account(id)` holds).
    pub open spec fn account(self, id: u32) -> Account {
        self.accounts@[self.account_index(id)]
    }

    /// With unique ids, any position holding `id` is the position that
    /// `account_index` names.
    pub proof fn lemma_account_at(self, id: u32, k: int)
        requires
            self.ids_unique(),
            0 <= k < self.accounts@.len(),
            self.accounts@[k].id == id,
        ensures
            self.has_account(id),
            self.account_index(id) == k,
            self.account(id) == self.accounts@[k],
    {
        assert(self.has_account(id));
        let c = self.account_index(id);
        assert(0 <= c < self.accounts@.len() && self.accounts@[c].id == id);
        if c < k {
            assert(self.accounts@[c].id != self.accounts@[k].id);
        } else if k < c {
            assert(self.accounts@[k].id != self.accounts@[c].id);
        }
    }

    /// The balance rule accepts this transaction on this ledger and the new
    /// total is representable.
    pub open spec fn add_accepted(self, id: u32, t: Transaction) -> bool {
        &&& self.has_account(id)
        &&& within_limit(self.account(id).total + t.signed(), self.account(id).limit as int)
        &&& i32::MIN <= self.account(id).total + t.signed() <= i32::MAX
    }

    /// The balance rule rejects this transaction on this ledger.
    pub open spec fn add_limit_exceeded(self, id: u32, t: Transaction) -> bool {
        &&& self.has_account(id)
        &&& !within_limit(self.account(id).total + t.signed(), self.account(id).limit as int)
    }

    /// The rule accepts, but the new total does not fit the stored 32-bit
    /// column; the store fails such an update and nothing is written.
    pub open spec fn add_overflow(self, id: u32, t: Transaction) -> bool {
        &&& self.has_account(id)
        &&& within_limit(self.account(id).total + t.signed(), self.account(id).limit as int)
        &&& !(i32::MIN <= self.account(id).total + t.signed() <= i32::MAX)
    }

    /// How `add_transaction` moves a ledger when it accepts: the named
    /// account gains the transaction at the head of its log and the signed
    /// value on its total; its id and limit, and every other account, stay
    /// untouched.
    pub open spec fn stepped(pre: Ledger, post: Ledger, id: u32, t: Transaction) -> bool {
        &&& post.accounts@.len() == pre.accounts@.len()
        &&& post.has_account(id)
        &&& post.account(id).id == id
        &&& post.account(id).limit == pre.account(id).limit
        &&& post.account(id).total == pre.account(id).total + t.signed()
        &&& post.account(id).transactions@ == pre.account(id).transactions@.insert(0, t)
        &&& forall|a: u32| a != id ==> #[trigger] post.has_account(a) == pre.has_account(a)
        &&& forall|a: u32| a != id && pre.has_account(a) ==> #[trigger] post.account(a)
            == pre.account(a)
    }

    /// What `get_statement` must return on a well-formed ledger: the named
    /// account's balance stamped with `now` and the first (most recent) ten
    /// entries of its log, or `UserNotFound` exactly when the id is not
    /// provisioned.
    pub open spec fn statement_contract(self, id: u32, now: i64, r: Result<
        Statement,
        ServerError,
    >) -> bool {
        match r {
            Ok(s) => {
                &&& self.has_account(id)
                &&& s.balance.total == self.account(id).total
                &&& s.balance.limit == self.account(id).limit
                &&& s.balance.statement_date == Some(now)
                &&& s.last_transactions@ == self.account(id).transactions@.take(
                    if self.account(id).transactions@.len() <= statement_limit() {
                        self.account(id).transactions@.len() as int
                    } else {
                        statement_limit()
                    },
                )
                &&& s.last_transactions@.len() <= statement_limit()
                &&& (self.account(id).log_newest_first() ==> newest_first(s.last_transactions@))
            },
            Err(e) => {
                &&& e == ServerError::UserNotFound(id)
                &&& !self.has_account(id)
            },
        }
    }

    /// An empty ledger.
    pub fn new() -> (l: Ledger)
        ensures
            l.wf(),
            l.accounts@.len() == 0,
            forall|id: u32| !(#[trigger] l.has_account(id)),
    {
        Ledger { accounts: Vec::new() }
    }

    fn find_account(&self, id: u32) -> (r: Option<usize>)
        ensures
            match r {
                Some(k) => k < self.accounts@.len() && self.accounts@[k as int].id == id,
                None => !self.has_account(id),
            },
    {
        let mut k: usize = 0;
        while k < self.accounts.len()
            invariant
                k <= self.accounts@.len(),
                forall|j: int| 0 <= j < k ==> (#[trigger] self.accounts@[j]).id != id,
            decreases self.accounts@.len() - k,
        {
            if self.accounts[k].id == id {
                return Some(k);
            }
            k += 1;
        }
        None
    }

    /// Provisions a new account with a zero total and an empty log. Returns
    /// `false`, changing nothing, when the id is already taken.
    pub fn add_account(&mut self, id: u32, limit: u32) -> (added: bool)
        requires
            old(self).wf(),
        ensures
            final(self).wf(),
            added == !old(self).has_account(id),
            !added ==> *final(self) == *old(self),
            added ==> {
                &&& final(self).accounts@.len() == old(self).accounts@.len() + 1
                &&& final(self).has_account(id)
                &&& final(self).account(id).id == id
                &&& final(self).account(id).limit == limit
                &&& final(self).account(id).total == 0
                &&& final(self).account(id).transactions@ =~= Seq::<Transaction>::empty()
            },
            forall|a: u32| a != id ==>
                #[trigger] final(self).has_account(a) == old(self).has_account(a),
            forall|a: u32| a != id && old(self).has_account(a) ==>
                #[trigger] final(self).account(a) == old(self).account(a),
    {
        match self.find_account(id) {
            Some(_) => false,
            None => {
                let n = self.accounts.len();
                self.accounts.push(Account { id, limit, total: 0, transactions: Vec::new() });
                proof {
                    assert(self.accounts@[n as int].id == id);
                    assert forall|i: int, j: int| 0 <= i < j < self.accounts@.len()
                        implies (#[trigger] self.accounts@[i]).id != (#[trigger] self.accounts@[j]).id by {
                        if j < n as int {
                            assert(old(self).accounts@[i].id != old(self).accounts@[j].id);
                        } else {
                            assert(self.accounts@[i] == old(self).accounts@[i]);
                            assert(!old(self).has_account(id));
                        }
                    }
                    self.lemma_account_at(id, n as int);
                    assert forall|a: u32| a != id implies
                        #[trigger] self.has_account(a) == old(self).has_account(a) by {
                        if old(self).has_account(a) {
                            let w = choose|i: int|
                                0 <= i < old(self).accounts@.len() && (#[trigger] old(self).accounts@[i]).id == a;
                            assert(self.accounts@[w].id == a);
                        }
                        if self.has_account(a) {
                            let w = choose|i: int|
                                0 <= i < self.accounts@.len() && (#[trigger] self.accounts@[i]).id == a;
                            assert(w != n as int);
                            assert(old(self).accounts@[w].id == a);
                        }
                    }
                    assert forall|a: u32| a != id && old(self).has_account(a) implies
                        #[trigger] self.account(a) == old(self).account(a) by {
                        let w = choose|i: int|
                            0 <= i < old(self).accounts@.len() && (#[trigger] old(self).accounts@[i]).id == a;
                        old(self).lemma_account_at(a, w);
                        assert(self.accounts@[w].id == a);
                        self.lemma_account_at(a, w);
                    }
                }
                true
            },
        }
    }

    /// Applies one transaction atomically to the named account, per the
    /// balance rule, and returns the post-transaction balance stamped with
    /// `now` (UTC milliseconds). On any error the ledger is unchanged: the
    /// total moves and the log grows together, or neither does.
    pub fn add_transaction(&mut self, id: u32, transaction: Transaction, now: i64) -> (r: Result<
        Balance,
        ServerError,
    >)
        requires
            old(self).wf(),
        ensures
            final(self).wf(),
            final(self).accounts@.len() == old(self).accounts@.len(),
            forall|a: u32| a != id ==>
                #[trigger] final(self).has_account(a) == old(self).has_account(a),
            forall|a: u32| a != id && old(self).has_account(a) ==>
                #[trigger] final(self).account(a) == old(self).account(a),
            final(self).has_account(id) == old(self).has_account(id),
            match r {
                Ok(balance) => {
                    &&& old(self).add_accepted(id, transaction)
                    &&& Ledger::stepped(*old(self), *final(self), id, transaction)
                    &&& balance.total == final(self).account(id).total
                    &&& balance.limit == final(self).account(id).limit
                    &&& balance.statement_date == Some(now)
                },
                Err(e) => {
                    &&& *final(self) == *old(self)
                    &&& match e {
                        ServerError::UserNotFound(missing) => {
                            &&& missing == id
                            &&& !old(self).has_account(id)
                        },
                        ServerError::TransactionWouldExceedLimit => old(self).add_limit_exceeded(
                            id,
                            transaction,
                        ),
                        ServerError::Transient => old(self).add_overflow(id, transaction),
                    }
                },
            },
            ({
                let pre = old(self).account(id);
                &&& r is Ok
                &&& pre.log_newest_first()
                &&& (pre.transactions@.len() > 0 ==> transaction.date >= pre.transactions@[0].date)
            }) ==> final(self).account(id).log_newest_first(),
    {
        let k = match self.find_account(id) {
            Some(k) => k,
            None => {
                return Err(ServerError::UserNotFound(id));
            },
        };
        proof {
            self.lemma_account_at(id, k as int);
        }
        let signed = transaction.value();
        match apply(self.accounts[k].total, self.accounts[k].limit, signed) {
            ApplyOutcome::LimitExceeded => Err(ServerError::TransactionWouldExceedLimit),
            ApplyOutcome::Overflow => Err(ServerError::Transient),
            ApplyOutcome::Accepted { new_total } => {
                let ghost pre = *self;
                let ghost pre_account = self.accounts@[k as int];
                let ghost tx = transaction;
                let mut account = self.accounts.remove(k);
                account.total = new_total;
                account.transactions.insert(0, transaction);
                let limit = account.limit;
                self.accounts.insert(k, account);
                proof {
                    assert(self.accounts@ =~= pre.accounts@.update(
                        k as int,
                        self.accounts@[k as int],
                    ));
                    assert forall|i: int, j: int| 0 <= i < j < self.accounts@.len()
                        implies (#[trigger] self.accounts@[i]).id
                        != (#[trigger] self.accounts@[j]).id by {
                        assert(self.accounts@[i].id == pre.accounts@[i].id);
                        assert(self.accounts@[j].id == pre.accounts@[j].id);
                        assert(pre.accounts@[i].id != pre.accounts@[j].id);
                    }
                    self.lemma_account_at(id, k as int);
                    assert forall|a: u32| a != id implies
                        #[trigger] self.has_account(a) == pre.has_account(a) by {
                        if pre.has_account(a) {
                            let w = choose|i: int|
                                0 <= i < pre.accounts@.len() && (#[trigger] pre.accounts@[i]).id == a;
                            assert(self.accounts@[w].id == a);
                        }
                        if self.has_account(a) {
                            let w = choose|i: int|
                                0 <= i < self.accounts@.len() && (#[trigger] self.accounts@[i]).id == a;
                            assert(pre.accounts@[w].id == a);
                        }
                    }
                    assert forall|a: u32| a != id && pre.has_account(a) implies
                        #[trigger] self.account(a) == pre.account(a) by {
                        let w = choose|i: int|
                            0 <= i < pre.accounts@.len() && (#[trigger] pre.accounts@[i]).id == a;
                        pre.lemma_account_at(a, w);
                        assert(w != k as int);
                        assert(self.accounts@[w].id == a);
                        self.lemma_account_at(a, w);
                    }
                    assert forall|i: int| 0 <= i < self.accounts@.len()
                        implies (#[trigger] self.accounts@[i]).wf() by {
                        if i != k as int {
                            assert(self.accounts@[i] == pre.accounts@[i]);
                        }
                    }
                    let post_log = self.accounts@[k as int].transactions@;
                    let pre_log = pre_account.transactions@;
                    assert(post_log == pre_log.insert(0, tx));
                    if pre_account.log_newest_first() && (pre_log.len() > 0
                        ==> tx.date >= pre_log[0].date) {
                        assert forall|i: int, j: int| 0 <= i <= j < post_log.len()
                            implies #[trigger] post_log[i].date >= #[trigger] post_log[j].date by {
                            if i == 0 && j > 0 {
                                assert(post_log[j] == pre_log[j - 1]);
                                if j - 1 > 0 {
                                    assert(pre_log[0].date >= pre_log[j - 1].date);
                                }
                            } else if i > 0 {
                                assert(post_log[i] == pre_log[i - 1]);
                                assert(post_log[j] == pre_log[j - 1]);
                            }
                        }
                    }
                }
                Ok(Balance { total: new_total, statement_date: Some(now), limit })
            },
        }
    }

    /// Reads the current balance, stamped with `now`, and at most the ten
    /// most recent transactions for the named account, newest first. Reads
    /// nothing but the authoritative state and changes nothing.
    pub fn get_statement(&self, id: u32, now: i64) -> (r: Result<Statement, ServerError>)
        requires
            self.wf(),
        ensures
            self.statement_contract(id, now, r),
    {
        let k = match self.find_account(id) {
            Some(k) => k,
            None => {
                return Err(ServerError::UserNotFound(id));
            },
        };
        proof {
            self.lemma_account_at(id, k as int);
        }
        let account = &self.accounts[k];
        Ok(assemble_statement(account.total, account.limit, now, &account.transactions))
    }
}

/// The fixed set of accounts provisioned at setup, as `(id, limit)` pairs.
/// Accounts are not user-creatable in this system.
pub fn provisioned_accounts() -> (v: Vec<(u32, u32)>)
    ensures
        v@ =~= seq![
            (1u32, 100000u32),
            (2u32, 80000u32),
            (3u32, 1000000u32),
            (4u32, 10000000u32),
            (5u32, 500000u32),
        ],
{
    let mut v: Vec<(u32, u32)> = Vec::new();
    v.push((1, 100000));
    v.push((2, 80000));
    v.push((3, 1000000));
    v.push((4, 10000000));
    v.push((5, 500000));
    v
}

/// A ledger holding exactly the provisioned accounts, each with a zero total
/// and an empty log.
pub fn provisioned_ledger() -> (l: Ledger)
    ensures
        l.wf(),
        forall|id: u32| #[trigger] l.has_account(id) <==> 1 <= id <= 5,
        l.has_account(1) && l.account(1).limit == 100000,
        l.has_account(2) && l.account(2).limit == 80000,
        l.has_account(3) && l.account(3).limit == 1000000,
        l.has_account(4) && l.account(4).limit == 10000000,
        l.has_account(5) && l.account(5).limit == 500000,
        forall|id: u32| #[trigger] l.has_account(id) ==> l.account(id).total == 0
            && l.account(id).transactions@.len() == 0,
{
    let mut l = Ledger::new();
    let limits = provisioned_accounts();
    let mut k: usize = 0;
    while k < limits.len()
        invariant
            l.wf(),
            limits@ =~= seq![
                (1u32, 100000u32),
                (2u32, 80000u32),
                (3u32, 1000000u32),
                (4u32, 10000000u32),
                (5u32, 500000u32),
            ],
            k <= limits@.len(),
            forall|j: int| 0 <= j < limits@.len() ==> (#[trigger] limits@[j]).0 == j + 1,
            forall|id: u32| #[trigger] l.has_account(id) <==> 1 <= id <= k,
            forall|j: int| 0 <= j < k ==> l.has_account(#[trigger] limits@[j].0)
                && l.account(limits@[j].0).limit == limits@[j].1,
            forall|id: u32| #[trigger] l.has_account(id) ==> l.account(id).total == 0
                && l.account(id).transactions@.len() == 0,
        decreases limits@.len() - k,
    {
        let (id, limit) = limits[k];
        let added = l.add_account(id, limit);
        proof {
            assert(limits@[k as int].0 == k + 1);
            assert(added);
            assert forall|j: int| 0 <= j < k + 1 implies l.has_account(#[trigger] limits@[j].0)
                && l.account(limits@[j].0).limit == limits@[j].1 by {
                assert(limits@[j].0 == j + 1);
            }
        }
        k += 1;
    }
    l
}

/// Atomicity, read back through statements: `add_transaction` leaves the
/// ledger exactly as it was whenever it returns an error (its ensures), and
/// on one ledger value the statement contract admits a single outcome — so a
/// statement taken after a rejected or failed transaction shows the same
/// balance and the same transaction list as one taken before.
pub proof fn lemma_statement_determined(
    l: Ledger,
    id: u32,
    now: i64,
    r1: Result<Statement, ServerError>,
    r2: Result<Statement, ServerError>,
)
    requires
        l.statement_contract(id, now, r1),
        l.statement_contract(id, now, r2),
    ensures
        r1 is Ok <==> r2 is Ok,
        r1 matches Ok(s1) ==> (r2 matches Ok(s2) ==> s1.balance == s2.balance
            && s1.last_transactions@ == s2.last_transactions@),
        r1 is Err ==> r1 == r2,
{
}

/// The balance invariant, stated once for the whole store: in a well-formed
/// ledger, every provisioned account's total sits at or above `-limit`.
/// `add_transaction` requires and re-establishes `wf`, so along any sequence
/// of accepted transactions this holds after every step.
pub proof fn lemma_balance_invariant(l: Ledger, id: u32)
    requires
        l.wf(),
        l.has_account(id),
    ensures
        within_limit(l.account(id).total as int, l.account(id).limit as int),
{
    let w = choose|i: int|
        0 <= i < l.accounts@.len() && (#[trigger] l.accounts@[i]).id == id;
    l.lemma_account_at(id, w);
    assert(l.accounts@[w].wf());
}

} // verus!
