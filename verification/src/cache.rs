//! The cache-aside layer. A fast key-value store mirrors two scalar fields
//! per account — `total` and `limit` — so obviously illegal transactions can
//! be rejected before the authoritative store is touched. The mirror is
//! best-effort: entries may be absent, stale or evicted at any time, and the
//! authoritative store alone accepts or rejects. After every accepted write
//! the mirror is reconciled: a detected drift is overwritten with the
//! authoritative total (full resync), otherwise the signed value is added
//! atomically.

use vstd::prelude::*;

use crate::error::ServerError;
use crate::ledger::Ledger;
use crate::models::{Balance, Statement, Transaction};

verus! {

/// The mirrored fields of one account. Either may be unset: the two live as
/// independent keys in the underlying store.
#[derive(Clone, Copy, Debug, PartialEq, Eq, Structural)]
pub struct CacheEntry {
    pub id: u32,
    pub total: Option<i64>,
    pub limit: Option<u32>,
}

/// The key-value mirror, modelled: per account id, an optional cached total
/// (wide, as the store keeps integers) and an optional cached limit.
pub struct CacheStore {
    pub entries: Vec<CacheEntry>,
}

impl CacheStore {
    /// No two entries share an account id.
    pub open spec fn wf(self) -> bool {
        forall|i: int, j: int|
            0 <= i < j < self.entries@.len()
                ==> (#[trigger] self.entries@[i]).id != (#[trigger] self.entries@[j]).id
    }

    /// Whether any field is cached for this id.
    pub open spec fn has_entry(self, id: u32) -> bool {
        exists|i: int|
            0 <= i < self.entries@.len() && (#[trigger] self.entries@[i]).id == id
    }

    /// The position of this id's entry (meaningful when `has_entry(id)`
    /// holds and ids are unique).
    pub open spec fn entry_index(self, id: u32) -> int {
        choose|i: int|
            0 <= i < self.entries@.len() && (#[trigger] self.entries@[i]).id == id
    }

    /// The cached total for this id, if any.
    pub open spec fn cached_total(self, id: u32) -> Option<i64> {
        if self.has_entry(id) {
            self.entries@[self.entry_index(id)].total
        } else {
            None
        }
    }

    /// The cached limit for this id, if any.
    pub open spec fn cached_limit(self, id: u32) -> Option<u32> {
        if self.has_entry(id) {
            self.entries@[self.entry_index(id)].limit
        } else {
            None
        }
    }

    /// Every id other than `id` shows the same cached fields in `post` as in
    /// `pre`.
    pub open spec fn unchanged_except(pre: CacheStore, post: CacheStore, id: u32) -> bool {
        &&& forall|a: u32| a != id ==> #[trigger] post.cached_total(a) == pre.cached_total(a)
        &&& forall|a: u32| a != id ==> #[trigger] post.cached_limit(a) == pre.cached_limit(a)
    }

    /// With unique ids, any position holding `id` is the position that
    /// `entry_index` names.
    pub proof fn lemma_entry_at(self, id: u32, k: int)
        requires
            self.wf(),
            0 <= k < self.entries@.len(),
            self.entries@[k].id == id,
        ensures
            self.has_entry(id),
            self.entry_index(id) == k,
            self.cached_total(id) == self.entries@[k].total,
            self.cached_limit(id) == self.entries@[k].limit,
    {
        assert(self.has_entry(id));
        let c = self.entry_index(id);
        assert(0 <= c < self.entries@.len() && self.entries@[c].id == id);
        if c < k {
            assert(self.entries@[c].id != self.entries@[k].id);
        } else if k < c {
            assert(self.entries@[k].id != self.entries@[c].id);
        }
    }

    /// Replacing the entry at `k` without renaming its id carries the view
    /// across: the named id shows the new fields, every other id is
    /// untouched.
    proof fn lemma_update_view(pre: CacheStore, post: CacheStore, k: int, id: u32)
        requires
            pre.wf(),
            0 <= k < pre.entries@.len(),
            pre.entries@[k].id == id,
            post.entries@.len() == pre.entries@.len(),
            forall|j: int|
                0 <= j < post.entries@.len() && j != k ==> post.entries@[j] == pre.entries@[j],
            post.entries@[k].id == id,
        ensures
            post.wf(),
            post.entry_index(id) == k,
            post.cached_total(id) == post.entries@[k].total,
            post.cached_limit(id) == post.entries@[k].limit,
            CacheStore::unchanged_except(pre, post, id),
    {
        assert forall|i: int, j: int| 0 <= i < j < post.entries@.len()
            implies (#[trigger] post.entries@[i]).id != (#[trigger] post.entries@[j]).id by {
            assert(post.entries@[i].id == pre.entries@[i].id);
            assert(post.entries@[j].id == pre.entries@[j].id);
        }
        post.lemma_entry_at(id, k);
        assert forall|a: u32| a != id implies #[trigger] post.cached_total(a) == pre.cached_total(
            a,
        ) by {
            CacheStore::lemma_other_entry(pre, post, k, id, a);
        }
        assert forall|a: u32| a != id implies #[trigger] post.cached_limit(a) == pre.cached_limit(
            a,
        ) by {
            CacheStore::lemma_other_entry(pre, post, k, id, a);
        }
    }

    /// Helper for `lemma_update_view`: an id other than the one at `k` keeps
    /// its entry (or its absence) across the replacement.
    proof fn lemma_other_entry(pre: CacheStore, post: CacheStore, k: int, id: u32, a: u32)
        requires
            pre.wf(),
            post.wf(),
            0 <= k < pre.entries@.len(),
            pre.entries@[k].id == id,
            post.entries@.len() == pre.entries@.len(),
            forall|j: int|
                0 <= j < post.entries@.len() && j != k ==> post.entries@[j] == pre.entries@[j],
            post.entries@[k].id == id,
            a != id,
        ensures
            post.cached_total(a) == pre.cached_total(a),
            post.cached_limit(a) == pre.cached_limit(a),
    {
        if pre.has_entry(a) {
            let w = choose|i: int|
                0 <= i < pre.entries@.len() && (#[trigger] pre.entries@[i]).id == a;
            pre.lemma_entry_at(a, w);
            assert(w != k);
            assert(post.entries@[w].id == a);
            post.lemma_entry_at(a, w);
        } else {
            if post.has_entry(a) {
                let w = choose|i: int|
                    0 <= i < post.entries@.len() && (#[trigger] post.entries@[i]).id == a;
                assert(w != k);
                assert(pre.entries@[w].id == a);
            }
        }
    }

    /// An empty mirror: nothing cached for any id.
    pub fn new() -> (c: CacheStore)
        ensures
            c.wf(),
            forall|id: u32| (#[trigger] c.cached_total(id)) is None,
            forall|id: u32| (#[trigger] c.cached_limit(id)) is None,
    {
        let c = CacheStore { entries: Vec::new() };
        proof {
            assert forall|id: u32| (#[trigger] c.cached_total(id)) is None by {
                assert(!c.has_entry(id));
            }
            assert forall|id: u32| (#[trigger] c.cached_limit(id)) is None by {
                assert(!c.has_entry(id));
            }
        }
        c
    }

    fn find_entry(&self, id: u32) -> (r: Option<usize>)
        ensures
            match r {
                Some(k) => k < self.entries@.len() && self.entries@[k as int].id == id,
                None => !self.has_entry(id),
            },
    {
        let mut k: usize = 0;
        while k < self.entries.len()
            invariant
                k <= self.entries@.len(),
                forall|j: int| 0 <= j < k ==> (#[trigger] self.entries@[j]).id != id,
            decreases self.entries@.len() - k,
        {
            if self.entries[k].id == id {
                return Some(k);
            }
            k += 1;
        }
        None
    }

    /// Reads both mirrored fields at once (one round trip in the real
    /// store). A miss on either is not an error.
    pub fn read(&self, id: u32) -> (r: (Option<i64>, Option<u32>))
        requires
            self.wf(),
        ensures
            r.0 == self.cached_total(id),
            r.1 == self.cached_limit(id),
    {
        match self.find_entry(id) {
            Some(k) => {
                proof {
                    self.lemma_entry_at(id, k as int);
                }
                let e = self.entries[k];
                (e.total, e.limit)
            },
            None => (None, None),
        }
    }

    /// Finds this id's entry, creating an empty one when none exists;
    /// nothing observable changes.
    fn get_or_create(&mut self, id: u32) -> (k: usize)
        requires
            old(self).wf(),
        ensures
            final(self).wf(),
            k < final(self).entries@.len(),
            final(self).entries@[k as int].id == id,
            final(self).entry_index(id) == k,
            final(self).entries@[k as int].total == old(self).cached_total(id),
            final(self).entries@[k as int].limit == old(self).cached_limit(id),
            final(self).cached_total(id) == old(self).cached_total(id),
            final(self).cached_limit(id) == old(self).cached_limit(id),
            CacheStore::unchanged_except(*old(self), *final(self), id),
    {
        match self.find_entry(id) {
            Some(k) => {
                proof {
                    self.lemma_entry_at(id, k as int);
                    assert(*self == *old(self));
                }
                k
            },
            None => {
                let n = self.entries.len();
                self.entries.push(CacheEntry { id, total: None, limit: None });
                proof {
                    assert forall|i: int, j: int| 0 <= i < j < self.entries@.len()
                        implies (#[trigger] self.entries@[i]).id
                        != (#[trigger] self.entries@[j]).id by {
                        if j < n as int {
                            assert(old(self).entries@[i].id != old(self).entries@[j].id);
                        } else {
                            assert(self.entries@[i] == old(self).entries@[i]);
                            assert(!old(self).has_entry(id));
                        }
                    }
                    self.lemma_entry_at(id, n as int);
                    assert(old(self).cached_total(id) is None);
                    assert(old(self).cached_limit(id) is None);
                    assert forall|a: u32| a != id implies #[trigger] self.cached_total(a) == old(
                        self,
                    ).cached_total(a) by {
                        CacheStore::lemma_push_other(*old(self), *self, id, a);
                    }
                    assert forall|a: u32| a != id implies #[trigger] self.cached_limit(a) == old(
                        self,
                    ).cached_limit(a) by {
                        CacheStore::lemma_push_other(*old(self), *self, id, a);
                    }
                }
                n
            },
        }
    }

    /// Helper for `get_or_create`: appending a fresh id's entry leaves every
    /// other id's view untouched.
    proof fn lemma_push_other(pre: CacheStore, post: CacheStore, id: u32, a: u32)
        requires
            pre.wf(),
            post.wf(),
            !pre.has_entry(id),
            post.entries@ == pre.entries@.push(CacheEntry { id, total: None, limit: None }),
            a != id,
        ensures
            post.cached_total(a) == pre.cached_total(a),
            post.cached_limit(a) == pre.cached_limit(a),
    {
        if pre.has_entry(a) {
            let w = choose|i: int|
                0 <= i < pre.entries@.len() && (#[trigger] pre.entries@[i]).id == a;
            pre.lemma_entry_at(a, w);
            assert(post.entries@[w].id == a);
            post.lemma_entry_at(a, w);
        } else {
            if post.has_entry(a) {
                let w = choose|i: int|
                    0 <= i < post.entries@.len() && (#[trigger] post.entries@[i]).id == a;
                assert(w != pre.entries@.len() as int);
                assert(pre.entries@[w].id == a);
            }
        }
    }

    /// Replaces one entry in place, keeping its id.
    fn put_entry(&mut self, k: usize, e: CacheEntry)
        requires
            old(self).wf(),
            k < old(self).entries@.len(),
            e.id == old(self).entries@[k as int].id,
        ensures
            final(self).wf(),
            final(self).cached_total(e.id) == e.total,
            final(self).cached_limit(e.id) == e.limit,
            CacheStore::unchanged_except(*old(self), *final(self), e.id),
    {
        let ghost pre = *self;
        self.entries.remove(k);
        self.entries.insert(k, e);
        proof {
            assert(self.entries@ =~= pre.entries@.update(k as int, e));
            CacheStore::lemma_update_view(pre, *self, k as int, e.id);
        }
    }

    /// Sets the mirrored total outright (the full-resync path).
    pub fn set_total(&mut self, id: u32, v: i64)
        requires
            old(self).wf(),
        ensures
            final(self).wf(),
            final(self).cached_total(id) == Some(v),
            final(self).cached_limit(id) == old(self).cached_limit(id),
            CacheStore::unchanged_except(*old(self), *final(self), id),
    {
        let k = self.get_or_create(id);
        let e = self.entries[k];
        self.put_entry(k, CacheEntry { id, total: Some(v), limit: e.limit });
        proof {
            assert forall|a: u32| a != id implies #[trigger] self.cached_total(a) == old(
                self,
            ).cached_total(a) by {}
            assert forall|a: u32| a != id implies #[trigger] self.cached_limit(a) == old(
                self,
            ).cached_limit(a) by {}
        }
    }

    /// Sets the mirrored limit. Limits never change after provisioning, so
    /// repeating this with the authoritative value is harmless.
    pub fn set_limit(&mut self, id: u32, l: u32)
        requires
            old(self).wf(),
        ensures
            final(self).wf(),
            final(self).cached_limit(id) == Some(l),
            final(self).cached_total(id) == old(self).cached_total(id),
            CacheStore::unchanged_except(*old(self), *final(self), id),
    {
        let k = self.get_or_create(id);
        let e = self.entries[k];
        self.put_entry(k, CacheEntry { id, total: e.total, limit: Some(l) });
        proof {
            assert forall|a: u32| a != id implies #[trigger] self.cached_total(a) == old(
                self,
            ).cached_total(a) by {}
            assert forall|a: u32| a != id implies #[trigger] self.cached_limit(a) == old(
                self,
            ).cached_limit(a) by {}
        }
    }

    /// Adds `delta` to the mirrored total atomically, starting from zero
    /// when no total is cached — the store's increment semantics.
    pub fn incr_total(&mut self, id: u32, delta: i64)
        requires
            old(self).wf(),
            old(self).cached_total(id) matches Some(t) ==> i64::MIN <= t + delta <= i64::MAX,
        ensures
            final(self).wf(),
            final(self).cached_total(id) == Some(
                match old(self).cached_total(id) {
                    Some(t) => (t + delta) as i64,
                    None => delta,
                },
            ),
            final(self).cached_limit(id) == old(self).cached_limit(id),
            CacheStore::unchanged_except(*old(self), *final(self), id),
    {
        let k = self.get_or_create(id);
        let e = self.entries[k];
        let new_total: i64 = match e.total {
            Some(t) => t + delta,
            None => delta,
        };
        self.put_entry(k, CacheEntry { id, total: Some(new_total), limit: e.limit });
        proof {
            assert forall|a: u32| a != id implies #[trigger] self.cached_total(a) == old(
                self,
            ).cached_total(a) by {}
            assert forall|a: u32| a != id implies #[trigger] self.cached_limit(a) == old(
                self,
            ).cached_limit(a) by {}
        }
    }

    /// Drops everything cached for this id, as an eviction would.
    pub fn evict(&mut self, id: u32)
        requires
            old(self).wf(),
        ensures
            final(self).wf(),
            final(self).cached_total(id) is None,
            final(self).cached_limit(id) is None,
            CacheStore::unchanged_except(*old(self), *final(self), id),
    {
        let ghost pre = *self;
        match self.find_entry(id) {
            Some(k) => {
                self.entries.remove(k);
                proof {
                    assert forall|i: int, j: int| 0 <= i < j < self.entries@.len()
                        implies (#[trigger] self.entries@[i]).id
                        != (#[trigger] self.entries@[j]).id by {
                        let pi: int = if i < k as int { i } else { i + 1 };
                        let pj: int = if j < k as int { j } else { j + 1 };
                        assert(self.entries@[i] == pre.entries@[pi]);
                        assert(self.entries@[j] == pre.entries@[pj]);
                    }
                    if self.has_entry(id) {
                        let w = choose|i: int|
                            0 <= i < self.entries@.len() && (#[trigger] self.entries@[i]).id == id;
                        let pw: int = if w < k as int { w } else { w + 1 };
                        assert(pre.entries@[pw].id == id);
                        assert(pw != k as int);
                        pre.lemma_entry_at(id, k as int);
                        pre.lemma_entry_at(id, pw);
                    }
                    assert forall|a: u32| a != id implies #[trigger] self.cached_total(a)
                        == pre.cached_total(a) by {
                        CacheStore::lemma_remove_other(pre, *self, k as int, id, a);
                    }
                    assert forall|a: u32| a != id implies #[trigger] self.cached_limit(a)
                        == pre.cached_limit(a) by {
                        CacheStore::lemma_remove_other(pre, *self, k as int, id, a);
                    }
                }
            },
            None => {},
        }
    }

    /// Helper for `evict`: removing one id's entry leaves every other id's
    /// view untouched.
    proof fn lemma_remove_other(pre: CacheStore, post: CacheStore, k: int, id: u32, a: u32)
        requires
            pre.wf(),
            post.wf(),
            0 <= k < pre.entries@.len(),
            pre.entries@[k].id == id,
            post.entries@ == pre.entries@.remove(k),
            a != id,
        ensures
            post.cached_total(a) == pre.cached_total(a),
            post.cached_limit(a) == pre.cached_limit(a),
    {
        if pre.has_entry(a) {
            let w = choose|i: int|
                0 <= i < pre.entries@.len() && (#[trigger] pre.entries@[i]).id == a;
            pre.lemma_entry_at(a, w);
            assert(w != k);
            let w2: int = if w < k { w } else { w - 1 };
            assert(post.entries@[w2] == pre.entries@[w]);
            post.lemma_entry_at(a, w2);
        } else {
            if post.has_entry(a) {
                let w = choose|i: int|
                    0 <= i < post.entries@.len() && (#[trigger] post.entries@[i]).id == a;
                let pw: int = if w < k { w } else { w + 1 };
                assert(pre.entries@[pw].id == a);
            }
        }
    }
}

/// The short-circuit test of the cache-aside write path: with both fields
/// cached and `total + signed_value < -limit`, the transaction is rejected
/// before the authoritative store is touched.
pub open spec fn spec_short_circuits(
    cached_total: Option<i64>,
    cached_limit: Option<u32>,
    signed_value: int,
) -> bool {
    match (cached_total, cached_limit) {
        (Some(t), Some(l)) => t + signed_value < -(l as int),
        _ => false,
    }
}

/// Decides the short-circuit from the mirrored fields alone. A stale mirror
/// can make this reject a transaction the authoritative store would accept;
/// the design accepts that risk in exchange for latency.
pub fn short_circuits(cached_total: Option<i64>, cached_limit: Option<u32>, signed_value: i64) -> (b:
    bool)
    ensures
        b == spec_short_circuits(cached_total, cached_limit, signed_value as int),
{
    match (cached_total, cached_limit) {
        (Some(t), Some(l)) => (t as i128) + (signed_value as i128) < -(l as i128),
        _ => false,
    }
}

/// How the mirrored total is brought back in line after an accepted
/// authoritative write.
#[derive(Clone, Copy, Debug, PartialEq, Eq, Structural)]
pub enum TotalReconcile {
    /// The cache drifted — the cached total no longer predicts the
    /// authoritative one: replace it outright (full resync).
    Overwrite(i32),
    /// No drift detected: add the signed value atomically, avoiding a
    /// read-modify-write round trip on the hot path.
    Increment(i64),
}

/// The reconcile decision: overwrite exactly when a total was cached and
/// `cached + signed_value` misses the authoritative total.
pub open spec fn spec_reconcile_total(
    cached_total: Option<i64>,
    signed_value: int,
    authoritative_total: i32,
) -> TotalReconcile {
    match cached_total {
        Some(t) => if t + signed_value != authoritative_total {
            TotalReconcile::Overwrite(authoritative_total)
        } else {
            TotalReconcile::Increment(signed_value as i64)
        },
        None => TotalReconcile::Increment(signed_value as i64),
    }
}

/// Decides drift-or-increment from the mirrored total, the signed value just
/// applied, and the authoritative post-write total.
pub fn reconcile_total(cached_total: Option<i64>, signed_value: i64, authoritative_total: i32) -> (p:
    TotalReconcile)
    ensures
        p == spec_reconcile_total(cached_total, signed_value as int, authoritative_total),
{
    match cached_total {
        Some(t) => {
            if (t as i128) + (signed_value as i128) != (authoritative_total as i128) {
                TotalReconcile::Overwrite(authoritative_total)
            } else {
                TotalReconcile::Increment(signed_value)
            }
        },
        None => TotalReconcile::Increment(signed_value),
    }
}

/// The mirrored total that carrying out the reconcile decision produces
/// (an increment starts from zero when no total was cached).
pub open spec fn reconciled_total(
    cached_total: Option<i64>,
    signed_value: int,
    authoritative_total: i32,
) -> int {
    match spec_reconcile_total(cached_total, signed_value, authoritative_total) {
        TotalReconcile::Overwrite(v) => v as int,
        TotalReconcile::Increment(d) => match cached_total {
            Some(t) => t + d,
            None => d as int,
        },
    }
}

/// Cache self-heal, at the decision level: whenever any total was cached —
/// right or drifted — reconciling leaves the mirror equal to the
/// authoritative total.
pub proof fn lemma_reconcile_heals(
    cached_total: Option<i64>,
    signed_value: int,
    authoritative_total: i32,
)
    requires
        cached_total is Some,
        -0xffff_ffff <= signed_value <= 0xffff_ffff,
    ensures
        reconciled_total(cached_total, signed_value, authoritative_total)
            == authoritative_total as int,
{
}

/// The cache-aside backend: a best-effort mirror in front of the
/// authoritative ledger. The mirror never answers reads and never decides
/// acceptance on its own — except to reject early what it can already see
/// would exceed the limit.
pub struct CachedLedger {
    pub cache: CacheStore,
    pub ledger: Ledger,
}

impl CachedLedger {
    /// A mirrored limit is never wrong: limits are immutable after
    /// provisioning and are only ever written from the authoritative
    /// balance.
    pub open spec fn limit_coherent(self) -> bool {
        forall|id: u32|
            (#[trigger] self.cache.cached_limit(id)) matches Some(l)
                ==> self.ledger.has_account(id) && self.ledger.account(id).limit == l
    }

    /// Well-formed: both stores are, and every mirrored limit agrees with
    /// the authoritative one. Nothing is promised of mirrored totals: they
    /// may drift at any time without harming correctness.
    pub open spec fn wf(self) -> bool {
        &&& self.ledger.wf()
        &&& self.cache.wf()
        &&& self.limit_coherent()
    }

    /// Wraps an authoritative ledger with an empty mirror.
    pub fn new(ledger: Ledger) -> (c: CachedLedger)
        requires
            ledger.wf(),
        ensures
            c.wf(),
            c.ledger == ledger,
            forall|id: u32| (#[trigger] c.cache.cached_total(id)) is None,
            forall|id: u32| (#[trigger] c.cache.cached_limit(id)) is None,
    {
        CachedLedger { cache: CacheStore::new(), ledger }
    }

    /// The cache-aside write path: read the two mirrored fields, reject
    /// outright what they already show to exceed the limit, otherwise let
    /// the authoritative ledger decide, then reconcile the mirror against
    /// the returned balance. On every rejection — early or authoritative —
    /// nothing changes anywhere. Once any total was mirrored, an accepted
    /// write leaves the mirror equal to the authoritative total (self-heal);
    /// a mirrored limit, being immutable, is only ever confirmed, never
    /// changed.
    pub fn add_transaction(&mut self, id: u32, transaction: Transaction, now: i64) -> (r: Result<
        Balance,
        ServerError,
    >)
        requires
            old(self).wf(),
        ensures
            final(self).wf(),
            spec_short_circuits(
                old(self).cache.cached_total(id),
                old(self).cache.cached_limit(id),
                transaction.signed(),
            ) ==> r == Err::<Balance, ServerError>(ServerError::TransactionWouldExceedLimit)
                && *final(self) == *old(self),
            !spec_short_circuits(
                old(self).cache.cached_total(id),
                old(self).cache.cached_limit(id),
                transaction.signed(),
            ) ==> match r {
                Ok(balance) => {
                    &&& old(self).ledger.add_accepted(id, transaction)
                    &&& Ledger::stepped(old(self).ledger, final(self).ledger, id, transaction)
                    &&& balance.total == final(self).ledger.account(id).total
                    &&& balance.limit == final(self).ledger.account(id).limit
                    &&& balance.statement_date == Some(now)
                    &&& final(self).cache.cached_limit(id) == Some(
                        final(self).ledger.account(id).limit,
                    )
                    &&& final(self).cache.cached_total(id) == Some(
                        reconciled_total(
                            old(self).cache.cached_total(id),
                            transaction.signed(),
                            balance.total,
                        ) as i64,
                    )
                    &&& CacheStore::unchanged_except(old(self).cache, final(self).cache, id)
                },
                Err(e) => {
                    &&& *final(self) == *old(self)
                    &&& match e {
                        ServerError::UserNotFound(missing) => {
                            &&& missing == id
                            &&& !old(self).ledger.has_account(id)
                        },
                        ServerError::TransactionWouldExceedLimit => old(
                            self,
                        ).ledger.add_limit_exceeded(id, transaction),
                        ServerError::Transient => old(self).ledger.add_overflow(id, transaction),
                    }
                },
            },
            r is Ok && old(self).cache.cached_total(id) is Some ==> final(self).cache.cached_total(
                id,
            ) == Some(final(self).ledger.account(id).total as i64),
            old(self).cache.cached_limit(id) matches Some(l) ==> final(self).cache.cached_limit(id)
                == Some(l),
    {
        let (cached_total, cached_limit) = self.cache.read(id);
        let signed = transaction.value();
        if short_circuits(cached_total, cached_limit, signed) {
            return Err(ServerError::TransactionWouldExceedLimit);
        }
        let ghost pre = *self;
        let balance = match self.ledger.add_transaction(id, transaction, now) {
            Ok(b) => b,
            Err(e) => {
                proof {
                    assert(*self == *old(self));
                }
                return Err(e);
            },
        };
        if cached_limit.is_none() {
            self.cache.set_limit(id, balance.limit);
        }
        let ghost mid = *self;
        match reconcile_total(cached_total, signed, balance.total) {
            TotalReconcile::Overwrite(v) => self.cache.set_total(id, v as i64),
            TotalReconcile::Increment(d) => self.cache.incr_total(id, d),
        }
        proof {
            assert(self.cache.cached_limit(id) == mid.cache.cached_limit(id));
            if cached_limit is Some {
                assert(mid.cache == pre.cache);
                assert(pre.ledger.account(id).limit == balance.limit);
            }
            assert(self.cache.cached_limit(id) == Some(balance.limit));
            assert forall|a: u32| a != id implies #[trigger] self.cache.cached_total(a)
                == pre.cache.cached_total(a) by {
                assert(mid.cache.cached_total(a) == pre.cache.cached_total(a));
            }
            assert forall|a: u32| a != id implies #[trigger] self.cache.cached_limit(a)
                == pre.cache.cached_limit(a) by {
                assert(mid.cache.cached_limit(a) == pre.cache.cached_limit(a));
            }
            assert forall|a: u32|
                ((#[trigger] self.cache.cached_limit(a)) matches Some(l)
                    ==> self.ledger.has_account(a) && self.ledger.account(a).limit == l) by {
                if a != id {
                    assert(self.cache.cached_limit(a) == pre.cache.cached_limit(a));
                    assert(self.ledger.has_account(a) == pre.ledger.has_account(a));
                    assert(pre.ledger.has_account(a) ==> self.ledger.account(a) == pre.ledger.account(a));
                }
            }
        }
        Ok(balance)
    }

    /// Statement reads pass the mirror by entirely: they are always answered
    /// by the authoritative store, so a stale mirror never surfaces in a
    /// read.
    pub fn get_statement(&self, id: u32, now: i64) -> (r: Result<Statement, ServerError>)
        requires
            self.wf(),
        ensures
            self.ledger.statement_contract(id, now, r),
    {
        self.ledger.get_statement(id, now)
    }

    /// Forces the mirrored total for one account, as a concurrent writer or
    /// a stale entry would. Only the best-effort total is touched; the next
    /// accepted write on the account reconciles it against the authoritative
    /// store.
    pub fn set_cached_total(&mut self, id: u32, v: i64)
        requires
            old(self).wf(),
        ensures
            final(self).wf(),
            final(self).ledger == old(self).ledger,
            final(self).cache.cached_total(id) == Some(v),
            final(self).cache.cached_limit(id) == old(self).cache.cached_limit(id),
            CacheStore::unchanged_except(old(self).cache, final(self).cache, id),
    {
        self.cache.set_total(id, v);
        proof {
            assert forall|a: u32|
                ((#[trigger] self.cache.cached_limit(a)) matches Some(l)
                    ==> self.ledger.has_account(a) && self.ledger.account(a).limit == l) by {
                assert(self.cache.cached_limit(a) == old(self).cache.cached_limit(a));
            }
        }
    }

    /// Idempotent limit mirroring: limits never change after provisioning,
    /// so in a well-formed cache-aside backend a mirrored limit already
    /// equals the authoritative one — writing it again from any
    /// authoritative balance of the same account stores the value the mirror
    /// already holds.
    pub proof fn lemma_limit_set_idempotent(self, id: u32, l: u32)
        requires
            self.wf(),
            self.cache.cached_limit(id) == Some(l),
        ensures
            self.ledger.has_account(id),
            self.ledger.account(id).limit == l,
    {
    }

    /// Drops both mirrored fields for one account, as an eviction would.
    pub fn evict(&mut self, id: u32)
        requires
            old(self).wf(),
        ensures
            final(self).wf(),
            final(self).ledger == old(self).ledger,
            final(self).cache.cached_total(id) is None,
            final(self).cache.cached_limit(id) is None,
            CacheStore::unchanged_except(old(self).cache, final(self).cache, id),
    {
        self.cache.evict(id);
        proof {
            assert forall|a: u32|
                ((#[trigger] self.cache.cached_limit(a)) matches Some(l)
                    ==> self.ledger.has_account(a) && self.ledger.account(a).limit == l) by {
                if a != id {
                    assert(self.cache.cached_limit(a) == old(self).cache.cached_limit(a));
                }
            }
        }
    }
}

} // verus!
