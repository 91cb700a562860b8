//! The balance rule: a transaction is legal exactly when the new total stays
//! at or above `-limit`. This single function is the source of truth for
//! every backend; the storage-side constraint or validator each backend
//! carries is a redundant safety net that must agree with it.

use vstd::prelude::*;

verus! {

/// The account invariant: the running total never falls below `-limit`.
pub open spec fn within_limit(total: int, limit: int) -> bool {
    total >= -limit
}

/// Outcome of applying one signed transaction value to a balance.
#[derive(Clone, Copy, Debug, PartialEq, Eq, Structural)]
pub enum ApplyOutcome {
    /// The rule accepts; `new_total` is `total + signed_value`.
    Accepted { new_total: i32 },
    /// The rule rejects: the new total would fall below `-limit`.
    LimitExceeded,
    /// The rule accepts mathematically, but the new total does not fit the
    /// stored 32-bit column; the storage layer would fail such an update.
    Overflow,
}

/// Applies one signed transaction value to a total under a limit, per the
/// balance rule: accept iff `total + signed_value >= -limit`; reject with
/// `LimitExceeded` otherwise, leaving the total unchanged.
pub fn apply(total: i32, limit: u32, signed_value: i64) -> (o: ApplyOutcome)
    requires
        -0xffff_ffff <= signed_value <= 0xffff_ffff,
    ensures
        match o {
            ApplyOutcome::Accepted { new_total } => {
                &&& new_total == total + signed_value
                &&& within_limit(total + signed_value, limit as int)
            },
            ApplyOutcome::LimitExceeded => !within_limit(total + signed_value, limit as int),
            ApplyOutcome::Overflow => {
                &&& within_limit(total + signed_value, limit as int)
                &&& !(i32::MIN <= total + signed_value <= i32::MAX)
            },
        },
{
    let new_total: i64 = total as i64 + signed_value;
    if new_total < -(limit as i64) {
        ApplyOutcome::LimitExceeded
    } else if new_total < i32::MIN as i64 || new_total > i32::MAX as i64 {
        ApplyOutcome::Overflow
    } else {
        ApplyOutcome::Accepted { new_total: new_total as i32 }
    }
}

} // verus!
