//! Persisted record types: allowances, accrued interest, and the internal
//! form of a collateralized debt position.

use vstd::prelude::*;

use crate::collateralized::CDPStatus;

verus! {

/// Key of an allowance: the granting account and the spender.
#[derive(Clone, Copy, Debug, PartialEq, Eq, Structural)]
pub struct Txn(pub u64, pub u64);

/// An allowance: the amount a spender may move and the last ledger on which
/// the grant is live.
#[derive(Clone, Copy, Debug, PartialEq, Eq, Structural)]
pub struct Allowance {
    /// Remaining amount the spender may move.
    pub amount: i128,
    /// Last ledger sequence number on which the allowance is valid.
    pub live_until_ledger: u32,
}

/// An allowance paired with its expiration ledger, as handed to viewers.
#[derive(Clone, Copy, Debug, PartialEq, Eq, Structural)]
pub struct AllowanceValue {
    /// Remaining amount the spender may move.
    pub amount: i128,
    /// Ledger sequence number at which the grant expires.
    pub expiration_ledger: u32,
}

/// Interest accrued by a CDP: the unpaid amount in xAsset units and the
/// cumulative XLM already delivered.
#[derive(Clone, Copy, Debug, PartialEq, Eq, Structural)]
pub struct Interest {
    /// Unpaid accrued interest, in xAsset units.
    pub amount: i128,
    /// Cumulative interest paid, in XLM.
    pub paid: i128,
}

impl Default for Interest {
    /// Fresh interest: nothing accrued, nothing paid.
    fn default() -> (r: Self)
        ensures
            r.amount == 0,
            r.paid == 0,
    {
        Interest { amount: 0, paid: 0 }
    }
}

impl Interest {
    /// The spec-level value of [`Interest::default`].
    pub open spec fn zero() -> Interest {
        Interest { amount: 0, paid: 0 }
    }
}

/// The persisted form of a collateralized debt position.
#[derive(Clone, Copy, Debug, PartialEq, Eq, Structural)]
pub struct CDPInternal {
    /// Current collateral balance, in reserve units.
    pub xlm_deposited: i128,
    /// Outstanding principal debt, in xAsset units.
    pub asset_lent: i128,
    /// Lifecycle status; a stored record is never `Closed`.
    pub status: CDPStatus,
    /// Last time (in seconds) interest was settled into the record; zero
    /// means accrual has not started.
    pub last_interest_time: u64,
    /// Interest accrued at `last_interest_time`.
    pub accrued_interest: Interest,
}

impl CDPInternal {
    /// A fresh open position with the given collateral and debt.
    pub fn new(xlm_deposited: i128, asset_lent: i128, timestamp: u64) -> (r: Self)
        ensures
            r == CDPInternal::new_spec(xlm_deposited, asset_lent, timestamp),
    {
        CDPInternal {
            xlm_deposited,
            asset_lent,
            status: CDPStatus::Open,
            accrued_interest: Interest { amount: 0, paid: 0 },
            last_interest_time: timestamp,
        }
    }

    /// The spec-level value of [`CDPInternal::new`].
    pub open spec fn new_spec(xlm_deposited: i128, asset_lent: i128, timestamp: u64) -> Self {
        CDPInternal {
            xlm_deposited,
            asset_lent,
            status: CDPStatus::Open,
            accrued_interest: Interest::zero(),
            last_interest_time: timestamp,
        }
    }

    /// Validity of a stored record: nonnegative collateral, debt and
    /// interest, and a status that is never `Closed`.
    pub open spec fn wf(self) -> bool {
        &&& self.xlm_deposited >= 0
        &&& self.asset_lent >= 0
        &&& self.accrued_interest.amount >= 0
        &&& self.accrued_interest.paid >= 0
        &&& self.status != CDPStatus::Closed
    }
}

/// The full interest picture handed back by `get_accrued_interest`.
#[derive(Clone, Copy, Debug, PartialEq, Eq, Structural)]
pub struct InterestDetail {
    /// Unpaid accrued interest, in xAsset units.
    pub amount: i128,
    /// Cumulative interest paid, in XLM.
    pub paid: i128,
    /// The unpaid interest expressed in XLM at current prices.
    pub amount_in_xlm: i128,
    /// XLM to approve for a repayment made within the next five minutes.
    pub approval_amount: i128,
    /// Timestamp the accrual was computed at.
    pub last_interest_time: u64,
}

} // verus!
