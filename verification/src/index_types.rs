//! Event records emitted at every state change, for off-chain indexing.
//! The hosting shell fills the ledger and timestamp fields and publishes
//! them; the engine's state carries everything else.

use vstd::prelude::*;

use crate::collateralized::CDPStatus;

verus! {

/// Snapshot of a CDP after a state change.
#[derive(Clone, Copy, Debug, PartialEq, Eq, Structural)]
pub struct CDP {
    /// The lender owning the position.
    pub id: u64,
    /// Collateral after the change.
    pub xlm_deposited: i128,
    /// Principal debt after the change.
    pub asset_lent: i128,
    /// Unpaid accrued interest.
    pub accrued_interest: i128,
    /// Cumulative interest paid, in XLM.
    pub interest_paid: i128,
    /// Timestamp of the interest figure.
    pub last_interest_time: u64,
    /// Status after the change.
    pub status: CDPStatus,
    /// Ledger sequence of the change.
    pub ledger: u32,
    /// Timestamp of the change.
    pub timestamp: u64,
}

/// Snapshot of a stability-pool position after a state change.
#[derive(Clone, Copy, Debug, PartialEq, Eq, Structural)]
pub struct StakePosition {
    /// The staker owning the position.
    pub id: u64,
    /// Nominal deposit after the change.
    pub xasset_deposit: i128,
    /// Product constant the position is anchored at.
    pub product_constant: i128,
    /// Compounded constant the position is anchored at.
    pub compounded_constant: i128,
    /// Rewards paid out by the change, if any.
    pub rewards_claimed: i128,
    /// Epoch the position belongs to.
    pub epoch: u64,
    /// Ledger sequence of the change.
    pub ledger: u32,
    /// Timestamp of the change.
    pub timestamp: u64,
}

/// Record of a liquidation.
#[derive(Clone, Copy, Debug, PartialEq, Eq, Structural)]
pub struct Liquidation {
    /// The lender whose CDP was liquidated.
    pub cdp_id: u64,
    /// Collateral released to the pool.
    pub collateral_liquidated: i128,
    /// Principal debt cleared.
    pub principal_repaid: i128,
    /// Interest absorbed, in xAsset units.
    pub accrued_interest_repaid: i128,
    /// XLM credited against the absorbed interest.
    pub collateral_applied_to_interest: i128,
    /// Collateralization ratio after the liquidation.
    pub collateralization_ratio: u32,
    /// XLM price used.
    pub xlm_price: i128,
    /// xAsset price used.
    pub xasset_price: i128,
    /// Ledger sequence of the change.
    pub ledger: u32,
    /// Timestamp of the change.
    pub timestamp: u64,
}

} // verus!
