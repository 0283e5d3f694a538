//! The flat error taxonomy surfaced by every entry point. A failure leaves
//! the state exactly as it was: the models return the pre-state beside the
//! error.

use vstd::prelude::*;

verus! {

/// Every way an entry point can refuse to act.
#[derive(Clone, Copy, Debug, PartialEq, Eq, Structural)]
pub enum Error {
    /// The prospective collateralization ratio falls below the minimum.
    InsufficientCollateralization,
    /// The lender already has a CDP.
    CDPAlreadyExists,
    /// No CDP is stored for the lender.
    CDPNotFound,
    /// Only an insolvent CDP can be frozen.
    CDPNotInsolvent,
    /// The CDP must be open.
    CDPNotOpen,
    /// The CDP must be open or insolvent for lender mutations.
    CDPNotOpenOrInsolvent,
    /// The CDP must be open or insolvent to repay debt.
    CDPNotOpenOrInsolventForRepay,
    /// The CDP holds less collateral than the withdrawal asks for.
    InsufficientCollateral,
    /// The account's token balance does not cover the amount.
    InsufficientBalance,
    /// The spender's allowance does not cover the amount.
    InsufficientAllowance,
    /// A repayment may not exceed the outstanding debt.
    RepaymentExceedsDebt,
    /// A CDP with outstanding debt cannot be closed.
    OutstandingDebt,
    /// Merging needs at least two CDPs, all of them frozen.
    InvalidMerge,
    /// Only a frozen CDP with positive debt and collateral can be liquidated.
    InvalidLiquidation,
    /// The withdrawal would push the ratio below the minimum.
    InvalidWithdrawal,
    /// The staker already has a position; deposits add to it.
    StakeAlreadyExists,
    /// No stability-pool position exists for the account.
    StakeDoesntExist,
    /// Pending rewards must be claimed before changing the position.
    ClaimRewardsFirst,
    /// A stake can only be closed in full.
    PartialUnstakeNotAllowed,
    /// The requested withdrawal exceeds the effective deposit.
    InsufficientStake,
    /// The allowance expiry precedes the current ledger.
    InvalidLedgerSequence,
    /// The oracle returned no price.
    OraclePriceFetchFailed,
    /// The oracle returned no decimal count.
    OracleDecimalsFetchFailed,
    /// The reserve-asset transfer did not complete.
    XLMTransferFailed,
    /// The reserve-asset invocation itself failed.
    XLMInvocationFailed,
    /// The lender's XLM balance does not cover the interest due.
    InsufficientXLMForInterest,
    /// The approved XLM allowance does not cover the interest due.
    InsufficientApprovedXLMForInterestRepayment,
    /// An interest payment may not exceed the interest due.
    PaymentExceedsInterestDue,
    /// Amount arguments must be strictly positive.
    ValueNotPositive,
    /// Transfers to the sending account are rejected.
    CannotTransferToSelf,
    /// An arithmetic step left the representable range.
    ArithmeticError,
}

} // verus!
