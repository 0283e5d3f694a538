//! Collateralized debt positions: lifecycle status, the decorated view a
//! caller sees with live solvency attached, and the lender-facing CDP
//! operations.

use vstd::prelude::*;

use crate::error::Error;
use crate::interest::{
    get_updated_accrued_interest, lemma_projected_interest_nonneg, projected_interest_spec,
    updated_interest_spec,
};
use crate::math::{
    checked_collateralization_ratio, checked_convert_to_xlm, collateralization_ratio_spec,
    convert_fits, convert_to_xlm_spec, ratio_fits,
};
use crate::native::{balance_of, native_transfer_ok, native_transfer_spec};
use crate::oracle::OraclePrices;
use crate::storage::{CDPInternal, Interest, InterestDetail};
use crate::token::{lemma_wf_records_unchanged, record_of, wf_scalars_eq, StateView, TokenContract};

verus! {

/// Lifecycle of a collateralized debt position.
#[derive(Clone, Copy, Debug, PartialEq, Eq, Structural)]
pub enum CDPStatus {
    /// Fully collateralized; usable by its lender.
    Open,
    /// Undercollateralized; still usable, but any user may freeze it.
    Insolvent,
    /// Confiscated by the protocol; awaiting liquidation.
    Frozen,
    /// Debt repaid and collateral withdrawn; the record is removed.
    Closed,
}

/// A CDP as presented to callers: the persisted fields together with the
/// lender and the freshly computed collateralization ratio.
#[derive(Clone, Copy, Debug, PartialEq, Eq, Structural)]
pub struct CDPContract {
    /// The account owning the position.
    pub lender: u64,
    /// Current collateral balance, in reserve units.
    pub xlm_deposited: i128,
    /// Outstanding principal debt, in xAsset units.
    pub asset_lent: i128,
    /// Lifecycle status after recomputing solvency.
    pub status: CDPStatus,
    /// Collateralization ratio in basis points; `u32::MAX` when debt-free.
    pub collateralization_ratio: u32,
    /// Interest accrued up to `last_interest_time`.
    pub accrued_interest: Interest,
    /// Timestamp of the interest figure.
    pub last_interest_time: u64,
}

impl CDPContract {
    /// The persisted form of this view.
    pub open spec fn internal_spec(self) -> CDPInternal {
        CDPInternal {
            xlm_deposited: self.xlm_deposited,
            asset_lent: self.asset_lent,
            status: self.status,
            last_interest_time: self.last_interest_time,
            accrued_interest: self.accrued_interest,
        }
    }

    /// Strip the derived fields for persistence.
    pub fn internal(&self) -> (r: CDPInternal)
        ensures
            r == self.internal_spec(),
    {
        CDPInternal {
            xlm_deposited: self.xlm_deposited,
            asset_lent: self.asset_lent,
            status: self.status,
            last_interest_time: self.last_interest_time,
            accrued_interest: self.accrued_interest,
        }
    }
}

/// The status after a solvency recomputation: an open position below the
/// minimum becomes insolvent, an insolvent one at or above it recovers, and
/// frozen or closed positions keep their status.
pub open spec fn status_after(status: CDPStatus, ratio: u32, mcr: u32) -> CDPStatus {
    if status == CDPStatus::Open && ratio < mcr {
        CDPStatus::Insolvent
    } else if status == CDPStatus::Insolvent && ratio >= mcr {
        CDPStatus::Open
    } else {
        status
    }
}

/// The ratio of a record at the given prices, once its interest figure is
/// known.
pub open spec fn record_ratio(cdp: CDPInternal, interest_amount: int, prices: OraclePrices) -> u32 {
    collateralization_ratio_spec(
        cdp.asset_lent as int,
        prices.asset.price as int,
        cdp.xlm_deposited as int,
        prices.xlm.price as int,
        prices.xlm_decimals as nat,
        prices.asset_decimals as nat,
        interest_amount,
    )
}

/// Whether that ratio's products stay within `i128`.
pub open spec fn record_ratio_fits(
    cdp: CDPInternal,
    interest_amount: int,
    prices: OraclePrices,
) -> bool {
    ratio_fits(
        cdp.asset_lent as int,
        prices.asset.price as int,
        cdp.xlm_deposited as int,
        prices.xlm.price as int,
        prices.xlm_decimals as nat,
        prices.asset_decimals as nat,
        interest_amount,
    )
}

/// Decorate a record with its interest brought up to `now` and the
/// collateralization ratio at the given prices, flipping the status between
/// open and insolvent as the ratio demands.
pub open spec fn decorate_spec(
    cdp: CDPInternal,
    lender: u64,
    mcr: u32,
    rate: u32,
    prices: OraclePrices,
    now: u64,
) -> Result<CDPContract, Error> {
    match updated_interest_spec(cdp, rate, now) {
        Err(e) => Err(e),
        Ok((interest, last_interest_time)) => {
            if !record_ratio_fits(cdp, interest.amount as int, prices) {
                Err(Error::ArithmeticError)
            } else {
                let ratio = record_ratio(cdp, interest.amount as int, prices);
                Ok(
                    CDPContract {
                        lender,
                        xlm_deposited: cdp.xlm_deposited,
                        asset_lent: cdp.asset_lent,
                        status: status_after(cdp.status, ratio, mcr),
                        collateralization_ratio: ratio,
                        accrued_interest: interest,
                        last_interest_time,
                    },
                )
            }
        },
    }
}

/// A decoration of a valid record yields a valid record and nonnegative
/// interest.
pub proof fn lemma_decorate_wf(
    cdp: CDPInternal,
    lender: u64,
    mcr: u32,
    rate: u32,
    prices: OraclePrices,
    now: u64,
)
    requires
        cdp.wf(),
    ensures
        match decorate_spec(cdp, lender, mcr, rate, prices, now) {
            Ok(view) => view.internal_spec().wf() && view.accrued_interest.amount >= 0
                && view.accrued_interest.paid >= 0 && view.xlm_deposited == cdp.xlm_deposited
                && view.asset_lent == cdp.asset_lent,
            Err(_) => true,
        },
{
    lemma_projected_interest_nonneg(cdp, rate, cdp.last_interest_time, now);
}

/// Compute the decorated view of a record.
pub fn decorate(
    cdp: &CDPInternal,
    lender: u64,
    mcr: u32,
    rate: u32,
    prices: &OraclePrices,
    now: u64,
) -> (r: Result<CDPContract, Error>)
    requires
        cdp.wf(),
        prices.wf(),
    ensures
        r == decorate_spec(*cdp, lender, mcr, rate, *prices, now),
{
    let (interest, last_interest_time) = match get_updated_accrued_interest(
        cdp,
        rate,
        now,
    ) {
        Ok(v) => v,
        Err(e) => {
            return Err(e);
        },
    };
    proof {
        lemma_projected_interest_nonneg(*cdp, rate, cdp.last_interest_time, now);
    }
    let ratio = match checked_collateralization_ratio(
        cdp.asset_lent,
        prices.asset.price,
        cdp.xlm_deposited,
        prices.xlm.price,
        prices.xlm_decimals,
        prices.asset_decimals,
        interest.amount,
    ) {
        Some(v) => v,
        None => {
            return Err(Error::ArithmeticError);
        },
    };
    let status = if matches!(cdp.status, CDPStatus::Open) && ratio < mcr {
        CDPStatus::Insolvent
    } else if matches!(cdp.status, CDPStatus::Insolvent) && ratio >= mcr {
        CDPStatus::Open
    } else {
        cdp.status
    };
    Ok(
        CDPContract {
            lender,
            xlm_deposited: cdp.xlm_deposited,
            asset_lent: cdp.asset_lent,
            status,
            collateralization_ratio: ratio,
            accrued_interest: interest,
            last_interest_time,
        },
    )
}

impl StateView {
    /// The decorated view of a lender's CDP at the given prices and time.
    pub open spec fn cdp_model(self, lender: u64, prices: OraclePrices, now: u64) -> Result<
        CDPContract,
        Error,
    > {
        if !self.cdps.contains_key(lender) {
            Err(Error::CDPNotFound)
        } else {
            decorate_spec(
                self.cdps[lender],
                lender,
                self.store.min_collat_ratio,
                self.store.interest_rate,
                prices,
                now,
            )
        }
    }

    /// The same state with other CDPs.
    pub open spec fn with_cdps(self, m: Map<u64, CDPInternal>) -> StateView {
        StateView { cdps: m, ..self }
    }

    /// Outcome of `open_cdp`.
    pub open spec fn open_cdp_model(
        self,
        lender: u64,
        collateral: i128,
        asset_lent: i128,
        prices: OraclePrices,
        now: u64,
    ) -> (StateView, Result<(), Error>) {
        if collateral <= 0 || asset_lent <= 0 {
            (self, Err(Error::ValueNotPositive))
        } else if self.cdps.contains_key(lender) {
            (self, Err(Error::CDPAlreadyExists))
        } else {
            let cdp = CDPInternal::new_spec(collateral, asset_lent, now);
            match decorate_spec(
                cdp,
                lender,
                self.store.min_collat_ratio,
                self.store.interest_rate,
                prices,
                now,
            ) {
                Err(e) => (self, Err(e)),
                Ok(view) => {
                    if view.collateralization_ratio < self.store.min_collat_ratio {
                        (self, Err(Error::InsufficientCollateralization))
                    } else if !native_transfer_ok(
                        self.native,
                        lender,
                        self.contract,
                        collateral as int,
                    ) {
                        (self, Err(Error::XLMTransferFailed))
                    } else {
                        let moved = StateView {
                            native: native_transfer_spec(
                                self.native,
                                lender,
                                self.contract,
                                collateral as int,
                            ),
                            ..self
                        };
                        let (minted, res) = moved.mint_credit_model(lender, asset_lent as int);
                        if res is Err {
                            (self, res)
                        } else {
                            (minted.with_cdps(minted.cdps.insert(lender, cdp)), Ok(()))
                        }
                    }
                },
            }
        }
    }

    /// Outcome of `freeze_cdp`.
    pub open spec fn freeze_cdp_model(self, lender: u64, prices: OraclePrices, now: u64) -> (
        StateView,
        Result<(), Error>,
    ) {
        match self.cdp_model(lender, prices, now) {
            Err(e) => (self, Err(e)),
            Ok(view) => {
                if view.status == CDPStatus::Insolvent {
                    let frozen = CDPContract { status: CDPStatus::Frozen, ..view };
                    (
                        self.with_cdps(self.cdps.insert(lender, frozen.internal_spec())),
                        Ok(()),
                    )
                } else {
                    (self, Err(Error::CDPNotInsolvent))
                }
            },
        }
    }

    /// Outcome of `add_collateral`.
    pub open spec fn add_collateral_model(
        self,
        lender: u64,
        amount: i128,
        prices: OraclePrices,
        now: u64,
    ) -> (StateView, Result<(), Error>) {
        if amount <= 0 {
            (self, Err(Error::ValueNotPositive))
        } else if !self.cdps.contains_key(lender) {
            (self, Err(Error::CDPNotFound))
        } else {
            let cdp = self.cdps[lender];
            if cdp.status == CDPStatus::Closed || cdp.status == CDPStatus::Frozen {
                (self, Err(Error::CDPNotOpenOrInsolvent))
            } else if cdp.xlm_deposited + amount > i128::MAX {
                (self, Err(Error::ArithmeticError))
            } else {
                let topped = CDPInternal {
                    xlm_deposited: (cdp.xlm_deposited + amount) as i128,
                    ..cdp
                };
                match decorate_spec(
                    topped,
                    lender,
                    self.store.min_collat_ratio,
                    self.store.interest_rate,
                    prices,
                    now,
                ) {
                    Err(e) => (self, Err(e)),
                    Ok(view) => {
                        if !native_transfer_ok(self.native, lender, self.contract, amount as int) {
                            (self, Err(Error::XLMTransferFailed))
                        } else {
                            (
                                StateView {
                                    native: native_transfer_spec(
                                        self.native,
                                        lender,
                                        self.contract,
                                        amount as int,
                                    ),
                                    cdps: self.cdps.insert(lender, view.internal_spec()),
                                    ..self
                                },
                                Ok(()),
                            )
                        }
                    },
                }
            }
        }
    }

    /// Outcome of `withdraw_collateral`.
    pub open spec fn withdraw_collateral_model(
        self,
        lender: u64,
        amount: i128,
        prices: OraclePrices,
        now: u64,
    ) -> (StateView, Result<(), Error>) {
        if amount <= 0 {
            (self, Err(Error::ValueNotPositive))
        } else if !self.cdps.contains_key(lender) {
            (self, Err(Error::CDPNotFound))
        } else {
            let cdp = self.cdps[lender];
            if cdp.status == CDPStatus::Closed || cdp.status == CDPStatus::Frozen {
                (self, Err(Error::CDPNotOpenOrInsolvent))
            } else if cdp.xlm_deposited < amount {
                (self, Err(Error::InsufficientCollateral))
            } else {
                let lowered = CDPInternal {
                    xlm_deposited: (cdp.xlm_deposited - amount) as i128,
                    ..cdp
                };
                match decorate_spec(
                    lowered,
                    lender,
                    self.store.min_collat_ratio,
                    self.store.interest_rate,
                    prices,
                    now,
                ) {
                    Err(e) => (self, Err(e)),
                    Ok(view) => {
                        if view.collateralization_ratio < self.store.min_collat_ratio {
                            (self, Err(Error::InvalidWithdrawal))
                        } else if !native_transfer_ok(
                            self.native,
                            self.contract,
                            lender,
                            amount as int,
                        ) {
                            (self, Err(Error::XLMTransferFailed))
                        } else {
                            (
                                StateView {
                                    native: native_transfer_spec(
                                        self.native,
                                        self.contract,
                                        lender,
                                        amount as int,
                                    ),
                                    cdps: self.cdps.insert(lender, view.internal_spec()),
                                    ..self
                                },
                                Ok(()),
                            )
                        }
                    },
                }
            }
        }
    }

    /// Outcome of `borrow_xasset`.
    pub open spec fn borrow_xasset_model(
        self,
        lender: u64,
        amount: i128,
        prices: OraclePrices,
        now: u64,
    ) -> (StateView, Result<(), Error>) {
        if amount <= 0 {
            (self, Err(Error::ValueNotPositive))
        } else if !self.cdps.contains_key(lender) {
            (self, Err(Error::CDPNotFound))
        } else {
            let cdp = self.cdps[lender];
            if cdp.status == CDPStatus::Closed || cdp.status == CDPStatus::Frozen {
                (self, Err(Error::CDPNotOpenOrInsolvent))
            } else if cdp.asset_lent + amount > i128::MAX {
                (self, Err(Error::ArithmeticError))
            } else {
                let raised = CDPInternal { asset_lent: (cdp.asset_lent + amount) as i128, ..cdp };
                match decorate_spec(
                    raised,
                    lender,
                    self.store.min_collat_ratio,
                    self.store.interest_rate,
                    prices,
                    now,
                ) {
                    Err(e) => (self, Err(e)),
                    Ok(view) => {
                        if view.collateralization_ratio < self.store.min_collat_ratio {
                            (self, Err(Error::InsufficientCollateralization))
                        } else {
                            let (minted, res) = self.mint_credit_model(lender, amount as int);
                            if res is Err {
                                (self, res)
                            } else {
                                (
                                    minted.with_cdps(
                                        minted.cdps.insert(lender, view.internal_spec()),
                                    ),
                                    Ok(()),
                                )
                            }
                        }
                    },
                }
            }
        }
    }

    /// Outcome of `close_cdp`: any remaining collateral is returned and the
    /// record is removed.
    pub open spec fn close_cdp_model(self, lender: u64) -> (StateView, Result<(), Error>) {
        if !self.cdps.contains_key(lender) {
            (self, Err(Error::CDPNotFound))
        } else {
            let cdp = self.cdps[lender];
            if cdp.asset_lent > 0 {
                (self, Err(Error::OutstandingDebt))
            } else if cdp.xlm_deposited > 0 && !native_transfer_ok(
                self.native,
                self.contract,
                lender,
                cdp.xlm_deposited as int,
            ) {
                (self, Err(Error::XLMTransferFailed))
            } else {
                let refunded = if cdp.xlm_deposited > 0 {
                    native_transfer_spec(self.native, self.contract, lender, cdp.xlm_deposited as int)
                } else {
                    self.native
                };
                (
                    StateView { native: refunded, cdps: self.cdps.remove(lender), ..self },
                    Ok(()),
                )
            }
        }
    }

    /// The interest picture of a lender's CDP: the accrual at `now`, its XLM
    /// value, and the five-minute-ahead projection to approve for repayment.
    pub open spec fn accrued_interest_model(
        self,
        lender: u64,
        prices: OraclePrices,
        now: u64,
    ) -> Result<InterestDetail, Error> {
        if !self.cdps.contains_key(lender) {
            Err(Error::CDPNotFound)
        } else {
            let cdp = self.cdps[lender];
            match updated_interest_spec(cdp, self.store.interest_rate, now) {
                Err(e) => Err(e),
                Ok((interest, last_interest_time)) => {
                    match projected_interest_spec(
                        cdp,
                        self.store.interest_rate,
                        cdp.last_interest_time,
                        (now + 300) as u64,
                    ) {
                        Err(e) => Err(e),
                        Ok(projected) => {
                            if !convert_fits(
                                projected.amount as int,
                                prices.asset.price as int,
                                prices.xlm_decimals as nat,
                                prices.asset_decimals as nat,
                            ) {
                                Err(Error::ArithmeticError)
                            } else if !convert_fits(
                                interest.amount as int,
                                prices.asset.price as int,
                                prices.xlm_decimals as nat,
                                prices.asset_decimals as nat,
                            ) {
                                Err(Error::ArithmeticError)
                            } else {
                                Ok(
                                    InterestDetail {
                                        amount: interest.amount,
                                        paid: interest.paid,
                                        amount_in_xlm: convert_to_xlm_spec(
                                            interest.amount as int,
                                            prices.asset.price as int,
                                            prices.xlm.price as int,
                                            prices.xlm_decimals as nat,
                                            prices.asset_decimals as nat,
                                        ) as i128,
                                        approval_amount: convert_to_xlm_spec(
                                            projected.amount as int,
                                            prices.asset.price as int,
                                            prices.xlm.price as int,
                                            prices.xlm_decimals as nat,
                                            prices.asset_decimals as nat,
                                        ) as i128,
                                        last_interest_time,
                                    },
                                )
                            }
                        },
                    }
                },
            }
        }
    }
}

impl StateView {
    /// Outcome of an interest payment against the CDP of `lender`. A zero
    /// `amount_in_xasset` settles everything currently accrued; the XLM leg
    /// is drawn from the lender directly, or from the allowance the lender
    /// granted the contract when `by_allowance` is set.
    pub open spec fn apply_interest_model(
        self,
        lender: u64,
        amount_in_xasset: i128,
        prices: OraclePrices,
        now: u64,
        current_ledger: u32,
        by_allowance: bool,
    ) -> (StateView, Result<CDPContract, Error>) {
        match self.cdp_model(lender, prices, now) {
            Err(e) => (self, Err(e)),
            Ok(view) => {
                if amount_in_xasset != 0 && view.accrued_interest.amount < amount_in_xasset {
                    (self, Err(Error::PaymentExceedsInterestDue))
                } else {
                    let amount_to_pay = if amount_in_xasset == 0 {
                        view.accrued_interest.amount
                    } else {
                        amount_in_xasset
                    };
                    if amount_to_pay == 0 {
                        (self, Ok(view))
                    } else if !convert_fits(
                        amount_to_pay as int,
                        prices.asset.price as int,
                        prices.xlm_decimals as nat,
                        prices.asset_decimals as nat,
                    ) {
                        (self, Err(Error::ArithmeticError))
                    } else {
                        let amount_in_xlm = convert_to_xlm_spec(
                            amount_to_pay as int,
                            prices.asset.price as int,
                            prices.xlm.price as int,
                            prices.xlm_decimals as nat,
                            prices.asset_decimals as nat,
                        );
                        if balance_of(self.native.balances, lender) < amount_in_xlm {
                            (self, Err(Error::InsufficientXLMForInterest))
                        } else {
                            let pay_ok = if by_allowance {
                                crate::native::native_transfer_from_ok(
                                    self.native,
                                    self.contract,
                                    lender,
                                    self.contract,
                                    amount_in_xlm,
                                    current_ledger,
                                )
                            } else {
                                native_transfer_ok(self.native, lender, self.contract, amount_in_xlm)
                            };
                            if !pay_ok {
                                (
                                    self,
                                    Err(
                                        if by_allowance {
                                            Error::InsufficientApprovedXLMForInterestRepayment
                                        } else {
                                            Error::XLMTransferFailed
                                        },
                                    ),
                                )
                            } else if view.accrued_interest.paid + amount_in_xlm > i128::MAX {
                                (self, Err(Error::ArithmeticError))
                            } else {
                                let settled = CDPInternal {
                                    xlm_deposited: view.xlm_deposited,
                                    asset_lent: view.asset_lent,
                                    status: view.status,
                                    last_interest_time: view.last_interest_time,
                                    accrued_interest: Interest {
                                        amount: (view.accrued_interest.amount
                                            - amount_to_pay) as i128,
                                        paid: (view.accrued_interest.paid + amount_in_xlm) as i128,
                                    },
                                };
                                match decorate_spec(
                                    settled,
                                    lender,
                                    self.store.min_collat_ratio,
                                    self.store.interest_rate,
                                    prices,
                                    now,
                                ) {
                                    Err(e) => (self, Err(e)),
                                    Ok(view2) => {
                                        if self.store.interest_collected + amount_in_xlm
                                            > i128::MAX {
                                            (self, Err(Error::ArithmeticError))
                                        } else if record_of(
                                            self.interest_records,
                                            self.store.epoch,
                                        ) + amount_in_xlm > i128::MAX {
                                            (self, Err(Error::ArithmeticError))
                                        } else {
                                            let paid_native = if by_allowance {
                                                crate::native::native_transfer_from_spec(
                                                    self.native,
                                                    self.contract,
                                                    lender,
                                                    self.contract,
                                                    amount_in_xlm,
                                                    current_ledger,
                                                )
                                            } else {
                                                native_transfer_spec(
                                                    self.native,
                                                    lender,
                                                    self.contract,
                                                    amount_in_xlm,
                                                )
                                            };
                                            (
                                                StateView {
                                                    native: paid_native,
                                                    cdps: self.cdps.insert(
                                                        lender,
                                                        view2.internal_spec(),
                                                    ),
                                                    store: crate::token::TokenStorage {
                                                        interest_collected: (self.store.interest_collected
                                                            + amount_in_xlm) as i128,
                                                        ..self.store
                                                    },
                                                    interest_records: self.interest_records.insert(
                                                        self.store.epoch,
                                                        (record_of(
                                                            self.interest_records,
                                                            self.store.epoch,
                                                        ) + amount_in_xlm) as i128,
                                                    ),
                                                    ..self
                                                },
                                                Ok(view2),
                                            )
                                        }
                                    },
                                }
                            }
                        }
                    }
                }
            },
        }
    }

    /// Outcome of `pay_interest`: a negative amount is refused, a zero
    /// amount settles everything currently accrued, and the XLM leg is
    /// drawn from the lender's reserve balance directly.
    pub open spec fn pay_interest_model(
        self,
        lender: u64,
        amount_in_xasset: i128,
        prices: OraclePrices,
        now: u64,
        current_ledger: u32,
    ) -> (StateView, Result<CDPContract, Error>) {
        if amount_in_xasset < 0 {
            (self, Err(Error::ValueNotPositive))
        } else {
            self.apply_interest_model(lender, amount_in_xasset, prices, now, current_ledger, false)
        }
    }

    /// Outcome of `repay_debt`: settle all accrued interest from the
    /// lender's reserve allowance, then burn `amount` of principal; the CDP
    /// closes when both debt and collateral reach zero.
    pub open spec fn repay_debt_model(
        self,
        lender: u64,
        amount: i128,
        prices: OraclePrices,
        now: u64,
        current_ledger: u32,
    ) -> (StateView, Result<(), Error>) {
        if amount <= 0 {
            (self, Err(Error::ValueNotPositive))
        } else if !self.cdps.contains_key(lender) {
            (self, Err(Error::CDPNotFound))
        } else if self.cdps[lender].status == CDPStatus::Closed || self.cdps[lender].status
            == CDPStatus::Frozen {
            (self, Err(Error::CDPNotOpenOrInsolventForRepay))
        } else if self.cdps[lender].asset_lent < amount {
            (self, Err(Error::RepaymentExceedsDebt))
        } else if balance_of(self.balances, lender) < amount {
            (self, Err(Error::InsufficientBalance))
        } else {
            let (s1, res) = self.apply_interest_model(
                lender,
                0,
                prices,
                now,
                current_ledger,
                true,
            );
            match res {
                Err(e) => (self, Err(e)),
                Ok(_) => {
                    let settled = s1.cdps[lender];
                    let lowered = CDPInternal {
                        asset_lent: (settled.asset_lent - amount) as i128,
                        ..settled
                    };
                    match decorate_spec(
                        lowered,
                        lender,
                        self.store.min_collat_ratio,
                        self.store.interest_rate,
                        prices,
                        now,
                    ) {
                        Err(e) => (self, Err(e)),
                        Ok(v2) => {
                            let (s2, res2) = s1.burn_debit_model(lender, amount as int);
                            if res2 is Err {
                                (self, res2)
                            } else if v2.asset_lent == 0 && v2.xlm_deposited == 0 {
                                (
                                    StateView { cdps: s2.cdps.remove(lender), ..s2 },
                                    Ok(()),
                                )
                            } else {
                                (
                                    StateView {
                                        cdps: s2.cdps.insert(lender, v2.internal_spec()),
                                        ..s2
                                    },
                                    Ok(()),
                                )
                            }
                        },
                    }
                },
            }
        }
    }
}

/// The summed collateral, debt, accrued interest and paid interest of a
/// list of CDPs, all of which must exist and be frozen; checked left to
/// right, as the merge walks them.
pub open spec fn merge_totals(cdps: Map<u64, CDPInternal>, lenders: Seq<u64>) -> Result<
    (int, int, int, int),
    Error,
>
    decreases lenders.len(),
{
    if lenders.len() == 0 {
        Ok((0, 0, 0, 0))
    } else {
        match merge_totals(cdps, lenders.drop_last()) {
            Err(e) => Err(e),
            Ok(acc) => {
                let l = lenders.last();
                if !cdps.contains_key(l) {
                    Err(Error::CDPNotFound)
                } else if cdps[l].status != CDPStatus::Frozen {
                    Err(Error::InvalidMerge)
                } else if acc.0 + cdps[l].xlm_deposited > i128::MAX {
                    Err(Error::ArithmeticError)
                } else if acc.1 + cdps[l].asset_lent > i128::MAX {
                    Err(Error::ArithmeticError)
                } else if acc.2 + cdps[l].accrued_interest.amount > i128::MAX {
                    Err(Error::ArithmeticError)
                } else if acc.3 + cdps[l].accrued_interest.paid > i128::MAX {
                    Err(Error::ArithmeticError)
                } else {
                    Ok(
                        (
                            acc.0 + cdps[l].xlm_deposited,
                            acc.1 + cdps[l].asset_lent,
                            acc.2 + cdps[l].accrued_interest.amount,
                            acc.3 + cdps[l].accrued_interest.paid,
                        ),
                    )
                }
            },
        }
    }
}

/// Remove the listed keys from a CDP store, front to back.
pub open spec fn remove_all(m: Map<u64, CDPInternal>, ls: Seq<u64>) -> Map<u64, CDPInternal>
    decreases ls.len(),
{
    if ls.len() == 0 {
        m
    } else {
        remove_all(m.remove(ls.first()), ls.drop_first())
    }
}

proof fn lemma_merge_totals_err_persists(
    cdps: Map<u64, CDPInternal>,
    s: Seq<u64>,
    j: int,
    k: int,
)
    requires
        0 <= j <= k <= s.len(),
        merge_totals(cdps, s.take(j)) is Err,
    ensures
        merge_totals(cdps, s.take(k)) == merge_totals(cdps, s.take(j)),
    decreases k - j,
{
    if j < k {
        lemma_merge_totals_err_persists(cdps, s, j, k - 1);
        assert(s.take(k).drop_last() =~= s.take(k - 1));
    }
}

proof fn lemma_remove_all_push(m: Map<u64, CDPInternal>, s: Seq<u64>, x: u64)
    ensures
        remove_all(m, s.push(x)) == remove_all(m, s).remove(x),
    decreases s.len(),
{
    if s.len() == 0 {
        reveal_with_fuel(remove_all, 3);
        assert(s.push(x).first() == x);
        assert(s.push(x).drop_first() =~= Seq::<u64>::empty());
        assert(remove_all(m, s.push(x)) == m.remove(x));
        assert(remove_all(m, s) == m);
    } else {
        assert(s.push(x).first() == s.first());
        assert(s.push(x).drop_first() =~= s.drop_first().push(x));
        lemma_remove_all_push(m.remove(s.first()), s.drop_first(), x);
        assert(remove_all(m, s.push(x)) == remove_all(
            m.remove(s.first()),
            s.drop_first().push(x),
        ));
    }
}

proof fn lemma_remove_all_submap(m: Map<u64, CDPInternal>, s: Seq<u64>, k: u64)
    requires
        remove_all(m, s).contains_key(k),
    ensures
        m.contains_key(k),
        remove_all(m, s)[k] == m[k],
    decreases s.len(),
{
    if s.len() > 0 {
        lemma_remove_all_submap(m.remove(s.first()), s.drop_first(), k);
    }
}

impl StateView {
    /// Outcome of `merge_cdps`: at least two frozen CDPs are summed into
    /// one record stored under the first lender; the others are removed.
    pub open spec fn merge_cdps_model(self, lenders: Seq<u64>, now: u64) -> (StateView, Result<
        (),
        Error,
    >) {
        if lenders.len() < 2 {
            (self, Err(Error::InvalidMerge))
        } else {
            match merge_totals(self.cdps, lenders) {
                Err(e) => (self, Err(e)),
                Ok(tot) => {
                    let merged = CDPInternal {
                        xlm_deposited: tot.0 as i128,
                        asset_lent: tot.1 as i128,
                        status: CDPStatus::Frozen,
                        accrued_interest: Interest { amount: tot.2 as i128, paid: tot.3 as i128 },
                        last_interest_time: now,
                    };
                    (
                        self.with_cdps(
                            remove_all(
                                self.cdps.insert(lenders[0], merged),
                                lenders.drop_first(),
                            ),
                        ),
                        Ok(()),
                    )
                },
            }
        }
    }
}

/// Inserting a valid record keeps the invariant when nothing else moved.
pub proof fn lemma_wf_insert_cdp(pre: StateView, post: StateView, lender: u64, cdp: CDPInternal)
    requires
        pre.wf(),
        cdp.wf(),
        post.cdps == pre.cdps.insert(lender, cdp),
        post.positions == pre.positions,
        post.compound_records == pre.compound_records,
        wf_scalars_eq(post.store, pre.store),
    ensures
        post.wf(),
{
    assert forall|l: u64| #[trigger] post.cdps.contains_key(l) implies post.cdps[l].wf() by {
        if l != lender {
            assert(pre.cdps.contains_key(l));
        }
    }
    assert forall|s: u64| #[trigger]
        post.positions.contains_key(s) implies post.position_wf(post.positions[s]) by {
        assert(pre.positions.contains_key(s));
        assert(pre.position_wf(pre.positions[s]));
    }
}

/// Removing a record keeps the invariant when nothing else moved.
pub proof fn lemma_wf_remove_cdp(pre: StateView, post: StateView, lender: u64)
    requires
        pre.wf(),
        post.cdps == pre.cdps.remove(lender),
        post.positions == pre.positions,
        post.compound_records == pre.compound_records,
        wf_scalars_eq(post.store, pre.store),
    ensures
        post.wf(),
{
    assert forall|l: u64| #[trigger] post.cdps.contains_key(l) implies post.cdps[l].wf() by {
        assert(pre.cdps.contains_key(l));
    }
    assert forall|s: u64| #[trigger]
        post.positions.contains_key(s) implies post.position_wf(post.positions[s]) by {
        assert(pre.positions.contains_key(s));
        assert(pre.position_wf(pre.positions[s]));
    }
}

impl TokenContract {
    /// Retrieve the decorated CDP of `lender` at the given prices and time.
    pub fn cdp(&self, lender: u64, prices: &OraclePrices, now: u64) -> (r: Result<
        CDPContract,
        Error,
    >)
        requires
            self@.wf(),
            prices.wf(),
        ensures
            r == self@.cdp_model(lender, *prices, now),
    {
        let Some(cdp) = self.cdps.get(lender) else {
            return Err(Error::CDPNotFound);
        };
        proof {
            assert(self@.cdps.contains_key(lender));
        }
        decorate(
            &cdp,
            lender,
            self.storage.min_collat_ratio,
            self.storage.interest_rate,
            prices,
            now,
        )
    }

    /// Open a new CDP for `lender`, depositing `collateral` XLM and minting
    /// `asset_lent` xAsset. The caller authenticates `lender`.
    pub fn open_cdp(
        &mut self,
        lender: u64,
        collateral: i128,
        asset_lent: i128,
        prices: &OraclePrices,
        now: u64,
    ) -> (r: Result<(), Error>)
        requires
            old(self)@.wf(),
            prices.wf(),
        ensures
            final(self)@ == old(self)@.open_cdp_model(lender, collateral, asset_lent, *prices, now).0,
            r == old(self)@.open_cdp_model(lender, collateral, asset_lent, *prices, now).1,
            final(self)@.wf(),
    {
        if collateral <= 0 || asset_lent <= 0 {
            return Err(Error::ValueNotPositive);
        }
        if self.cdps.has(lender) {
            return Err(Error::CDPAlreadyExists);
        }
        let cdp = CDPInternal::new(collateral, asset_lent, now);
        let view = match decorate(
            &cdp,
            lender,
            self.storage.min_collat_ratio,
            self.storage.interest_rate,
            prices,
            now,
        ) {
            Ok(v) => v,
            Err(e) => {
                return Err(e);
            },
        };
        if view.collateralization_ratio < self.storage.min_collat_ratio {
            return Err(Error::InsufficientCollateralization);
        }
        let contract = self.contract;
        let reserve_covers = self.native.balance(lender) >= collateral
            && self.native.balance(contract).checked_add(collateral).is_some();
        if !reserve_covers {
            return Err(Error::XLMTransferFailed);
        }
        if self.balance(lender).checked_add(asset_lent).is_none() {
            return Err(Error::ArithmeticError);
        }
        let moved = self.native.transfer(lender, contract, collateral);
        proof {
            assert(moved);
        }
        match self.mint_internal(lender, asset_lent) {
            Ok(()) => {},
            Err(e) => {
                // Unreachable: the checks above cover this failure.
                proof {
                    assert(false);
                }
                return Err(e);
            },
        }
        self.cdps.set(lender, cdp);
        proof {
            assert(self@ =~= old(self)@.open_cdp_model(
                lender,
                collateral,
                asset_lent,
                *prices,
                now,
            ).0);
            let mid = StateView { cdps: self@.cdps.remove(lender), ..self@ };
            assert(mid.cdps =~= old(self)@.cdps);
            lemma_wf_records_unchanged(old(self)@, mid);
            lemma_wf_insert_cdp(mid, self@, lender, cdp);
        }
        Ok(())
    }

    /// Freeze the CDP of `lender` if it is insolvent; any caller may do so.
    pub fn freeze_cdp(&mut self, lender: u64, prices: &OraclePrices, now: u64) -> (r: Result<
        (),
        Error,
    >)
        requires
            old(self)@.wf(),
            prices.wf(),
        ensures
            final(self)@ == old(self)@.freeze_cdp_model(lender, *prices, now).0,
            r == old(self)@.freeze_cdp_model(lender, *prices, now).1,
            final(self)@.wf(),
    {
        let view = match self.cdp(lender, prices, now) {
            Ok(v) => v,
            Err(e) => {
                return Err(e);
            },
        };
        if !matches!(view.status, CDPStatus::Insolvent) {
            return Err(Error::CDPNotInsolvent);
        }
        let frozen = CDPContract { status: CDPStatus::Frozen, ..view };
        let record = frozen.internal();
        self.cdps.set(lender, record);
        proof {
            assert(self@ =~= old(self)@.freeze_cdp_model(lender, *prices, now).0);
            lemma_decorate_wf(
                old(self)@.cdps[lender],
                lender,
                old(self)@.store.min_collat_ratio,
                old(self)@.store.interest_rate,
                *prices,
                now,
            );
            lemma_wf_insert_cdp(old(self)@, self@, lender, record);
        }
        Ok(())
    }

    /// Deposit `amount` more XLM of collateral into the CDP of `lender`.
    /// The caller authenticates `lender`.
    pub fn add_collateral(&mut self, lender: u64, amount: i128, prices: &OraclePrices, now: u64) -> (r:
        Result<(), Error>)
        requires
            old(self)@.wf(),
            prices.wf(),
        ensures
            final(self)@ == old(self)@.add_collateral_model(lender, amount, *prices, now).0,
            r == old(self)@.add_collateral_model(lender, amount, *prices, now).1,
            final(self)@.wf(),
    {
        if amount <= 0 {
            return Err(Error::ValueNotPositive);
        }
        let Some(cdp) = self.cdps.get(lender) else {
            return Err(Error::CDPNotFound);
        };
        if matches!(cdp.status, CDPStatus::Closed) || matches!(cdp.status, CDPStatus::Frozen) {
            return Err(Error::CDPNotOpenOrInsolvent);
        }
        let Some(topped_up) = cdp.xlm_deposited.checked_add(amount) else {
            return Err(Error::ArithmeticError);
        };
        let topped = CDPInternal { xlm_deposited: topped_up, ..cdp };
        let view = match decorate(
            &topped,
            lender,
            self.storage.min_collat_ratio,
            self.storage.interest_rate,
            prices,
            now,
        ) {
            Ok(v) => v,
            Err(e) => {
                return Err(e);
            },
        };
        let contract = self.contract;
        if !self.native.transfer(lender, contract, amount) {
            return Err(Error::XLMTransferFailed);
        }
        let record = view.internal();
        self.cdps.set(lender, record);
        proof {
            assert(self@ =~= old(self)@.add_collateral_model(lender, amount, *prices, now).0);
            lemma_decorate_wf(
                topped,
                lender,
                old(self)@.store.min_collat_ratio,
                old(self)@.store.interest_rate,
                *prices,
                now,
            );
            lemma_wf_insert_cdp(old(self)@, self@, lender, record);
        }
        Ok(())
    }

    /// Withdraw `amount` XLM of collateral from the CDP of `lender`,
    /// refused if the remaining ratio would fall below the minimum. The
    /// caller authenticates `lender`.
    pub fn withdraw_collateral(
        &mut self,
        lender: u64,
        amount: i128,
        prices: &OraclePrices,
        now: u64,
    ) -> (r: Result<(), Error>)
        requires
            old(self)@.wf(),
            prices.wf(),
        ensures
            final(self)@ == old(self)@.withdraw_collateral_model(lender, amount, *prices, now).0,
            r == old(self)@.withdraw_collateral_model(lender, amount, *prices, now).1,
            final(self)@.wf(),
    {
        if amount <= 0 {
            return Err(Error::ValueNotPositive);
        }
        let Some(cdp) = self.cdps.get(lender) else {
            return Err(Error::CDPNotFound);
        };
        if matches!(cdp.status, CDPStatus::Closed) || matches!(cdp.status, CDPStatus::Frozen) {
            return Err(Error::CDPNotOpenOrInsolvent);
        }
        if cdp.xlm_deposited < amount {
            return Err(Error::InsufficientCollateral);
        }
        let lowered = CDPInternal { xlm_deposited: cdp.xlm_deposited - amount, ..cdp };
        let view = match decorate(
            &lowered,
            lender,
            self.storage.min_collat_ratio,
            self.storage.interest_rate,
            prices,
            now,
        ) {
            Ok(v) => v,
            Err(e) => {
                return Err(e);
            },
        };
        if view.collateralization_ratio < self.storage.min_collat_ratio {
            return Err(Error::InvalidWithdrawal);
        }
        let contract = self.contract;
        if !self.native.transfer(contract, lender, amount) {
            return Err(Error::XLMTransferFailed);
        }
        let record = view.internal();
        self.cdps.set(lender, record);
        proof {
            assert(self@ =~= old(self)@.withdraw_collateral_model(lender, amount, *prices, now).0);
            lemma_decorate_wf(
                lowered,
                lender,
                old(self)@.store.min_collat_ratio,
                old(self)@.store.interest_rate,
                *prices,
                now,
            );
            lemma_wf_insert_cdp(old(self)@, self@, lender, record);
        }
        Ok(())
    }

    /// Mint `amount` more xAsset against the collateral of `lender`'s CDP,
    /// refused if the resulting ratio would fall below the minimum. The
    /// caller authenticates `lender`.
    pub fn borrow_xasset(&mut self, lender: u64, amount: i128, prices: &OraclePrices, now: u64) -> (r:
        Result<(), Error>)
        requires
            old(self)@.wf(),
            prices.wf(),
        ensures
            final(self)@ == old(self)@.borrow_xasset_model(lender, amount, *prices, now).0,
            r == old(self)@.borrow_xasset_model(lender, amount, *prices, now).1,
            final(self)@.wf(),
    {
        if amount <= 0 {
            return Err(Error::ValueNotPositive);
        }
        let Some(cdp) = self.cdps.get(lender) else {
            return Err(Error::CDPNotFound);
        };
        if matches!(cdp.status, CDPStatus::Closed) || matches!(cdp.status, CDPStatus::Frozen) {
            return Err(Error::CDPNotOpenOrInsolvent);
        }
        let Some(raised_debt) = cdp.asset_lent.checked_add(amount) else {
            return Err(Error::ArithmeticError);
        };
        let raised = CDPInternal { asset_lent: raised_debt, ..cdp };
        let view = match decorate(
            &raised,
            lender,
            self.storage.min_collat_ratio,
            self.storage.interest_rate,
            prices,
            now,
        ) {
            Ok(v) => v,
            Err(e) => {
                return Err(e);
            },
        };
        if view.collateralization_ratio < self.storage.min_collat_ratio {
            return Err(Error::InsufficientCollateralization);
        }
        match self.mint_internal(lender, amount) {
            Ok(()) => {},
            Err(e) => {
                return Err(e);
            },
        }
        let record = view.internal();
        self.cdps.set(lender, record);
        proof {
            assert(self@ =~= old(self)@.borrow_xasset_model(lender, amount, *prices, now).0);
            lemma_decorate_wf(
                raised,
                lender,
                old(self)@.store.min_collat_ratio,
                old(self)@.store.interest_rate,
                *prices,
                now,
            );
            lemma_wf_insert_cdp(old(self)@, self@, lender, record);
        }
        Ok(())
    }

    /// Close the CDP of `lender` once its debt is zero, returning any
    /// remaining collateral. The caller authenticates `lender`.
    pub fn close_cdp(&mut self, lender: u64) -> (r: Result<(), Error>)
        requires
            old(self)@.wf(),
        ensures
            final(self)@ == old(self)@.close_cdp_model(lender).0,
            r == old(self)@.close_cdp_model(lender).1,
            final(self)@.wf(),
    {
        let Some(cdp) = self.cdps.get(lender) else {
            return Err(Error::CDPNotFound);
        };
        if cdp.asset_lent > 0 {
            return Err(Error::OutstandingDebt);
        }
        if cdp.xlm_deposited > 0 {
            proof {
                assert(self@.cdps.contains_key(lender));
                assert(self@.cdps[lender].wf());
            }
            let contract = self.contract;
            if !self.native.transfer(contract, lender, cdp.xlm_deposited) {
                return Err(Error::XLMTransferFailed);
            }
        }
        self.cdps.remove(lender);
        proof {
            assert(self@ =~= old(self)@.close_cdp_model(lender).0);
            let mid = StateView { cdps: old(self)@.cdps, ..self@ };
            lemma_wf_records_unchanged(old(self)@, mid);
            lemma_wf_remove_cdp(mid, self@, lender);
        }
        Ok(())
    }

    /// Pay `amount_in_xasset` of the accrued interest on the CDP of
    /// `lender` (everything accrued when zero), drawing the XLM leg from
    /// the lender or from the allowance granted to the contract.
    fn apply_interest_payment(
        &mut self,
        lender: u64,
        amount_in_xasset: i128,
        prices: &OraclePrices,
        now: u64,
        current_ledger: u32,
        by_allowance: bool,
    ) -> (r: Result<CDPContract, Error>)
        requires
            old(self)@.wf(),
            prices.wf(),
            amount_in_xasset >= 0,
        ensures
            final(self)@ == old(self)@.apply_interest_model(
                lender,
                amount_in_xasset,
                *prices,
                now,
                current_ledger,
                by_allowance,
            ).0,
            r == old(self)@.apply_interest_model(
                lender,
                amount_in_xasset,
                *prices,
                now,
                current_ledger,
                by_allowance,
            ).1,
            final(self)@.wf(),
    {
        let view = match self.cdp(lender, prices, now) {
            Ok(v) => v,
            Err(e) => {
                return Err(e);
            },
        };
        proof {
            assert(old(self)@.cdps.contains_key(lender));
            lemma_decorate_wf(
                old(self)@.cdps[lender],
                lender,
                old(self)@.store.min_collat_ratio,
                old(self)@.store.interest_rate,
                *prices,
                now,
            );
        }
        if amount_in_xasset != 0 && view.accrued_interest.amount < amount_in_xasset {
            return Err(Error::PaymentExceedsInterestDue);
        }
        let amount_to_pay = if amount_in_xasset == 0 {
            view.accrued_interest.amount
        } else {
            amount_in_xasset
        };
        if amount_to_pay == 0 {
            return Ok(view);
        }
        let amount_in_xlm = match checked_convert_to_xlm(
            amount_to_pay,
            prices.asset.price,
            prices.xlm.price,
            prices.xlm_decimals,
            prices.asset_decimals,
        ) {
            Some(v) => v,
            None => {
                return Err(Error::ArithmeticError);
            },
        };
        if self.native.balance(lender) < amount_in_xlm {
            return Err(Error::InsufficientXLMForInterest);
        }
        let contract = self.contract;
        let pay_ok = if by_allowance {
            self.native.allowance(lender, contract, current_ledger) >= amount_in_xlm
                && self.native.balance(lender) >= amount_in_xlm && self.native.balance(
                contract,
            ).checked_add(amount_in_xlm).is_some()
        } else {
            self.native.balance(lender) >= amount_in_xlm && self.native.balance(
                contract,
            ).checked_add(amount_in_xlm).is_some()
        };
        if !pay_ok {
            return Err(
                if by_allowance {
                    Error::InsufficientApprovedXLMForInterestRepayment
                } else {
                    Error::XLMTransferFailed
                },
            );
        }
        let Some(new_paid) = view.accrued_interest.paid.checked_add(amount_in_xlm) else {
            return Err(Error::ArithmeticError);
        };
        let settled = CDPInternal {
            xlm_deposited: view.xlm_deposited,
            asset_lent: view.asset_lent,
            status: view.status,
            last_interest_time: view.last_interest_time,
            accrued_interest: Interest {
                amount: view.accrued_interest.amount - amount_to_pay,
                paid: new_paid,
            },
        };
        let view2 = match decorate(
            &settled,
            lender,
            self.storage.min_collat_ratio,
            self.storage.interest_rate,
            prices,
            now,
        ) {
            Ok(v) => v,
            Err(e) => {
                return Err(e);
            },
        };
        let Some(collected) = self.storage.interest_collected.checked_add(amount_in_xlm) else {
            return Err(Error::ArithmeticError);
        };
        let epoch = self.storage.epoch;
        let current_record = match self.interest_records.get(epoch) {
            Some(v) => v,
            None => 0,
        };
        let Some(new_record) = current_record.checked_add(amount_in_xlm) else {
            return Err(Error::ArithmeticError);
        };
        let moved = if by_allowance {
            self.native.transfer_from(contract, lender, contract, amount_in_xlm, current_ledger)
        } else {
            self.native.transfer(lender, contract, amount_in_xlm)
        };
        proof {
            assert(moved);
        }
        let record2 = view2.internal();
        self.cdps.set(lender, record2);
        self.storage.interest_collected = collected;
        self.interest_records.set(epoch, new_record);
        proof {
            assert(self@ =~= old(self)@.apply_interest_model(
                lender,
                amount_in_xasset,
                *prices,
                now,
                current_ledger,
                by_allowance,
            ).0);
            lemma_decorate_wf(
                settled,
                lender,
                old(self)@.store.min_collat_ratio,
                old(self)@.store.interest_rate,
                *prices,
                now,
            );
            lemma_wf_insert_cdp(old(self)@, self@, lender, record2);
        }
        Ok(view2)
    }

    /// Pay accrued interest (not principal) on the CDP of `lender`, in XLM
    /// drawn from the lender's reserve balance; a zero amount settles all
    /// interest currently accrued. The caller authenticates `lender`.
    pub fn pay_interest(
        &mut self,
        lender: u64,
        amount_in_xasset: i128,
        prices: &OraclePrices,
        now: u64,
        current_ledger: u32,
    ) -> (r: Result<CDPContract, Error>)
        requires
            old(self)@.wf(),
            prices.wf(),
        ensures
            final(self)@ == old(self)@.pay_interest_model(
                lender,
                amount_in_xasset,
                *prices,
                now,
                current_ledger,
            ).0,
            r == old(self)@.pay_interest_model(lender, amount_in_xasset, *prices, now, current_ledger).1,
            final(self)@.wf(),
    {
        if amount_in_xasset < 0 {
            return Err(Error::ValueNotPositive);
        }
        self.apply_interest_payment(lender, amount_in_xasset, prices, now, current_ledger, false)
    }

    /// Repay `amount` of principal on the CDP of `lender`, after settling
    /// all accrued interest from the lender's pre-approved reserve
    /// allowance; the CDP closes once debt and collateral are both zero.
    /// The caller authenticates `lender`.
    pub fn repay_debt(
        &mut self,
        lender: u64,
        amount: i128,
        prices: &OraclePrices,
        now: u64,
        current_ledger: u32,
    ) -> (r: Result<(), Error>)
        requires
            old(self)@.wf(),
            prices.wf(),
        ensures
            final(self)@ == old(self)@.repay_debt_model(lender, amount, *prices, now, current_ledger).0,
            r == old(self)@.repay_debt_model(lender, amount, *prices, now, current_ledger).1,
            final(self)@.wf(),
    {
        if amount <= 0 {
            return Err(Error::ValueNotPositive);
        }
        let Some(cdp) = self.cdps.get(lender) else {
            return Err(Error::CDPNotFound);
        };
        if matches!(cdp.status, CDPStatus::Closed) || matches!(cdp.status, CDPStatus::Frozen) {
            return Err(Error::CDPNotOpenOrInsolventForRepay);
        }
        if cdp.asset_lent < amount {
            return Err(Error::RepaymentExceedsDebt);
        }
        if self.balance(lender) < amount {
            return Err(Error::InsufficientBalance);
        }
        proof {
            assert(self@.cdps.contains_key(lender));
            assert(self@.cdps[lender].wf());
            lemma_decorate_wf(
                cdp,
                lender,
                self@.store.min_collat_ratio,
                self@.store.interest_rate,
                *prices,
                now,
            );
        }
        let view = match decorate(
            &cdp,
            lender,
            self.storage.min_collat_ratio,
            self.storage.interest_rate,
            prices,
            now,
        ) {
            Ok(v) => v,
            Err(e) => {
                return Err(e);
            },
        };
        let amount_to_pay = view.accrued_interest.amount;
        if amount_to_pay == 0 {
            let lowered = CDPInternal { asset_lent: cdp.asset_lent - amount, ..cdp };
            let v2 = match decorate(
                &lowered,
                lender,
                self.storage.min_collat_ratio,
                self.storage.interest_rate,
                prices,
                now,
            ) {
                Ok(v) => v,
                Err(e) => {
                    return Err(e);
                },
            };
            let lender_balance = self.balance(lender);
            self.balances.set(lender, lender_balance - amount);
            if v2.asset_lent == 0 && v2.xlm_deposited == 0 {
                self.cdps.remove(lender);
            } else {
                let record = v2.internal();
                self.cdps.set(lender, record);
            }
            proof {
                assert(self@ =~= old(self)@.repay_debt_model(
                    lender,
                    amount,
                    *prices,
                    now,
                    current_ledger,
                ).0);
                lemma_decorate_wf(
                    lowered,
                    lender,
                    old(self)@.store.min_collat_ratio,
                    old(self)@.store.interest_rate,
                    *prices,
                    now,
                );
                let mid = StateView { balances: self@.balances, ..old(self)@ };
                lemma_wf_records_unchanged(old(self)@, mid);
                if v2.asset_lent == 0 && v2.xlm_deposited == 0 {
                    lemma_wf_remove_cdp(mid, self@, lender);
                } else {
                    lemma_wf_insert_cdp(mid, self@, lender, v2.internal_spec());
                }
            }
            return Ok(());
        }
        let amount_in_xlm = match checked_convert_to_xlm(
            amount_to_pay,
            prices.asset.price,
            prices.xlm.price,
            prices.xlm_decimals,
            prices.asset_decimals,
        ) {
            Some(v) => v,
            None => {
                return Err(Error::ArithmeticError);
            },
        };
        if self.native.balance(lender) < amount_in_xlm {
            return Err(Error::InsufficientXLMForInterest);
        }
        let contract = self.contract;
        let pay_ok = self.native.allowance(lender, contract, current_ledger) >= amount_in_xlm
            && self.native.balance(lender) >= amount_in_xlm && self.native.balance(
            contract,
        ).checked_add(amount_in_xlm).is_some();
        if !pay_ok {
            return Err(Error::InsufficientApprovedXLMForInterestRepayment);
        }
        let Some(new_paid) = view.accrued_interest.paid.checked_add(amount_in_xlm) else {
            return Err(Error::ArithmeticError);
        };
        let settled = CDPInternal {
            xlm_deposited: view.xlm_deposited,
            asset_lent: view.asset_lent,
            status: view.status,
            last_interest_time: view.last_interest_time,
            accrued_interest: Interest { amount: 0, paid: new_paid },
        };
        let view2 = match decorate(
            &settled,
            lender,
            self.storage.min_collat_ratio,
            self.storage.interest_rate,
            prices,
            now,
        ) {
            Ok(v) => v,
            Err(e) => {
                return Err(e);
            },
        };
        let Some(collected) = self.storage.interest_collected.checked_add(amount_in_xlm) else {
            return Err(Error::ArithmeticError);
        };
        let epoch = self.storage.epoch;
        let current_record = match self.interest_records.get(epoch) {
            Some(v) => v,
            None => 0,
        };
        let Some(new_record) = current_record.checked_add(amount_in_xlm) else {
            return Err(Error::ArithmeticError);
        };
        let record2 = view2.internal();
        let lowered = CDPInternal { asset_lent: record2.asset_lent - amount, ..record2 };
        proof {
            lemma_decorate_wf(
                settled,
                lender,
                self@.store.min_collat_ratio,
                self@.store.interest_rate,
                *prices,
                now,
            );
        }
        let v2 = match decorate(
            &lowered,
            lender,
            self.storage.min_collat_ratio,
            self.storage.interest_rate,
            prices,
            now,
        ) {
            Ok(v) => v,
            Err(e) => {
                return Err(e);
            },
        };
        let moved = self.native.transfer_from(contract, lender, contract, amount_in_xlm, current_ledger);
        proof {
            assert(moved);
        }
        self.cdps.set(lender, record2);
        self.storage.interest_collected = collected;
        self.interest_records.set(epoch, new_record);
        let lender_balance = self.balance(lender);
        self.balances.set(lender, lender_balance - amount);
        if v2.asset_lent == 0 && v2.xlm_deposited == 0 {
            self.cdps.remove(lender);
        } else {
            let record3 = v2.internal();
            self.cdps.set(lender, record3);
        }
        proof {
            assert(self@ =~= old(self)@.repay_debt_model(
                lender,
                amount,
                *prices,
                now,
                current_ledger,
            ).0);
            lemma_decorate_wf(
                lowered,
                lender,
                old(self)@.store.min_collat_ratio,
                old(self)@.store.interest_rate,
                *prices,
                now,
            );
            let mid = StateView {
                balances: self@.balances,
                native: self@.native,
                store: self@.store,
                interest_records: self@.interest_records,
                ..old(self)@
            };
            lemma_wf_records_unchanged(old(self)@, mid);
            if v2.asset_lent == 0 && v2.xlm_deposited == 0 {
                assert(self@.cdps =~= mid.cdps.remove(lender));
                lemma_wf_remove_cdp(mid, self@, lender);
            } else {
                assert(self@.cdps =~= mid.cdps.insert(lender, v2.internal_spec()));
                lemma_wf_insert_cdp(mid, self@, lender, v2.internal_spec());
            }
        }
        Ok(())
    }

    /// Liquidate the frozen CDP of `lender` against the stability pool.
    pub fn liquidate_cdp(&mut self, lender: u64, prices: &OraclePrices) -> (r: Result<
        (i128, i128, CDPStatus),
        Error,
    >)
        requires
            old(self)@.wf(),
            prices.wf(),
        ensures
            final(self)@ == old(self)@.liquidate_model(lender, *prices).0,
            r == old(self)@.liquidate_model(lender, *prices).1,
            final(self)@.wf(),
    {
        self.liquidate(lender, prices)
    }

    /// Merge two or more frozen CDPs into one stored under the first
    /// listed lender, removing the others.
    pub fn merge_cdps(&mut self, lenders: &Vec<u64>, now: u64) -> (r: Result<(), Error>)
        requires
            old(self)@.wf(),
        ensures
            final(self)@ == old(self)@.merge_cdps_model(lenders@, now).0,
            r == old(self)@.merge_cdps_model(lenders@, now).1,
            final(self)@.wf(),
    {
        let n = lenders.len();
        if n < 2 {
            return Err(Error::InvalidMerge);
        }
        let mut total_xlm: i128 = 0;
        let mut total_asset: i128 = 0;
        let mut total_interest_amount: i128 = 0;
        let mut total_interest_paid: i128 = 0;
        let mut i: usize = 0;
        proof {
            assert(lenders@.take(0) =~= Seq::<u64>::empty());
        }
        while i < n
            invariant
                self == old(self),
                old(self)@.wf(),
                n == lenders.len(),
                2 <= n,
                i <= n,
                total_xlm >= 0,
                total_asset >= 0,
                total_interest_amount >= 0,
                total_interest_paid >= 0,
                merge_totals(self@.cdps, lenders@.take(i as int)) == Ok::<(int, int, int, int), Error>(
                    (
                        total_xlm as int,
                        total_asset as int,
                        total_interest_amount as int,
                        total_interest_paid as int,
                    ),
                ),
            decreases n - i,
        {
            let l = lenders[i];
            let ghost prefix = lenders@.take(i as int);
            let ghost extended = lenders@.take(i as int + 1);
            proof {
                assert(extended.drop_last() =~= prefix);
                assert(extended.last() == lenders@[i as int]);
            }
            let Some(c) = self.cdps.get(l) else {
                proof {
                    assert(merge_totals(self@.cdps, extended) == Err::<
                        (int, int, int, int),
                        Error,
                    >(Error::CDPNotFound));
                    lemma_merge_totals_err_persists(
                        self@.cdps,
                        lenders@,
                        i as int + 1,
                        n as int,
                    );
                    assert(lenders@.take(n as int) =~= lenders@);
                }
                return Err(Error::CDPNotFound);
            };
            if !matches!(c.status, CDPStatus::Frozen) {
                proof {
                    assert(merge_totals(self@.cdps, extended) == Err::<
                        (int, int, int, int),
                        Error,
                    >(Error::InvalidMerge));
                    lemma_merge_totals_err_persists(
                        self@.cdps,
                        lenders@,
                        i as int + 1,
                        n as int,
                    );
                    assert(lenders@.take(n as int) =~= lenders@);
                }
                return Err(Error::InvalidMerge);
            }
            proof {
                assert(self@.cdps.contains_key(l));
                assert(self@.cdps[l].wf());
            }
            let Some(new_xlm) = total_xlm.checked_add(c.xlm_deposited) else {
                proof {
                    assert(merge_totals(self@.cdps, extended) == Err::<
                        (int, int, int, int),
                        Error,
                    >(Error::ArithmeticError));
                    lemma_merge_totals_err_persists(
                        self@.cdps,
                        lenders@,
                        i as int + 1,
                        n as int,
                    );
                    assert(lenders@.take(n as int) =~= lenders@);
                }
                return Err(Error::ArithmeticError);
            };
            let Some(new_asset) = total_asset.checked_add(c.asset_lent) else {
                proof {
                    assert(merge_totals(self@.cdps, extended) == Err::<
                        (int, int, int, int),
                        Error,
                    >(Error::ArithmeticError));
                    lemma_merge_totals_err_persists(
                        self@.cdps,
                        lenders@,
                        i as int + 1,
                        n as int,
                    );
                    assert(lenders@.take(n as int) =~= lenders@);
                }
                return Err(Error::ArithmeticError);
            };
            let Some(new_amount) = total_interest_amount.checked_add(c.accrued_interest.amount) else {
                proof {
                    assert(merge_totals(self@.cdps, extended) == Err::<
                        (int, int, int, int),
                        Error,
                    >(Error::ArithmeticError));
                    lemma_merge_totals_err_persists(
                        self@.cdps,
                        lenders@,
                        i as int + 1,
                        n as int,
                    );
                    assert(lenders@.take(n as int) =~= lenders@);
                }
                return Err(Error::ArithmeticError);
            };
            let Some(new_paid) = total_interest_paid.checked_add(c.accrued_interest.paid) else {
                proof {
                    assert(merge_totals(self@.cdps, extended) == Err::<
                        (int, int, int, int),
                        Error,
                    >(Error::ArithmeticError));
                    lemma_merge_totals_err_persists(
                        self@.cdps,
                        lenders@,
                        i as int + 1,
                        n as int,
                    );
                    assert(lenders@.take(n as int) =~= lenders@);
                }
                return Err(Error::ArithmeticError);
            };
            total_xlm = new_xlm;
            total_asset = new_asset;
            total_interest_amount = new_amount;
            total_interest_paid = new_paid;
            i = i + 1;
        }
        proof {
            assert(lenders@.take(n as int) =~= lenders@);
        }
        let merged = CDPInternal {
            xlm_deposited: total_xlm,
            asset_lent: total_asset,
            status: CDPStatus::Frozen,
            accrued_interest: Interest {
                amount: total_interest_amount,
                paid: total_interest_paid,
            },
            last_interest_time: now,
        };
        let first = lenders[0];
        self.cdps.set(first, merged);
        proof {
            assert(lenders@.drop_first().subrange(0, 0) =~= Seq::<u64>::empty());
        }
        let mut j: usize = 1;
        while j < n
            invariant
                n == lenders.len(),
                2 <= n,
                1 <= j <= n,
                merged == (CDPInternal {
                    xlm_deposited: total_xlm,
                    asset_lent: total_asset,
                    status: CDPStatus::Frozen,
                    accrued_interest: Interest {
                        amount: total_interest_amount,
                        paid: total_interest_paid,
                    },
                    last_interest_time: now,
                }),
                first == lenders@[0],
                self@ == (StateView {
                    cdps: remove_all(
                        old(self)@.cdps.insert(first, merged),
                        lenders@.drop_first().subrange(0, j as int - 1),
                    ),
                    ..old(self)@
                }),
            decreases n - j,
        {
            self.cdps.remove(lenders[j]);
            proof {
                let tail = lenders@.drop_first();
                assert(tail.subrange(0, j as int) =~= tail.subrange(0, j as int - 1).push(
                    tail[j as int - 1],
                ));
                assert(tail[j as int - 1] == lenders@[j as int]);
                lemma_remove_all_push(
                    old(self)@.cdps.insert(first, merged),
                    tail.subrange(0, j as int - 1),
                    lenders@[j as int],
                );
                assert(self@ =~= (StateView {
                    cdps: remove_all(
                        old(self)@.cdps.insert(first, merged),
                        tail.subrange(0, j as int),
                    ),
                    ..old(self)@
                }));
            }
            j = j + 1;
        }
        proof {
            assert(lenders@.drop_first().subrange(0, n as int - 1) =~= lenders@.drop_first());
            assert(self@ =~= old(self)@.merge_cdps_model(lenders@, now).0);
            let inserted = old(self)@.cdps.insert(first, merged);
            assert forall|l: u64| #[trigger] self@.cdps.contains_key(l) implies self@.cdps[l].wf() by {
                lemma_remove_all_submap(inserted, lenders@.drop_first(), l);
                if l != first {
                    assert(old(self)@.cdps.contains_key(l));
                }
            }
            assert forall|s: u64| #[trigger]
                self@.positions.contains_key(s) implies self@.position_wf(self@.positions[s]) by {
                assert(old(self)@.position_wf(old(self)@.positions[s]));
            }
        }
        Ok(())
    }

    /// The accrued interest on the CDP of `lender`, with its XLM value and
    /// the approval amount for a repayment within the next five minutes.
    pub fn get_accrued_interest(&self, lender: u64, prices: &OraclePrices, now: u64) -> (r: Result<
        InterestDetail,
        Error,
    >)
        requires
            self@.wf(),
            prices.wf(),
            now + 300 <= u64::MAX,
        ensures
            r == self@.accrued_interest_model(lender, *prices, now),
    {
        let Some(cdp) = self.cdps.get(lender) else {
            return Err(Error::CDPNotFound);
        };
        proof {
            assert(self@.cdps.contains_key(lender));
            assert(self@.cdps[lender].wf());
        }
        let (interest, last_interest_time) = match get_updated_accrued_interest(
            &cdp,
            self.storage.interest_rate,
            now,
        ) {
            Ok(v) => v,
            Err(e) => {
                return Err(e);
            },
        };
        let projected = match crate::interest::get_projected_interest(
            &cdp,
            self.storage.interest_rate,
            cdp.last_interest_time,
            now + 300,
        ) {
            Ok(v) => v,
            Err(e) => {
                return Err(e);
            },
        };
        proof {
            lemma_projected_interest_nonneg(cdp, self.storage.interest_rate, cdp.last_interest_time, now);
            lemma_projected_interest_nonneg(
                cdp,
                self.storage.interest_rate,
                cdp.last_interest_time,
                (now + 300) as u64,
            );
        }
        let approval_amount = match checked_convert_to_xlm(
            projected.amount,
            prices.asset.price,
            prices.xlm.price,
            prices.xlm_decimals,
            prices.asset_decimals,
        ) {
            Some(v) => v,
            None => {
                return Err(Error::ArithmeticError);
            },
        };
        let amount_in_xlm = match checked_convert_to_xlm(
            interest.amount,
            prices.asset.price,
            prices.xlm.price,
            prices.xlm_decimals,
            prices.asset_decimals,
        ) {
            Some(v) => v,
            None => {
                return Err(Error::ArithmeticError);
            },
        };
        Ok(
            InterestDetail {
                amount: interest.amount,
                paid: interest.paid,
                amount_in_xlm,
                approval_amount,
                last_interest_time,
            },
        )
    }
}

} // verus!
