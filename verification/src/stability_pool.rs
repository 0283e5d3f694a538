//! The stability pool: staker positions recorded against the pool's
//! product/compound constants, and the liquidation absorption that consumes
//! staked xAsset to burn frozen debt while distributing collateral rewards.

use vstd::prelude::*;

use crate::collateralized::CDPStatus;
use crate::error::Error;
use crate::math::{
    bankers_round, bankers_round_spec, checked_convert_to_xlm, convert_to_xlm_spec,
    lemma_bankers_round_monotone, lemma_bankers_round_multiple, lemma_convert_zero,
    lemma_mul_still_overflows,
};
use crate::native::{balance_of, native_transfer_ok, native_transfer_spec};
use crate::oracle::OraclePrices;
use crate::storage::{CDPInternal, Interest};
use crate::token::{record_of, StateView, TokenContract, TokenStorage};
use crate::{DEFAULT_PRECISION, PRODUCT_CONSTANT};

verus! {

/// The smaller of two integers.
pub open spec fn min_int(a: int, b: int) -> int {
    if a <= b {
        a
    } else {
        b
    }
}

/// A staker's claim, recorded against the pool constants at the time of the
/// last interaction.
#[derive(Clone, Copy, Debug, PartialEq, Eq, Structural)]
pub struct StakerPosition {
    /// Nominal xAsset deposited at the recorded constants.
    pub xasset_deposit: i128,
    /// Product constant at the time of recording.
    pub product_constant: i128,
    /// Compounded constant at the time of recording.
    pub compounded_constant: i128,
    /// Epoch the position belongs to.
    pub epoch: u64,
}

impl Default for StakerPosition {
    /// An empty position anchored at the initial constants.
    fn default() -> (r: Self)
        ensures
            r.xasset_deposit == 0,
            r.product_constant == PRODUCT_CONSTANT,
            r.compounded_constant == 0,
            r.epoch == 0,
    {
        StakerPosition {
            xasset_deposit: 0,
            product_constant: PRODUCT_CONSTANT,
            compounded_constant: 0,
            epoch: 0,
        }
    }
}

/// What a staker can take out of the pool right now.
#[derive(Clone, Copy, Debug, PartialEq, Eq, Structural)]
pub struct AvailableAssets {
    /// Effective xAsset still claimable.
    pub available_xasset: i128,
    /// Unclaimed XLM rewards.
    pub available_rewards: i128,
}

impl StateView {
    /// A staker's current effective deposit: the nominal deposit scaled by
    /// the product constant's movement since it was recorded, zero once the
    /// position's epoch has ended.
    pub open spec fn current_deposit_calc(self, p: StakerPosition) -> Result<int, Error> {
        if p.epoch == self.store.epoch {
            let num = DEFAULT_PRECISION * p.xasset_deposit * self.store.product_constant;
            if num > i128::MAX {
                Err(Error::ArithmeticError)
            } else {
                Ok(
                    bankers_round_spec(num / (p.product_constant as int), DEFAULT_PRECISION as int),
                )
            }
        } else {
            Ok(0)
        }
    }

    /// A staker's unclaimed XLM reward: the nominal deposit times the
    /// compounded constant's growth since it was recorded, against the
    /// frozen end-of-epoch figure once the position's epoch has ended.
    pub open spec fn rewards_calc(self, p: StakerPosition) -> Result<int, Error> {
        let s_ref = if p.epoch == self.store.epoch {
            self.store.compounded_constant as int
        } else {
            record_of(self.compound_records, p.epoch)
        };
        let head = DEFAULT_PRECISION * p.xasset_deposit;
        if head > i128::MAX {
            Err(Error::ArithmeticError)
        } else if head * (s_ref - p.compounded_constant) > i128::MAX {
            Err(Error::ArithmeticError)
        } else {
            Ok(
                bankers_round_spec(
                    (head * (s_ref - p.compounded_constant)) / (p.product_constant as int),
                    DEFAULT_PRECISION as int,
                ),
            )
        }
    }

    /// The same state with other staker positions.
    pub open spec fn with_positions(self, m: Map<u64, StakerPosition>) -> StateView {
        StateView { positions: m, ..self }
    }

    /// Roll the pool into a new epoch: freeze the compounded constant into
    /// the epoch's record and reset the constants.
    pub open spec fn increment_epoch_model(self) -> (StateView, Result<(), Error>) {
        if self.store.epoch + 1 > u64::MAX {
            (self, Err(Error::ArithmeticError))
        } else {
            (
                StateView {
                    compound_records: self.compound_records.insert(
                        self.store.epoch,
                        self.store.compounded_constant,
                    ),
                    store: TokenStorage {
                        epoch: (self.store.epoch + 1) as u64,
                        product_constant: PRODUCT_CONSTANT,
                        compounded_constant: 0,
                        ..self.store
                    },
                    ..self
                },
                Ok(()),
            )
        }
    }

    /// Scale the pool constants for an absorption that debits
    /// `xasset_debited` staked xAsset and earns `xlm_earned` XLM, rolling
    /// the epoch when the pool is drained. A drained product constant with
    /// liquidity remaining is refused as arithmetic exhaustion.
    pub open spec fn update_constants_model(self, xasset_debited: int, xlm_earned: int) -> (
        StateView,
        Result<(), Error>,
    ) {
        let t = self.store.total_xasset as int;
        let p = self.store.product_constant as int;
        if t == 0 {
            self.increment_epoch_model()
        } else if p * (t - xasset_debited) > i128::MAX {
            (self, Err(Error::ArithmeticError))
        } else if xlm_earned * p > i128::MAX {
            (self, Err(Error::ArithmeticError))
        } else {
            let new_p = (p * (t - xasset_debited)) / t;
            let new_s = self.store.compounded_constant + (xlm_earned * p) / t;
            if new_s > i128::MAX {
                (self, Err(Error::ArithmeticError))
            } else if new_p == 0 && xasset_debited < t {
                (self, Err(Error::ArithmeticError))
            } else {
                let updated = StateView {
                    store: TokenStorage {
                        product_constant: new_p as i128,
                        compounded_constant: new_s as i128,
                        ..self.store
                    },
                    ..self
                };
                if t == xasset_debited {
                    let (rolled, r) = updated.increment_epoch_model();
                    if r is Err {
                        (self, r)
                    } else {
                        (rolled, Ok(()))
                    }
                } else {
                    (updated, Ok(()))
                }
            }
        }
    }

    /// Outcome of `stake`: a first deposit recorded at the current
    /// constants, after the stake fee is collected.
    pub open spec fn stake_model(self, from: u64, amount: i128) -> (StateView, Result<(), Error>) {
        if amount <= 0 {
            (self, Err(Error::ValueNotPositive))
        } else if self.positions.contains_key(from) {
            (self, Err(Error::StakeAlreadyExists))
        } else if balance_of(self.balances, from) < amount {
            (self, Err(Error::InsufficientBalance))
        } else if !native_transfer_ok(self.native, from, self.contract, self.store.stake_fee as int) {
            (self, Err(Error::XLMTransferFailed))
        } else if self.store.fees_collected + self.store.stake_fee > i128::MAX {
            (self, Err(Error::ArithmeticError))
        } else {
            let s1 = StateView {
                native: native_transfer_spec(
                    self.native,
                    from,
                    self.contract,
                    self.store.stake_fee as int,
                ),
                store: TokenStorage {
                    fees_collected: (self.store.fees_collected + self.store.stake_fee) as i128,
                    ..self.store
                },
                ..self
            };
            let position = StakerPosition {
                xasset_deposit: amount,
                product_constant: self.store.product_constant,
                compounded_constant: self.store.compounded_constant,
                epoch: self.store.epoch,
            };
            let (s2, res) = s1.xfer_model(from, self.contract, amount as int);
            if res is Err {
                (self, res)
            } else if self.store.total_xasset + amount > i128::MAX {
                (self, Err(Error::ArithmeticError))
            } else {
                (
                    StateView {
                        positions: s2.positions.insert(from, position),
                        store: TokenStorage {
                            total_xasset: (self.store.total_xasset + amount) as i128,
                            ..s2.store
                        },
                        ..s2
                    },
                    Ok(()),
                )
            }
        }
    }

    /// Outcome of `deposit`: add to an existing position with no pending
    /// rewards, re-anchoring it at the current constants.
    pub open spec fn deposit_model(self, from: u64, amount: i128) -> (StateView, Result<(), Error>) {
        if amount <= 0 {
            (self, Err(Error::ValueNotPositive))
        } else if balance_of(self.balances, from) < amount {
            (self, Err(Error::InsufficientBalance))
        } else if !self.positions.contains_key(from) {
            (self, Err(Error::StakeDoesntExist))
        } else {
            let position = self.positions[from];
            match self.current_deposit_calc(position) {
                Err(e) => (self, Err(e)),
                Ok(current) => {
                    match self.rewards_calc(position) {
                        Err(e) => (self, Err(e)),
                        Ok(reward) => {
                            if reward > 0 {
                                (self, Err(Error::ClaimRewardsFirst))
                            } else if !native_transfer_ok(
                                self.native,
                                from,
                                self.contract,
                                self.store.deposit_fee as int,
                            ) {
                                (self, Err(Error::XLMTransferFailed))
                            } else if self.store.fees_collected + self.store.deposit_fee
                                > i128::MAX {
                                (self, Err(Error::ArithmeticError))
                            } else if current + amount > i128::MAX {
                                (self, Err(Error::ArithmeticError))
                            } else {
                                let s1 = StateView {
                                    native: native_transfer_spec(
                                        self.native,
                                        from,
                                        self.contract,
                                        self.store.deposit_fee as int,
                                    ),
                                    store: TokenStorage {
                                        fees_collected: (self.store.fees_collected
                                            + self.store.deposit_fee) as i128,
                                        ..self.store
                                    },
                                    ..self
                                };
                                let (s2, res) = s1.xfer_model(from, self.contract, amount as int);
                                if res is Err {
                                    (self, res)
                                } else if self.store.total_xasset + amount > i128::MAX {
                                    (self, Err(Error::ArithmeticError))
                                } else {
                                    let renewed = StakerPosition {
                                        xasset_deposit: (current + amount) as i128,
                                        product_constant: self.store.product_constant,
                                        compounded_constant: self.store.compounded_constant,
                                        epoch: self.store.epoch,
                                    };
                                    (
                                        StateView {
                                            positions: s2.positions.insert(from, renewed),
                                            store: TokenStorage {
                                                total_xasset: (self.store.total_xasset
                                                    + amount) as i128,
                                                ..s2.store
                                            },
                                            ..s2
                                        },
                                        Ok(()),
                                    )
                                }
                            }
                        },
                    }
                },
            }
        }
    }

    /// Outcome of a withdrawal of `amount` (or everything, when `full`):
    /// pending rewards must be claimed first, the pool pays the unstake
    /// return when the position empties, and the pool total may not be
    /// driven below zero.
    pub open spec fn withdraw_internal_model(self, to: u64, amount: i128, full: bool) -> (
        StateView,
        Result<(), Error>,
    ) {
        if !self.positions.contains_key(to) {
            (self, Err(Error::StakeDoesntExist))
        } else {
            let position = self.positions[to];
            match self.rewards_calc(position) {
                Err(e) => (self, Err(e)),
                Ok(reward) => {
                    if reward > 0 {
                        (self, Err(Error::ClaimRewardsFirst))
                    } else {
                        match self.current_deposit_calc(position) {
                            Err(e) => (self, Err(e)),
                            Ok(owed) => {
                                let w = if full {
                                    owed
                                } else {
                                    amount as int
                                };
                                if owed < w {
                                    (self, Err(Error::InsufficientStake))
                                } else if self.store.total_xasset - w < 0 {
                                    (self, Err(Error::ArithmeticError))
                                } else if owed == w {
                                    if !native_transfer_ok(
                                        self.native,
                                        self.contract,
                                        to,
                                        self.store.unstake_return as int,
                                    ) {
                                        (self, Err(Error::XLMTransferFailed))
                                    } else if self.store.fees_collected
                                        - self.store.unstake_return < i128::MIN {
                                        (self, Err(Error::ArithmeticError))
                                    } else {
                                        let s1 = StateView {
                                            native: native_transfer_spec(
                                                self.native,
                                                self.contract,
                                                to,
                                                self.store.unstake_return as int,
                                            ),
                                            store: TokenStorage {
                                                fees_collected: (self.store.fees_collected
                                                    - self.store.unstake_return) as i128,
                                                ..self.store
                                            },
                                            ..self
                                        };
                                        let (s2, res) = s1.xfer_model(self.contract, to, w);
                                        if res is Err {
                                            (self, res)
                                        } else {
                                            (
                                                StateView {
                                                    positions: s2.positions.remove(to),
                                                    store: TokenStorage {
                                                        total_xasset: (self.store.total_xasset
                                                            - w) as i128,
                                                        ..s2.store
                                                    },
                                                    ..s2
                                                },
                                                Ok(()),
                                            )
                                        }
                                    }
                                } else {
                                    let (s2, res) = self.xfer_model(self.contract, to, w);
                                    if res is Err {
                                        (self, res)
                                    } else {
                                        let renewed = StakerPosition {
                                            xasset_deposit: (owed - w) as i128,
                                            product_constant: self.store.product_constant,
                                            compounded_constant: self.store.compounded_constant,
                                            ..position
                                        };
                                        (
                                            StateView {
                                                positions: s2.positions.insert(to, renewed),
                                                store: TokenStorage {
                                                    total_xasset: (self.store.total_xasset
                                                        - w) as i128,
                                                    ..s2.store
                                                },
                                                ..s2
                                            },
                                            Ok(()),
                                        )
                                    }
                                }
                            },
                        }
                    }
                },
            }
        }
    }

    /// Outcome of `withdraw`.
    pub open spec fn withdraw_model(self, to: u64, amount: i128) -> (StateView, Result<(), Error>) {
        if amount <= 0 {
            (self, Err(Error::ValueNotPositive))
        } else {
            self.withdraw_internal_model(to, amount, false)
        }
    }

    /// Outcome of `unstake`.
    pub open spec fn unstake_model(self, staker: u64) -> (StateView, Result<(), Error>) {
        self.withdraw_internal_model(staker, 0, true)
    }

    /// Outcome of `claim_rewards`: the computed XLM reward is paid out and
    /// the position is re-anchored at the current constants.
    pub open spec fn claim_rewards_model(self, to: u64) -> (StateView, Result<i128, Error>) {
        if !self.positions.contains_key(to) {
            (self, Err(Error::StakeDoesntExist))
        } else {
            let position = self.positions[to];
            match self.rewards_calc(position) {
                Err(e) => (self, Err(e)),
                Ok(reward) => {
                    if !native_transfer_ok(self.native, self.contract, to, reward) {
                        (self, Err(Error::XLMTransferFailed))
                    } else if self.store.total_collateral - reward < i128::MIN {
                        (self, Err(Error::ArithmeticError))
                    } else {
                        match self.current_deposit_calc(position) {
                            Err(e) => (self, Err(e)),
                            Ok(current) => {
                                let renewed = StakerPosition {
                                    xasset_deposit: current as i128,
                                    product_constant: self.store.product_constant,
                                    compounded_constant: self.store.compounded_constant,
                                    epoch: self.store.epoch,
                                };
                                (
                                    StateView {
                                        native: native_transfer_spec(
                                            self.native,
                                            self.contract,
                                            to,
                                            reward,
                                        ),
                                        positions: self.positions.insert(to, renewed),
                                        store: TokenStorage {
                                            total_collateral: (self.store.total_collateral
                                                - reward) as i128,
                                            ..self.store
                                        },
                                        ..self
                                    },
                                    Ok(reward as i128),
                                )
                            },
                        }
                    }
                },
            }
        }
    }

    /// The principal leg of a liquidation, once interest is fully settled:
    /// burn what the pool can absorb of the debt and release collateral in
    /// proportion. `orig` is the state every failure reverts to.
    pub open spec fn liquidate_principal_model(
        self,
        orig: StateView,
        lender: u64,
        cdp1: CDPInternal,
    ) -> (StateView, Result<(i128, i128, CDPStatus), Error>) {
        let t1 = self.store.total_xasset as int;
        let debt = min_int(cdp1.asset_lent as int, t1);
        let head = DEFAULT_PRECISION * cdp1.xlm_deposited;
        if head > i128::MAX {
            (orig, Err(Error::ArithmeticError))
        } else if head * debt > i128::MAX {
            (orig, Err(Error::ArithmeticError))
        } else {
            let released = bankers_round_spec(
                (head * debt) / (cdp1.asset_lent as int),
                DEFAULT_PRECISION as int,
            );
            let (s2, r) = self.update_constants_model(debt, released);
            if r is Err {
                (orig, Err(Error::ArithmeticError))
            } else {
                let s3 = StateView {
                    store: TokenStorage { total_xasset: (t1 - debt) as i128, ..s2.store },
                    ..s2
                };
                if s3.store.total_collateral + released > i128::MAX {
                    (orig, Err(Error::ArithmeticError))
                } else {
                    let s4 = StateView {
                        store: TokenStorage {
                            total_collateral: (s3.store.total_collateral + released) as i128,
                            ..s3.store
                        },
                        ..s3
                    };
                    let (s5, rb) = s4.burn_debit_model(self.contract, debt);
                    if rb is Err {
                        (orig, Err(Error::ArithmeticError))
                    } else {
                        let cdp2 = CDPInternal {
                            xlm_deposited: (cdp1.xlm_deposited - released) as i128,
                            asset_lent: (cdp1.asset_lent - debt) as i128,
                            ..cdp1
                        };
                        if cdp2.asset_lent == 0 {
                            (
                                s5.with_cdps(s5.cdps.remove(lender)),
                                Ok((debt as i128, released as i128, CDPStatus::Closed)),
                            )
                        } else {
                            (
                                s5.with_cdps(s5.cdps.insert(lender, cdp2)),
                                Ok((debt as i128, released as i128, CDPStatus::Frozen)),
                            )
                        }
                    }
                }
            }
        }
    }

    /// Outcome of `liquidate`: settle what the pool can of the frozen CDP's
    /// interest first, burning staked xAsset through the constants; only
    /// when no interest remains is principal absorbed. The call reports how
    /// much debt was cleared, how much collateral was released, and the
    /// CDP's resulting status.
    pub open spec fn liquidate_model(self, lender: u64, prices: OraclePrices) -> (
        StateView,
        Result<(i128, i128, CDPStatus), Error>,
    ) {
        if !self.cdps.contains_key(lender) {
            (self, Err(Error::CDPNotFound))
        } else {
            let cdp = self.cdps[lender];
            if cdp.status != CDPStatus::Frozen {
                (self, Err(Error::InvalidLiquidation))
            } else if cdp.asset_lent <= 0 || cdp.xlm_deposited <= 0 {
                (self, Err(Error::InvalidLiquidation))
            } else {
                let t0 = self.store.total_xasset as int;
                let i_xa = min_int(cdp.accrued_interest.amount as int, t0);
                if !crate::math::convert_fits(
                    i_xa,
                    prices.asset.price as int,
                    prices.xlm_decimals as nat,
                    prices.asset_decimals as nat,
                ) {
                    (self, Err(Error::ArithmeticError))
                } else {
                    let i_xlm = convert_to_xlm_spec(
                        i_xa,
                        prices.asset.price as int,
                        prices.xlm.price as int,
                        prices.xlm_decimals as nat,
                        prices.asset_decimals as nat,
                    );
                    if i_xlm > 0 {
                        if cdp.accrued_interest.paid + i_xlm > i128::MAX {
                            (self, Err(Error::ArithmeticError))
                        } else if self.store.interest_collected + i_xlm > i128::MAX {
                            (self, Err(Error::ArithmeticError))
                        } else if record_of(self.interest_records, self.store.epoch) + i_xlm
                            > i128::MAX {
                            (self, Err(Error::ArithmeticError))
                        } else {
                            let booked = StateView {
                                store: TokenStorage {
                                    interest_collected: (self.store.interest_collected
                                        + i_xlm) as i128,
                                    ..self.store
                                },
                                interest_records: self.interest_records.insert(
                                    self.store.epoch,
                                    (record_of(self.interest_records, self.store.epoch)
                                        + i_xlm) as i128,
                                ),
                                ..self
                            };
                            let (upd, r) = booked.update_constants_model(i_xa, i_xlm);
                            if r is Err {
                                (self, Err(Error::ArithmeticError))
                            } else {
                                let drained = StateView {
                                    store: TokenStorage {
                                        total_xasset: (t0 - i_xa) as i128,
                                        ..upd.store
                                    },
                                    ..upd
                                };
                                let (burned, rb) = drained.burn_debit_model(self.contract, i_xa);
                                if rb is Err {
                                    (self, Err(Error::ArithmeticError))
                                } else {
                                    let cdp1 = CDPInternal {
                                        accrued_interest: Interest {
                                            amount: (cdp.accrued_interest.amount - i_xa) as i128,
                                            paid: (cdp.accrued_interest.paid + i_xlm) as i128,
                                        },
                                        ..cdp
                                    };
                                    if cdp1.accrued_interest.amount > 0 {
                                        (
                                            burned.with_cdps(burned.cdps.insert(lender, cdp1)),
                                            Ok((0, 0, CDPStatus::Frozen)),
                                        )
                                    } else {
                                        burned.liquidate_principal_model(self, lender, cdp1)
                                    }
                                }
                            }
                        }
                    } else {
                        if cdp.accrued_interest.amount > 0 {
                            (self, Ok((0, 0, CDPStatus::Frozen)))
                        } else {
                            self.liquidate_principal_model(self, lender, cdp)
                        }
                    }
                }
            }
        }
    }

    /// The invariant weakened for the instant before an epoch roll: the
    /// product constant may have collapsed, and positions of the closing
    /// epoch are only tied to the compounded constant.
    pub open spec fn roll_ready(self) -> bool {
        &&& self.store.compounded_constant >= 0
        &&& self.store.total_xasset >= 0
        &&& self.store.deposit_fee >= 0
        &&& self.store.stake_fee >= 0
        &&& self.store.unstake_return >= 0
        &&& forall|l: u64| #[trigger] self.cdps.contains_key(l) ==> self.cdps[l].wf()
        &&& forall|s: u64| #[trigger]
            self.positions.contains_key(s) ==> {
                let p = self.positions[s];
                &&& p.xasset_deposit >= 0
                &&& p.product_constant >= 1
                &&& p.compounded_constant >= 0
                &&& p.epoch <= self.store.epoch
                &&& p.epoch == self.store.epoch ==> p.compounded_constant
                    <= self.store.compounded_constant
                &&& p.epoch < self.store.epoch ==> self.compound_records.contains_key(p.epoch)
                    && p.compounded_constant <= self.compound_records[p.epoch]
            }
    }
}

/// A valid state is ready to roll.
pub proof fn lemma_wf_roll_ready(v: StateView)
    requires
        v.wf(),
    ensures
        v.roll_ready(),
{
    assert forall|s: u64| #[trigger] v.positions.contains_key(s) implies {
        let p = v.positions[s];
        &&& p.xasset_deposit >= 0
        &&& p.product_constant >= 1
        &&& p.compounded_constant >= 0
        &&& p.epoch <= v.store.epoch
        &&& p.epoch == v.store.epoch ==> p.compounded_constant <= v.store.compounded_constant
        &&& p.epoch < v.store.epoch ==> v.compound_records.contains_key(p.epoch)
            && p.compounded_constant <= v.compound_records[p.epoch]
    } by {
        assert(v.position_wf(v.positions[s]));
    }
}

/// An epoch roll from a roll-ready state restores the full invariant.
pub proof fn lemma_increment_epoch_wf(pre: StateView)
    requires
        pre.roll_ready(),
    ensures
        ({
            let (post, r) = pre.increment_epoch_model();
            r is Ok ==> post.wf()
        }),
{
    let (post, r) = pre.increment_epoch_model();
    if r is Ok {
        assert forall|s: u64| #[trigger]
            post.positions.contains_key(s) implies post.position_wf(post.positions[s]) by {
            assert(pre.positions.contains_key(s));
            let p = pre.positions[s];
            assert(p.epoch < post.store.epoch);
            if p.epoch == pre.store.epoch {
                assert(post.compound_records.contains_key(p.epoch));
                assert(post.compound_records[p.epoch] == pre.store.compounded_constant);
            } else {
                assert(post.compound_records.contains_key(p.epoch));
                assert(post.compound_records[p.epoch] == pre.compound_records[p.epoch]);
            }
        }
    }
}

/// Bounds on the scaled pool constants: the product constant never grows
/// and the compounded constant never shrinks.
proof fn lemma_scaled_constants(p: int, t: int, d: int, e: int)
    requires
        1 <= p,
        0 < t,
        0 <= d <= t,
        0 <= e,
    ensures
        0 <= (p * (t - d)) / t <= p,
        0 <= (e * p) / t,
{
    assert(0 <= p * (t - d) <= p * t) by (nonlinear_arith)
        requires
            1 <= p,
            0 < t,
            0 <= d <= t,
    ;
    assert(0 <= e * p) by (nonlinear_arith)
        requires
            1 <= p,
            0 <= e,
    ;
    vstd::arithmetic::div_mod::lemma_div_pos_is_pos(p * (t - d), t);
    vstd::arithmetic::div_mod::lemma_div_pos_is_pos(e * p, t);
    vstd::arithmetic::div_mod::lemma_div_is_ordered(p * (t - d), p * t, t);
    assert(p * t == t * p) by (nonlinear_arith);
    vstd::arithmetic::div_mod::lemma_div_multiples_vanish(p, t);
}

/// Scaling the constants for an absorption within the pool's liquidity
/// preserves the invariant.
pub proof fn lemma_update_constants_wf(pre: StateView, d: int, e: int)
    requires
        pre.wf(),
        0 <= d <= pre.store.total_xasset,
        0 <= e,
    ensures
        ({
            let (post, r) = pre.update_constants_model(d, e);
            r is Ok ==> post.wf()
        }),
{
    let t = pre.store.total_xasset as int;
    let p = pre.store.product_constant as int;
    let (post, r) = pre.update_constants_model(d, e);
    if t == 0 {
        lemma_wf_roll_ready(pre);
        lemma_increment_epoch_wf(pre);
    } else if r is Ok {
        lemma_scaled_constants(p, t, d, e);
        let new_p = (p * (t - d)) / t;
        let new_s = pre.store.compounded_constant + (e * p) / t;
        let updated = StateView {
            store: TokenStorage {
                product_constant: new_p as i128,
                compounded_constant: new_s as i128,
                ..pre.store
            },
            ..pre
        };
        if t == d {
            assert(updated.roll_ready()) by {
                assert forall|s: u64| #[trigger] updated.positions.contains_key(s) implies {
                    let q = updated.positions[s];
                    &&& q.xasset_deposit >= 0
                    &&& q.product_constant >= 1
                    &&& q.compounded_constant >= 0
                    &&& q.epoch <= updated.store.epoch
                    &&& q.epoch == updated.store.epoch ==> q.compounded_constant
                        <= updated.store.compounded_constant
                    &&& q.epoch < updated.store.epoch ==> updated.compound_records.contains_key(
                        q.epoch,
                    ) && q.compounded_constant <= updated.compound_records[q.epoch]
                } by {
                    assert(pre.position_wf(pre.positions[s]));
                }
            }
            lemma_increment_epoch_wf(updated);
        } else {
            assert forall|s: u64| #[trigger]
                updated.positions.contains_key(s) implies updated.position_wf(
                updated.positions[s],
            ) by {
                assert(pre.position_wf(pre.positions[s]));
            }
        }
    }
}

/// The collateral released by an absorption never exceeds the CDP's
/// deposit.
pub proof fn lemma_released_bounds(c: int, a: int, debt: int)
    requires
        0 < a,
        0 <= debt <= a,
        0 <= c,
    ensures
        0 <= bankers_round_spec(
            (DEFAULT_PRECISION * c * debt) / a,
            DEFAULT_PRECISION as int,
        ) <= c,
{
    let head = DEFAULT_PRECISION * c;
    assert(0 <= head * debt <= head * a) by (nonlinear_arith)
        requires
            0 <= c,
            0 <= debt <= a,
            head == DEFAULT_PRECISION * c,
    ;
    vstd::arithmetic::div_mod::lemma_div_pos_is_pos(head * debt, a);
    vstd::arithmetic::div_mod::lemma_div_is_ordered(head * debt, head * a, a);
    assert(head * a == a * head) by (nonlinear_arith);
    vstd::arithmetic::div_mod::lemma_div_multiples_vanish(head, a);
    lemma_bankers_round_monotone((head * debt) / a, head, DEFAULT_PRECISION as int);
    assert(head == c * DEFAULT_PRECISION);
    lemma_bankers_round_multiple(c, DEFAULT_PRECISION as int);
    vstd::arithmetic::div_mod::lemma_div_pos_is_pos(head * debt, a);
    lemma_bankers_round_monotone(0, (head * debt) / a, DEFAULT_PRECISION as int);
}

/// The principal leg preserves the invariant when it starts from a valid
/// state and a valid frozen record with positive debt and collateral.
proof fn lemma_liquidate_principal_wf(s: StateView, orig: StateView, lender: u64, cdp1: CDPInternal)
    requires
        s.wf(),
        orig.wf(),
        cdp1.wf(),
        cdp1.asset_lent > 0,
        cdp1.xlm_deposited > 0,
        cdp1.status == CDPStatus::Frozen,
    ensures
        s.liquidate_principal_model(orig, lender, cdp1).0.wf(),
{
    let t1 = s.store.total_xasset as int;
    let debt = min_int(cdp1.asset_lent as int, t1);
    let head = DEFAULT_PRECISION * cdp1.xlm_deposited;
    if head <= i128::MAX && head * debt <= i128::MAX {
        let released = bankers_round_spec(
            (head * debt) / (cdp1.asset_lent as int),
            DEFAULT_PRECISION as int,
        );
        lemma_released_bounds(cdp1.xlm_deposited as int, cdp1.asset_lent as int, debt);
        lemma_update_constants_wf(s, debt, released);
        let (s2, r) = s.update_constants_model(debt, released);
        if r is Ok {
            let s3 = StateView {
                store: TokenStorage { total_xasset: (t1 - debt) as i128, ..s2.store },
                ..s2
            };
            assert(s2.store.total_xasset == s.store.total_xasset);
            let (post, res) = s.liquidate_principal_model(orig, lender, cdp1);
            if res is Ok {
                let cdp2 = CDPInternal {
                    xlm_deposited: (cdp1.xlm_deposited - released) as i128,
                    asset_lent: (cdp1.asset_lent - debt) as i128,
                    ..cdp1
                };
                assert(cdp2.wf());
                assert forall|l: u64| #[trigger] post.cdps.contains_key(l) implies post.cdps[l].wf() by {
                    if l != lender {
                        assert(s.cdps.contains_key(l));
                    }
                }
                assert forall|sk: u64| #[trigger]
                    post.positions.contains_key(sk) implies post.position_wf(post.positions[sk]) by {
                    assert(s2.positions.contains_key(sk));
                    assert(s2.position_wf(s2.positions[sk]));
                }
            }
        }
    }
}

/// Re-anchoring one position keeps the invariant when the pool constants
/// and records are untouched and the total stays nonnegative.
pub proof fn lemma_wf_insert_position(
    pre: StateView,
    post: StateView,
    staker: u64,
    p: StakerPosition,
)
    requires
        pre.wf(),
        post.positions == pre.positions.insert(staker, p),
        post.position_wf(p),
        post.cdps == pre.cdps,
        post.compound_records == pre.compound_records,
        post.store.product_constant == pre.store.product_constant,
        post.store.compounded_constant == pre.store.compounded_constant,
        post.store.epoch == pre.store.epoch,
        post.store.deposit_fee == pre.store.deposit_fee,
        post.store.stake_fee == pre.store.stake_fee,
        post.store.unstake_return == pre.store.unstake_return,
        post.store.total_xasset >= 0,
    ensures
        post.wf(),
{
    assert forall|l: u64| #[trigger] post.cdps.contains_key(l) implies post.cdps[l].wf() by {
        assert(pre.cdps.contains_key(l));
    }
    assert forall|s: u64| #[trigger]
        post.positions.contains_key(s) implies post.position_wf(post.positions[s]) by {
        if s != staker {
            assert(pre.positions.contains_key(s));
            assert(pre.position_wf(pre.positions[s]));
        }
    }
}

/// Removing a position keeps the invariant when the pool constants and
/// records are untouched and the total stays nonnegative.
pub proof fn lemma_wf_remove_position(pre: StateView, post: StateView, staker: u64)
    requires
        pre.wf(),
        post.positions == pre.positions.remove(staker),
        post.cdps == pre.cdps,
        post.compound_records == pre.compound_records,
        post.store.product_constant == pre.store.product_constant,
        post.store.compounded_constant == pre.store.compounded_constant,
        post.store.epoch == pre.store.epoch,
        post.store.deposit_fee == pre.store.deposit_fee,
        post.store.stake_fee == pre.store.stake_fee,
        post.store.unstake_return == pre.store.unstake_return,
        post.store.total_xasset >= 0,
    ensures
        post.wf(),
{
    assert forall|l: u64| #[trigger] post.cdps.contains_key(l) implies post.cdps[l].wf() by {
        assert(pre.cdps.contains_key(l));
    }
    assert forall|s: u64| #[trigger]
        post.positions.contains_key(s) implies post.position_wf(post.positions[s]) by {
        assert(pre.positions.contains_key(s));
        assert(pre.position_wf(pre.positions[s]));
    }
}

/// A liquidation preserves the invariant.
pub proof fn lemma_liquidate_wf(pre: StateView, lender: u64, prices: OraclePrices)
    requires
        pre.wf(),
        prices.wf(),
    ensures
        pre.liquidate_model(lender, prices).0.wf(),
{
    if pre.cdps.contains_key(lender) {
        let cdp = pre.cdps[lender];
        assert(cdp.wf());
        if cdp.status == CDPStatus::Frozen && cdp.asset_lent > 0 && cdp.xlm_deposited > 0 {
            let t0 = pre.store.total_xasset as int;
            let i_xa = min_int(cdp.accrued_interest.amount as int, t0);
            if crate::math::convert_fits(
                i_xa,
                prices.asset.price as int,
                prices.xlm_decimals as nat,
                prices.asset_decimals as nat,
            ) {
                let i_xlm = convert_to_xlm_spec(
                    i_xa,
                    prices.asset.price as int,
                    prices.xlm.price as int,
                    prices.xlm_decimals as nat,
                    prices.asset_decimals as nat,
                );
                if i_xlm > 0 {
                    if cdp.accrued_interest.paid + i_xlm <= i128::MAX
                        && pre.store.interest_collected + i_xlm <= i128::MAX && record_of(
                        pre.interest_records,
                        pre.store.epoch,
                    ) + i_xlm <= i128::MAX {
                        let booked = StateView {
                            store: TokenStorage {
                                interest_collected: (pre.store.interest_collected + i_xlm) as i128,
                                ..pre.store
                            },
                            interest_records: pre.interest_records.insert(
                                pre.store.epoch,
                                (record_of(pre.interest_records, pre.store.epoch) + i_xlm) as i128,
                            ),
                            ..pre
                        };
                        crate::token::lemma_wf_records_unchanged(pre, booked);
                        lemma_update_constants_wf(booked, i_xa, i_xlm);
                        let (upd, r) = booked.update_constants_model(i_xa, i_xlm);
                        if r is Ok {
                            let drained = StateView {
                                store: TokenStorage {
                                    total_xasset: (t0 - i_xa) as i128,
                                    ..upd.store
                                },
                                ..upd
                            };
                            assert(upd.store.total_xasset == booked.store.total_xasset);
                            assert forall|sk: u64| #[trigger]
                                drained.positions.contains_key(sk) implies drained.position_wf(
                                drained.positions[sk],
                            ) by {
                                assert(upd.position_wf(upd.positions[sk]));
                            }
                            let (burned, rb) = drained.burn_debit_model(pre.contract, i_xa);
                            if rb is Ok {
                                crate::token::lemma_wf_records_unchanged(drained, burned);
                                let cdp1 = CDPInternal {
                                    accrued_interest: Interest {
                                        amount: (cdp.accrued_interest.amount - i_xa) as i128,
                                        paid: (cdp.accrued_interest.paid + i_xlm) as i128,
                                    },
                                    ..cdp
                                };
                                assert(cdp1.wf());
                                if cdp1.accrued_interest.amount > 0 {
                                    let post = burned.with_cdps(
                                        burned.cdps.insert(lender, cdp1),
                                    );
                                    assert forall|l: u64| #[trigger]
                                        post.cdps.contains_key(l) implies post.cdps[l].wf() by {
                                        if l != lender {
                                            assert(burned.cdps.contains_key(l));
                                        }
                                    }
                                    assert forall|sk: u64| #[trigger]
                                        post.positions.contains_key(sk) implies post.position_wf(
                                        post.positions[sk],
                                    ) by {
                                        assert(burned.position_wf(burned.positions[sk]));
                                    }
                                } else {
                                    lemma_liquidate_principal_wf(burned, pre, lender, cdp1);
                                }
                            }
                        }
                    }
                } else {
                    if cdp.accrued_interest.amount <= 0 {
                        lemma_liquidate_principal_wf(pre, pre, lender, cdp);
                    }
                }
            }
        }
    }
}

impl StateView {
    /// The effective deposit of the staker at `address`.
    pub open spec fn staker_deposit_model(self, address: u64) -> Result<int, Error> {
        if !self.positions.contains_key(address) {
            Err(Error::StakeDoesntExist)
        } else {
            self.current_deposit_calc(self.positions[address])
        }
    }

    /// The effective deposit and unclaimed rewards of the staker at
    /// `staker`.
    pub open spec fn available_assets_model(self, staker: u64) -> Result<AvailableAssets, Error> {
        if !self.positions.contains_key(staker) {
            Err(Error::StakeDoesntExist)
        } else {
            match self.current_deposit_calc(self.positions[staker]) {
                Err(e) => Err(e),
                Ok(d) => match self.rewards_calc(self.positions[staker]) {
                    Err(e) => Err(e),
                    Ok(rw) => Ok(
                        AvailableAssets {
                            available_xasset: d as i128,
                            available_rewards: rw as i128,
                        },
                    ),
                },
            }
        }
    }
}

impl TokenContract {
    /// Total xAsset held by the stability pool.
    pub fn get_total_xasset(&self) -> (r: i128)
        ensures
            r == self@.store.total_xasset,
    {
        self.storage.total_xasset
    }

    /// Total collateral rewards held by the stability pool.
    pub fn get_total_collateral(&self) -> (r: i128)
        ensures
            r == self@.store.total_collateral,
    {
        self.storage.total_collateral
    }

    /// The stored position of `staker`.
    pub fn get_position(&self, staker: u64) -> (r: Result<StakerPosition, Error>)
        ensures
            match r {
                Ok(p) => self@.positions.contains_key(staker) && p == self@.positions[staker],
                Err(e) => !self@.positions.contains_key(staker) && e == Error::StakeDoesntExist,
            },
    {
        match self.positions.get(staker) {
            Some(p) => Ok(p),
            None => Err(Error::StakeDoesntExist),
        }
    }

    /// The pool's current constants, presented as a position whose deposit
    /// is the pool total.
    pub fn get_constants(&self) -> (r: StakerPosition)
        ensures
            r.xasset_deposit == self@.store.total_xasset,
            r.product_constant == self@.store.product_constant,
            r.compounded_constant == self@.store.compounded_constant,
            r.epoch == self@.store.epoch,
    {
        StakerPosition {
            xasset_deposit: self.storage.total_xasset,
            product_constant: self.storage.product_constant,
            compounded_constant: self.storage.compounded_constant,
            epoch: self.storage.epoch,
        }
    }

    /// A staker's current effective deposit.
    fn calculate_current_deposit(&self, position: &StakerPosition) -> (r: Result<i128, Error>)
        requires
            self@.wf(),
            self@.position_wf(*position),
        ensures
            match r {
                Ok(v) => self@.current_deposit_calc(*position) == Ok::<int, Error>(v as int) && v
                    >= 0,
                Err(e) => self@.current_deposit_calc(*position) == Err::<int, Error>(e),
            },
    {
        if position.epoch == self.storage.epoch {
            let ghost total = DEFAULT_PRECISION * position.xasset_deposit
                * self.storage.product_constant as int;
            let Some(head) = DEFAULT_PRECISION.checked_mul(position.xasset_deposit) else {
                proof {
                    lemma_mul_still_overflows(
                        DEFAULT_PRECISION * position.xasset_deposit,
                        self.storage.product_constant as int,
                    );
                }
                return Err(Error::ArithmeticError);
            };
            let Some(num) = head.checked_mul(self.storage.product_constant) else {
                return Err(Error::ArithmeticError);
            };
            proof {
                assert(num >= 0) by (nonlinear_arith)
                    requires
                        num == DEFAULT_PRECISION * position.xasset_deposit
                            * self@.store.product_constant,
                        position.xasset_deposit >= 0,
                        self@.store.product_constant >= 1,
                ;
                vstd::arithmetic::div_mod::lemma_div_pos_is_pos(
                    num as int,
                    position.product_constant as int,
                );
                vstd::arithmetic::div_mod::lemma_div_is_ordered_by_denominator(
                    num as int,
                    1,
                    position.product_constant as int,
                );
            }
            Ok(bankers_round(num / position.product_constant, DEFAULT_PRECISION))
        } else {
            Ok(0)
        }
    }

    /// A staker's unclaimed XLM reward.
    fn calculate_rewards(&self, position: &StakerPosition) -> (r: Result<i128, Error>)
        requires
            self@.wf(),
            self@.position_wf(*position),
        ensures
            match r {
                Ok(v) => self@.rewards_calc(*position) == Ok::<int, Error>(v as int) && v >= 0,
                Err(e) => self@.rewards_calc(*position) == Err::<int, Error>(e),
            },
    {
        let s_ref: i128 = if position.epoch == self.storage.epoch {
            self.storage.compounded_constant
        } else {
            match self.compound_records.get(position.epoch) {
                Some(v) => v,
                None => {
                    // Unreachable: the invariant records every past epoch.
                    proof {
                        assert(false);
                    }
                    0
                },
            }
        };
        let growth = s_ref - position.compounded_constant;
        let Some(head) = DEFAULT_PRECISION.checked_mul(position.xasset_deposit) else {
            return Err(Error::ArithmeticError);
        };
        let Some(num) = head.checked_mul(growth) else {
            return Err(Error::ArithmeticError);
        };
        proof {
            assert(num >= 0) by (nonlinear_arith)
                requires
                    num == head * growth,
                    head >= 0,
                    growth >= 0,
            ;
            vstd::arithmetic::div_mod::lemma_div_pos_is_pos(
                num as int,
                position.product_constant as int,
            );
            vstd::arithmetic::div_mod::lemma_div_is_ordered_by_denominator(
                num as int,
                1,
                position.product_constant as int,
            );
        }
        Ok(bankers_round(num / position.product_constant, DEFAULT_PRECISION))
    }

    /// The current effective deposit of the staker at `address`.
    pub fn get_staker_deposit_amount(&self, address: u64) -> (r: Result<i128, Error>)
        requires
            self@.wf(),
        ensures
            match r {
                Ok(v) => self@.staker_deposit_model(address) == Ok::<int, Error>(v as int),
                Err(e) => self@.staker_deposit_model(address) == Err::<int, Error>(e),
            },
    {
        let Some(position) = self.positions.get(address) else {
            return Err(Error::StakeDoesntExist);
        };
        proof {
            assert(self@.positions.contains_key(address));
        }
        self.calculate_current_deposit(&position)
    }

    /// The effective deposit and unclaimed rewards of `staker`.
    pub fn get_available_assets(&self, staker: u64) -> (r: Result<AvailableAssets, Error>)
        requires
            self@.wf(),
        ensures
            r == self@.available_assets_model(staker),
    {
        let Some(position) = self.positions.get(staker) else {
            return Err(Error::StakeDoesntExist);
        };
        proof {
            assert(self@.positions.contains_key(staker));
        }
        let d = match self.calculate_current_deposit(&position) {
            Ok(v) => v,
            Err(e) => {
                return Err(e);
            },
        };
        let rw = match self.calculate_rewards(&position) {
            Ok(v) => v,
            Err(e) => {
                return Err(e);
            },
        };
        Ok(AvailableAssets { available_xasset: d, available_rewards: rw })
    }

    /// Open a stake of `amount` xAsset for `from`, debiting the stake fee
    /// in XLM. The caller authenticates `from`.
    pub fn stake(&mut self, from: u64, amount: i128) -> (r: Result<(), Error>)
        requires
            old(self)@.wf(),
        ensures
            final(self)@ == old(self)@.stake_model(from, amount).0,
            r == old(self)@.stake_model(from, amount).1,
            final(self)@.wf(),
    {
        if amount <= 0 {
            return Err(Error::ValueNotPositive);
        }
        if self.positions.has(from) {
            return Err(Error::StakeAlreadyExists);
        }
        if self.balance(from) < amount {
            return Err(Error::InsufficientBalance);
        }
        let contract = self.contract;
        let fee = self.storage.stake_fee;
        if !(self.native.balance(from) >= fee && self.native.balance(contract).checked_add(
            fee,
        ).is_some()) {
            return Err(Error::XLMTransferFailed);
        }
        let Some(fees) = self.storage.fees_collected.checked_add(fee) else {
            return Err(Error::ArithmeticError);
        };
        if self.balance(contract).checked_add(amount).is_none() {
            return Err(Error::ArithmeticError);
        }
        let Some(total) = self.storage.total_xasset.checked_add(amount) else {
            return Err(Error::ArithmeticError);
        };
        let position = StakerPosition {
            xasset_deposit: amount,
            product_constant: self.storage.product_constant,
            compounded_constant: self.storage.compounded_constant,
            epoch: self.storage.epoch,
        };
        let moved = self.native.transfer(from, contract, fee);
        proof {
            assert(moved);
        }
        self.storage.fees_collected = fees;
        match self.transfer_internal(from, contract, amount) {
            Ok(()) => {},
            Err(e) => {
                // Unreachable: the checks above cover this failure.
                proof {
                    assert(false);
                }
                return Err(e);
            },
        }
        self.positions.set(from, position);
        self.storage.total_xasset = total;
        proof {
            assert(self@ =~= old(self)@.stake_model(from, amount).0);
            lemma_wf_insert_position(old(self)@, self@, from, position);
        }
        Ok(())
    }

    /// Add `amount` xAsset to the existing stake of `from`, which must have
    /// no unclaimed rewards; the deposit fee is debited in XLM. The caller
    /// authenticates `from`.
    pub fn deposit(&mut self, from: u64, amount: i128) -> (r: Result<(), Error>)
        requires
            old(self)@.wf(),
        ensures
            final(self)@ == old(self)@.deposit_model(from, amount).0,
            r == old(self)@.deposit_model(from, amount).1,
            final(self)@.wf(),
    {
        if amount <= 0 {
            return Err(Error::ValueNotPositive);
        }
        if self.balance(from) < amount {
            return Err(Error::InsufficientBalance);
        }
        let Some(position) = self.positions.get(from) else {
            return Err(Error::StakeDoesntExist);
        };
        proof {
            assert(self@.positions.contains_key(from));
        }
        let current = match self.calculate_current_deposit(&position) {
            Ok(v) => v,
            Err(e) => {
                return Err(e);
            },
        };
        let reward = match self.calculate_rewards(&position) {
            Ok(v) => v,
            Err(e) => {
                return Err(e);
            },
        };
        if reward > 0 {
            return Err(Error::ClaimRewardsFirst);
        }
        let contract = self.contract;
        let fee = self.storage.deposit_fee;
        if !(self.native.balance(from) >= fee && self.native.balance(contract).checked_add(
            fee,
        ).is_some()) {
            return Err(Error::XLMTransferFailed);
        }
        let Some(fees) = self.storage.fees_collected.checked_add(fee) else {
            return Err(Error::ArithmeticError);
        };
        let Some(renewed_deposit) = current.checked_add(amount) else {
            return Err(Error::ArithmeticError);
        };
        if self.balance(contract).checked_add(amount).is_none() {
            return Err(Error::ArithmeticError);
        }
        let Some(total) = self.storage.total_xasset.checked_add(amount) else {
            return Err(Error::ArithmeticError);
        };
        let renewed = StakerPosition {
            xasset_deposit: renewed_deposit,
            product_constant: self.storage.product_constant,
            compounded_constant: self.storage.compounded_constant,
            epoch: self.storage.epoch,
        };
        let moved = self.native.transfer(from, contract, fee);
        proof {
            assert(moved);
        }
        self.storage.fees_collected = fees;
        match self.transfer_internal(from, contract, amount) {
            Ok(()) => {},
            Err(e) => {
                // Unreachable: the checks above cover this failure.
                proof {
                    assert(false);
                }
                return Err(e);
            },
        }
        self.positions.set(from, renewed);
        self.storage.total_xasset = total;
        proof {
            assert(self@ =~= old(self)@.deposit_model(from, amount).0);
            lemma_wf_insert_position(old(self)@, self@, from, renewed);
        }
        Ok(())
    }

    /// Withdraw `amount` (or the whole effective deposit, when `full`) from
    /// the stake of `to`.
    fn withdraw_internal(&mut self, to: u64, amount: i128, full: bool) -> (r: Result<(), Error>)
        requires
            old(self)@.wf(),
            amount >= 0,
        ensures
            final(self)@ == old(self)@.withdraw_internal_model(to, amount, full).0,
            r == old(self)@.withdraw_internal_model(to, amount, full).1,
            final(self)@.wf(),
    {
        let Some(position) = self.positions.get(to) else {
            return Err(Error::StakeDoesntExist);
        };
        proof {
            assert(self@.positions.contains_key(to));
        }
        let reward = match self.calculate_rewards(&position) {
            Ok(v) => v,
            Err(e) => {
                return Err(e);
            },
        };
        if reward > 0 {
            return Err(Error::ClaimRewardsFirst);
        }
        let owed = match self.calculate_current_deposit(&position) {
            Ok(v) => v,
            Err(e) => {
                return Err(e);
            },
        };
        let w = if full {
            owed
        } else {
            amount
        };
        if owed < w {
            return Err(Error::InsufficientStake);
        }
        if self.storage.total_xasset - w < 0 {
            return Err(Error::ArithmeticError);
        }
        let contract = self.contract;
        if owed == w {
            let refund = self.storage.unstake_return;
            if !(self.native.balance(contract) >= refund && self.native.balance(to).checked_add(
                refund,
            ).is_some()) {
                return Err(Error::XLMTransferFailed);
            }
            let Some(fees) = self.storage.fees_collected.checked_sub(refund) else {
                return Err(Error::ArithmeticError);
            };
            if self.balance(contract).checked_sub(w).is_none() || self.balance(to).checked_add(
                w,
            ).is_none() {
                return Err(Error::ArithmeticError);
            }
            let moved = self.native.transfer(contract, to, refund);
            proof {
                assert(moved);
            }
            self.storage.fees_collected = fees;
            match self.transfer_internal(contract, to, w) {
                Ok(()) => {},
                Err(e) => {
                    // Unreachable: the checks above cover this failure.
                    proof {
                        assert(false);
                    }
                    return Err(e);
                },
            }
            self.positions.remove(to);
            self.storage.total_xasset = self.storage.total_xasset - w;
            proof {
                assert(self@ =~= old(self)@.withdraw_internal_model(to, amount, full).0);
                lemma_wf_remove_position(old(self)@, self@, to);
            }
            Ok(())
        } else {
            if self.balance(contract).checked_sub(w).is_none() || self.balance(to).checked_add(
                w,
            ).is_none() {
                return Err(Error::ArithmeticError);
            }
            let renewed = StakerPosition {
                xasset_deposit: owed - w,
                product_constant: self.storage.product_constant,
                compounded_constant: self.storage.compounded_constant,
                epoch: position.epoch,
            };
            match self.transfer_internal(contract, to, w) {
                Ok(()) => {},
                Err(e) => {
                    // Unreachable: the checks above cover this failure.
                    proof {
                        assert(false);
                    }
                    return Err(e);
                },
            }
            self.positions.set(to, renewed);
            self.storage.total_xasset = self.storage.total_xasset - w;
            proof {
                assert(self@ =~= old(self)@.withdraw_internal_model(to, amount, full).0);
                assert(position.epoch == old(self)@.store.epoch);
                lemma_wf_insert_position(old(self)@, self@, to, renewed);
            }
            Ok(())
        }
    }

    /// Withdraw `amount` xAsset from the stake of `to`. The caller
    /// authenticates `to`.
    pub fn withdraw(&mut self, to: u64, amount: i128) -> (r: Result<(), Error>)
        requires
            old(self)@.wf(),
        ensures
            final(self)@ == old(self)@.withdraw_model(to, amount).0,
            r == old(self)@.withdraw_model(to, amount).1,
            final(self)@.wf(),
    {
        if amount <= 0 {
            return Err(Error::ValueNotPositive);
        }
        self.withdraw_internal(to, amount, false)
    }

    /// Close the stake of `staker`, returning the whole effective deposit
    /// and the unstake refund. The caller authenticates `staker`.
    pub fn unstake(&mut self, staker: u64) -> (r: Result<(), Error>)
        requires
            old(self)@.wf(),
        ensures
            final(self)@ == old(self)@.unstake_model(staker).0,
            r == old(self)@.unstake_model(staker).1,
            final(self)@.wf(),
    {
        self.withdraw_internal(staker, 0, true)
    }

    /// Pay out the unclaimed XLM rewards of `to` and re-anchor the position
    /// at the current constants. The caller authenticates `to`.
    pub fn claim_rewards(&mut self, to: u64) -> (r: Result<i128, Error>)
        requires
            old(self)@.wf(),
        ensures
            final(self)@ == old(self)@.claim_rewards_model(to).0,
            r == old(self)@.claim_rewards_model(to).1,
            final(self)@.wf(),
    {
        let Some(position) = self.positions.get(to) else {
            return Err(Error::StakeDoesntExist);
        };
        proof {
            assert(self@.positions.contains_key(to));
        }
        let reward = match self.calculate_rewards(&position) {
            Ok(v) => v,
            Err(e) => {
                return Err(e);
            },
        };
        let contract = self.contract;
        if !(self.native.balance(contract) >= reward && self.native.balance(to).checked_add(
            reward,
        ).is_some()) {
            return Err(Error::XLMTransferFailed);
        }
        let Some(collateral) = self.storage.total_collateral.checked_sub(reward) else {
            return Err(Error::ArithmeticError);
        };
        let current = match self.calculate_current_deposit(&position) {
            Ok(v) => v,
            Err(e) => {
                return Err(e);
            },
        };
        let renewed = StakerPosition {
            xasset_deposit: current,
            product_constant: self.storage.product_constant,
            compounded_constant: self.storage.compounded_constant,
            epoch: self.storage.epoch,
        };
        let moved = self.native.transfer(contract, to, reward);
        proof {
            assert(moved);
        }
        self.storage.total_collateral = collateral;
        self.positions.set(to, renewed);
        proof {
            assert(self@ =~= old(self)@.claim_rewards_model(to).0);
            lemma_wf_insert_position(old(self)@, self@, to, renewed);
        }
        Ok(reward)
    }

    /// Liquidate the frozen CDP of `lender` against the stability pool:
    /// interest is absorbed first, and principal only once no interest
    /// remains; the call reports the debt cleared, the collateral released,
    /// and the resulting status. Any caller may liquidate.
    #[verifier::rlimit(50)]
    pub fn liquidate(&mut self, lender: u64, prices: &OraclePrices) -> (r: Result<
        (i128, i128, CDPStatus),
        Error,
    >)
        requires
            old(self)@.wf(),
            prices.wf(),
        ensures
            final(self)@ == old(self)@.liquidate_model(lender, *prices).0,
            r == old(self)@.liquidate_model(lender, *prices).1,
            final(self)@.wf(),
    {
        proof {
            lemma_liquidate_wf(old(self)@, lender, *prices);
        }
        let Some(cdp) = self.cdps.get(lender) else {
            return Err(Error::CDPNotFound);
        };
        if !matches!(cdp.status, CDPStatus::Frozen) {
            return Err(Error::InvalidLiquidation);
        }
        if cdp.asset_lent <= 0 || cdp.xlm_deposited <= 0 {
            return Err(Error::InvalidLiquidation);
        }
        proof {
            assert(self@.cdps.contains_key(lender));
            assert(self@.cdps[lender].wf());
        }
        let contract = self.contract;
        let t0 = self.storage.total_xasset;
        let i_xa = if cdp.accrued_interest.amount < t0 {
            cdp.accrued_interest.amount
        } else {
            t0
        };
        let Some(i_xlm) = checked_convert_to_xlm(
            i_xa,
            prices.asset.price,
            prices.xlm.price,
            prices.xlm_decimals,
            prices.asset_decimals,
        ) else {
            return Err(Error::ArithmeticError);
        };
        let booked = i_xlm > 0;
        // Values describing the state once the interest leg has run; when
        // nothing converts they simply restate the current state.
        let mut new_paid: i128 = cdp.accrued_interest.paid;
        let mut collected: i128 = self.storage.interest_collected;
        let mut new_rec: i128 = 0;
        let mut rolled1: bool = false;
        let mut record1_val: i128 = 0;
        let mut p1: i128 = self.storage.product_constant;
        let mut s1: i128 = self.storage.compounded_constant;
        let mut epoch1: u64 = self.storage.epoch;
        let mut t1: i128 = t0;
        let mut remaining: i128 = cdp.accrued_interest.amount;
        let epoch0 = self.storage.epoch;
        let p0 = self.storage.product_constant;
        let s0 = self.storage.compounded_constant;
        let cbal = self.balance(contract);
        let mut cbal1: i128 = cbal;
        if booked {
            proof {
                if i_xa == 0 {
                    lemma_convert_zero(
                        prices.asset.price as int,
                        prices.xlm.price as int,
                        prices.xlm_decimals as nat,
                        prices.asset_decimals as nat,
                    );
                }
            }
            let Some(paid_v) = cdp.accrued_interest.paid.checked_add(i_xlm) else {
                return Err(Error::ArithmeticError);
            };
            new_paid = paid_v;
            let Some(collected_v) = self.storage.interest_collected.checked_add(i_xlm) else {
                return Err(Error::ArithmeticError);
            };
            collected = collected_v;
            let rec0 = match self.interest_records.get(epoch0) {
                Some(v) => v,
                None => 0,
            };
            let Some(rec_v) = rec0.checked_add(i_xlm) else {
                return Err(Error::ArithmeticError);
            };
            new_rec = rec_v;
            let Some(num_p) = p0.checked_mul(t0 - i_xa) else {
                return Err(Error::ArithmeticError);
            };
            let Some(num_s) = i_xlm.checked_mul(p0) else {
                return Err(Error::ArithmeticError);
            };
            proof {
                assert(num_p >= 0) by (nonlinear_arith)
                    requires
                        num_p == p0 * (t0 - i_xa),
                        p0 >= 1,
                        t0 - i_xa >= 0,
                ;
                assert(num_s >= 0) by (nonlinear_arith)
                    requires
                        num_s == i_xlm * p0,
                        p0 >= 1,
                        i_xlm >= 0,
                ;
                vstd::arithmetic::div_mod::lemma_div_pos_is_pos(num_p as int, t0 as int);
                vstd::arithmetic::div_mod::lemma_div_pos_is_pos(num_s as int, t0 as int);
                vstd::arithmetic::div_mod::lemma_div_is_ordered_by_denominator(
                    num_p as int,
                    1,
                    t0 as int,
                );
                vstd::arithmetic::div_mod::lemma_div_is_ordered_by_denominator(
                    num_s as int,
                    1,
                    t0 as int,
                );
            }
            let new_p = num_p / t0;
            let Some(new_s) = s0.checked_add(num_s / t0) else {
                return Err(Error::ArithmeticError);
            };
            if new_p == 0 && i_xa < t0 {
                return Err(Error::ArithmeticError);
            }
            rolled1 = i_xa == t0;
            if rolled1 && epoch0 == u64::MAX {
                return Err(Error::ArithmeticError);
            }
            record1_val = new_s;
            p1 = if rolled1 {
                PRODUCT_CONSTANT
            } else {
                new_p
            };
            s1 = if rolled1 {
                0
            } else {
                new_s
            };
            epoch1 = if rolled1 {
                epoch0 + 1
            } else {
                epoch0
            };
            t1 = t0 - i_xa;
            let Some(cbal_v) = cbal.checked_sub(i_xa) else {
                return Err(Error::ArithmeticError);
            };
            cbal1 = cbal_v;
            remaining = cdp.accrued_interest.amount - i_xa;
            if remaining > 0 {
                self.storage.interest_collected = collected;
                self.interest_records.set(epoch0, new_rec);
                self.storage.product_constant = p1;
                self.storage.compounded_constant = s1;
                if rolled1 {
                    self.compound_records.set(epoch0, new_s);
                    self.storage.epoch = epoch1;
                }
                self.storage.total_xasset = t1;
                self.balances.set(contract, cbal1);
                let cdp1 = CDPInternal {
                    accrued_interest: Interest { amount: remaining, paid: new_paid },
                    ..cdp
                };
                self.cdps.set(lender, cdp1);
                proof {
                    assert(self@ =~= old(self)@.liquidate_model(lender, *prices).0);
                }
                return Ok((0, 0, CDPStatus::Frozen));
            }
        } else {
            if remaining > 0 {
                proof {
                    assert(self@ =~= old(self)@.liquidate_model(lender, *prices).0);
                }
                return Ok((0, 0, CDPStatus::Frozen));
            }
        }
        // Principal leg, on the (still uncommitted) post-interest values.
        let debt = if cdp.asset_lent < t1 {
            cdp.asset_lent
        } else {
            t1
        };
        let Some(head) = DEFAULT_PRECISION.checked_mul(cdp.xlm_deposited) else {
            return Err(Error::ArithmeticError);
        };
        let Some(relnum) = head.checked_mul(debt) else {
            return Err(Error::ArithmeticError);
        };
        proof {
            assert(relnum >= 0) by (nonlinear_arith)
                requires
                    relnum == head * debt,
                    head >= 0,
                    debt >= 0,
            ;
            vstd::arithmetic::div_mod::lemma_div_pos_is_pos(relnum as int, cdp.asset_lent as int);
            vstd::arithmetic::div_mod::lemma_div_is_ordered_by_denominator(
                relnum as int,
                1,
                cdp.asset_lent as int,
            );
        }
        let released = bankers_round(relnum / cdp.asset_lent, DEFAULT_PRECISION);
        proof {
            lemma_released_bounds(cdp.xlm_deposited as int, cdp.asset_lent as int, debt as int);
        }
        let rolled2: bool;
        let record2_val: i128;
        let p2: i128;
        let s2: i128;
        let epoch2: u64;
        if t1 == 0 {
            if epoch1 == u64::MAX {
                return Err(Error::ArithmeticError);
            }
            rolled2 = true;
            record2_val = s1;
            p2 = PRODUCT_CONSTANT;
            s2 = 0;
            epoch2 = epoch1 + 1;
        } else {
            let Some(num_p2) = p1.checked_mul(t1 - debt) else {
                return Err(Error::ArithmeticError);
            };
            let Some(num_s2) = released.checked_mul(p1) else {
                return Err(Error::ArithmeticError);
            };
            proof {
                assert(num_p2 >= 0) by (nonlinear_arith)
                    requires
                        num_p2 == p1 * (t1 - debt),
                        p1 >= 1,
                        t1 - debt >= 0,
                ;
                assert(num_s2 >= 0) by (nonlinear_arith)
                    requires
                        num_s2 == released * p1,
                        p1 >= 1,
                        released >= 0,
                ;
                vstd::arithmetic::div_mod::lemma_div_pos_is_pos(num_p2 as int, t1 as int);
                vstd::arithmetic::div_mod::lemma_div_pos_is_pos(num_s2 as int, t1 as int);
                vstd::arithmetic::div_mod::lemma_div_is_ordered_by_denominator(
                    num_p2 as int,
                    1,
                    t1 as int,
                );
                vstd::arithmetic::div_mod::lemma_div_is_ordered_by_denominator(
                    num_s2 as int,
                    1,
                    t1 as int,
                );
            }
            let new_p2 = num_p2 / t1;
            let Some(new_s2) = s1.checked_add(num_s2 / t1) else {
                return Err(Error::ArithmeticError);
            };
            if new_p2 == 0 && debt < t1 {
                return Err(Error::ArithmeticError);
            }
            rolled2 = debt == t1;
            if rolled2 && epoch1 == u64::MAX {
                return Err(Error::ArithmeticError);
            }
            record2_val = new_s2;
            p2 = if rolled2 {
                PRODUCT_CONSTANT
            } else {
                new_p2
            };
            s2 = if rolled2 {
                0
            } else {
                new_s2
            };
            epoch2 = if rolled2 {
                epoch1 + 1
            } else {
                epoch1
            };
        }
        let Some(new_coll) = self.storage.total_collateral.checked_add(released) else {
            return Err(Error::ArithmeticError);
        };
        let Some(cbal2) = cbal1.checked_sub(debt) else {
            return Err(Error::ArithmeticError);
        };
        let new_xlm_deposited = cdp.xlm_deposited - released;
        let new_asset_lent = cdp.asset_lent - debt;
        // Commit both legs.
        if booked {
            self.storage.interest_collected = collected;
            self.interest_records.set(epoch0, new_rec);
        }
        self.storage.product_constant = p2;
        self.storage.compounded_constant = s2;
        self.storage.epoch = epoch2;
        if booked && rolled1 {
            self.compound_records.set(epoch0, record1_val);
        }
        if rolled2 {
            self.compound_records.set(epoch1, record2_val);
        }
        self.storage.total_xasset = t1 - debt;
        self.storage.total_collateral = new_coll;
        self.balances.set(contract, cbal2);
        let cdp2 = CDPInternal {
            xlm_deposited: new_xlm_deposited,
            asset_lent: new_asset_lent,
            accrued_interest: Interest { amount: 0, paid: new_paid },
            ..cdp
        };
        let status = if new_asset_lent == 0 {
            self.cdps.remove(lender);
            CDPStatus::Closed
        } else {
            self.cdps.set(lender, cdp2);
            CDPStatus::Frozen
        };
        proof {
            assert(self@ =~= old(self)@.liquidate_model(lender, *prices).0);
        }
        Ok((debt, released, status))
    }
}

} // verus!
