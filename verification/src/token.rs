//! The contract state and its fungible-ledger and administrative surface.
//!
//! [`TokenContract`] carries the whole engine: configuration and pool
//! scalars, the xAsset ledger, the CDP store, staker positions, per-epoch
//! records, and the modelled reserve ledger. Its abstract view is a
//! [`StateView`] of maps, and every entry point is pinned to a model
//! function over that view.

use vstd::prelude::*;

use crate::error::Error;
use crate::native::{allowance_of, balance_of, move_balances, NativeLedger, NativeView};
use crate::persistent_map::{PersistentMap, TxnMap};
use crate::stability_pool::StakerPosition;
use crate::storage::{Allowance, CDPInternal, Txn};
use crate::{DEPOSIT_FEE, PRODUCT_CONSTANT, STAKE_FEE, UNSTAKE_RETURN};

verus! {

/// Configuration and pool scalars, the singleton part of the state.
pub struct TokenStorage {
    /// Name of the token.
    pub name: String,
    /// Symbol of the token.
    pub symbol: String,
    /// Number of decimal places for token amounts.
    pub decimals: u32,
    /// Account standing for the XLM asset contract, for XLM transfers.
    pub xlm_sac: u64,
    /// Account standing for the XLM price feed.
    pub xlm_contract: u64,
    /// Account standing for the pegged asset's price feed.
    pub asset_contract: u64,
    /// Symbol of the oracle asset this token tracks.
    pub pegged_asset: String,
    /// Minimum collateralization ratio, in basis points.
    pub min_collat_ratio: u32,
    /// Total xAsset held by the stability pool.
    pub total_xasset: i128,
    /// Total collateral rewards held by the stability pool.
    pub total_collateral: i128,
    /// Current product constant of the stability pool.
    pub product_constant: i128,
    /// Current compounded constant of the stability pool.
    pub compounded_constant: i128,
    /// Current epoch of the stability pool.
    pub epoch: u64,
    /// Fees collected for the stability pool.
    pub fees_collected: i128,
    /// Fee debited on each pool deposit.
    pub deposit_fee: i128,
    /// Fee debited when a stake is opened.
    pub stake_fee: i128,
    /// Amount returned when a stake is closed.
    pub unstake_return: i128,
    /// Annual interest rate in basis points.
    pub interest_rate: u32,
    /// Total interest (in XLM) collected by the protocol.
    pub interest_collected: i128,
}

/// Abstract state of the whole contract.
#[verifier::ext_equal]
pub struct StateView {
    /// Configuration and pool scalars.
    pub store: TokenStorage,
    /// xAsset balance of each account.
    pub balances: Map<u64, i128>,
    /// xAsset spending grants between accounts.
    pub allowances: Map<Txn, Allowance>,
    /// Authorization flags.
    pub authorized: Map<u64, bool>,
    /// Collateralized debt positions, one per lender.
    pub cdps: Map<u64, CDPInternal>,
    /// Stability-pool positions, one per staker.
    pub positions: Map<u64, StakerPosition>,
    /// Compounded constant frozen at the end of each past epoch.
    pub compound_records: Map<u64, i128>,
    /// Interest collected within each epoch.
    pub interest_records: Map<u64, i128>,
    /// The modelled reserve-asset ledger.
    pub native: NativeView,
    /// The account standing for the contract itself.
    pub contract: u64,
}

impl StateView {
    /// Validity of a staker's position against the current pool scalars.
    pub open spec fn position_wf(self, p: StakerPosition) -> bool {
        &&& p.xasset_deposit >= 0
        &&& p.product_constant >= 1
        &&& p.compounded_constant >= 0
        &&& p.epoch <= self.store.epoch
        &&& p.epoch == self.store.epoch ==> p.product_constant >= self.store.product_constant
            && p.compounded_constant <= self.store.compounded_constant
        &&& p.epoch < self.store.epoch ==> self.compound_records.contains_key(p.epoch)
            && p.compounded_constant <= self.compound_records[p.epoch]
    }

    /// The state invariant every entry point preserves: positive pool
    /// constants, nonnegative pool totals and fees, valid stored CDPs, and
    /// positions consistent with the epoch they were recorded in.
    pub open spec fn wf(self) -> bool {
        &&& self.store.product_constant >= 1
        &&& self.store.compounded_constant >= 0
        &&& self.store.total_xasset >= 0
        &&& self.store.deposit_fee >= 0
        &&& self.store.stake_fee >= 0
        &&& self.store.unstake_return >= 0
        &&& forall|l: u64| #[trigger] self.cdps.contains_key(l) ==> self.cdps[l].wf()
        &&& forall|s: u64| #[trigger]
            self.positions.contains_key(s) ==> self.position_wf(self.positions[s])
    }

    /// The state as constructed, before any operation.
    pub open spec fn initial(
        contract: u64,
        xlm_sac: u64,
        xlm_contract: u64,
        asset_contract: u64,
        pegged_asset: String,
        min_collat_ratio: u32,
        name: String,
        symbol: String,
        decimals: u32,
        annual_interest_rate: u32,
    ) -> StateView {
        StateView {
            store: TokenStorage {
                name,
                symbol,
                decimals,
                xlm_sac,
                xlm_contract,
                asset_contract,
                pegged_asset,
                min_collat_ratio,
                total_xasset: 0,
                total_collateral: 0,
                product_constant: PRODUCT_CONSTANT,
                compounded_constant: 0,
                epoch: 0,
                fees_collected: 0,
                deposit_fee: DEPOSIT_FEE,
                stake_fee: STAKE_FEE,
                unstake_return: UNSTAKE_RETURN,
                interest_rate: annual_interest_rate,
                interest_collected: 0,
            },
            balances: Map::empty(),
            allowances: Map::empty(),
            authorized: Map::empty(),
            cdps: Map::empty(),
            positions: Map::empty(),
            compound_records: Map::empty(),
            interest_records: Map::empty(),
            native: NativeView {
                balances: Map::empty(),
                allowances: Map::empty(),
            },
            contract,
        }
    }

    /// The same state with other xAsset balances.
    pub open spec fn with_balances(self, m: Map<u64, i128>) -> StateView {
        StateView { balances: m, ..self }
    }

    /// The same state with other xAsset allowances.
    pub open spec fn with_allowances(self, m: Map<Txn, Allowance>) -> StateView {
        StateView { allowances: m, ..self }
    }

    /// Live xAsset allowance granted by `from` to `spender`.
    pub open spec fn allowance_spec(self, from: u64, spender: u64, current_ledger: u32) -> int {
        allowance_of(self.allowances, from, spender, current_ledger)
    }

    /// Move `amount` of xAsset between accounts, or report the overflow.
    pub open spec fn xfer_model(self, from: u64, to: u64, amount: int) -> (StateView, Result<
        (),
        Error,
    >) {
        if balance_of(self.balances, from) - amount < i128::MIN {
            (self, Err(Error::ArithmeticError))
        } else if balance_of(self.balances, to) + amount > i128::MAX {
            (self, Err(Error::ArithmeticError))
        } else {
            (self.with_balances(move_balances(self.balances, from, to, amount)), Ok(()))
        }
    }

    /// Credit `amount` of freshly minted xAsset to `to`.
    pub open spec fn mint_credit_model(self, to: u64, amount: int) -> (StateView, Result<
        (),
        Error,
    >) {
        if balance_of(self.balances, to) + amount > i128::MAX {
            (self, Err(Error::ArithmeticError))
        } else {
            (
                self.with_balances(
                    self.balances.insert(to, (balance_of(self.balances, to) + amount) as i128),
                ),
                Ok(()),
            )
        }
    }

    /// Remove `amount` of xAsset from `from`'s balance.
    pub open spec fn burn_debit_model(self, from: u64, amount: int) -> (StateView, Result<
        (),
        Error,
    >) {
        if balance_of(self.balances, from) - amount < i128::MIN {
            (self, Err(Error::ArithmeticError))
        } else {
            (
                self.with_balances(
                    self.balances.insert(from, (balance_of(self.balances, from) - amount) as i128),
                ),
                Ok(()),
            )
        }
    }

    /// Consume `amount` of an allowance after a delegated spend; the
    /// remainder is re-recorded with a fresh expiry a thousand ledgers out.
    pub open spec fn consume_allowance_model(
        self,
        from: u64,
        spender: u64,
        amount: int,
        current_ledger: u32,
    ) -> (StateView, Result<(), Error>) {
        let renewed = self.allowance_spec(from, spender, current_ledger) - amount;
        if current_ledger + 1000 > u32::MAX {
            (self, Err(Error::ArithmeticError))
        } else if renewed <= 0 {
            (self, Err(Error::ValueNotPositive))
        } else {
            (
                self.with_allowances(
                    self.allowances.insert(
                        Txn(from, spender),
                        Allowance {
                            amount: renewed as i128,
                            live_until_ledger: (current_ledger + 1000) as u32,
                        },
                    ),
                ),
                Ok(()),
            )
        }
    }

    /// Outcome of `approve`.
    pub open spec fn approve_model(
        self,
        from: u64,
        spender: u64,
        amount: i128,
        live_until_ledger: u32,
        current_ledger: u32,
    ) -> (StateView, Result<(), Error>) {
        if amount <= 0 {
            (self, Err(Error::ValueNotPositive))
        } else if live_until_ledger < current_ledger {
            (self, Err(Error::InvalidLedgerSequence))
        } else {
            (
                self.with_allowances(
                    self.allowances.insert(
                        Txn(from, spender),
                        Allowance { amount, live_until_ledger },
                    ),
                ),
                Ok(()),
            )
        }
    }

    /// Outcome of `increase_allowance`.
    pub open spec fn increase_allowance_model(
        self,
        from: u64,
        spender: u64,
        amount: i128,
        current_ledger: u32,
    ) -> (StateView, Result<(), Error>) {
        if amount <= 0 {
            (self, Err(Error::ValueNotPositive))
        } else if self.allowance_spec(from, spender, current_ledger) + amount > i128::MAX {
            (self, Err(Error::ArithmeticError))
        } else if current_ledger + 1000 > u32::MAX {
            (self, Err(Error::ArithmeticError))
        } else {
            (
                self.with_allowances(
                    self.allowances.insert(
                        Txn(from, spender),
                        Allowance {
                            amount: (self.allowance_spec(from, spender, current_ledger)
                                + amount) as i128,
                            live_until_ledger: (current_ledger + 1000) as u32,
                        },
                    ),
                ),
                Ok(()),
            )
        }
    }

    /// Outcome of `decrease_allowance`.
    pub open spec fn decrease_allowance_model(
        self,
        from: u64,
        spender: u64,
        amount: i128,
        current_ledger: u32,
    ) -> (StateView, Result<(), Error>) {
        if amount <= 0 {
            (self, Err(Error::ValueNotPositive))
        } else {
            let renewed = self.allowance_spec(from, spender, current_ledger) - amount;
            if current_ledger + 1000 > u32::MAX {
                (self, Err(Error::ArithmeticError))
            } else if renewed <= 0 {
                (self, Err(Error::ValueNotPositive))
            } else {
                (
                    self.with_allowances(
                        self.allowances.insert(
                            Txn(from, spender),
                            Allowance {
                                amount: renewed as i128,
                                live_until_ledger: (current_ledger + 1000) as u32,
                            },
                        ),
                    ),
                    Ok(()),
                )
            }
        }
    }

    /// Outcome of `transfer`.
    pub open spec fn transfer_model(self, from: u64, to: u64, amount: i128) -> (StateView, Result<
        (),
        Error,
    >) {
        if amount <= 0 {
            (self, Err(Error::ValueNotPositive))
        } else if to == from {
            (self, Err(Error::CannotTransferToSelf))
        } else if balance_of(self.balances, from) < amount {
            (self, Err(Error::InsufficientBalance))
        } else {
            self.xfer_model(from, to, amount as int)
        }
    }

    /// Outcome of `transfer_from`: the transfer of `transfer`, on the
    /// spender's allowance, which the move then consumes.
    pub open spec fn transfer_from_model(
        self,
        spender: u64,
        from: u64,
        to: u64,
        amount: i128,
        current_ledger: u32,
    ) -> (StateView, Result<(), Error>) {
        if amount <= 0 {
            (self, Err(Error::ValueNotPositive))
        } else if self.allowance_spec(from, spender, current_ledger) < amount {
            (self, Err(Error::InsufficientAllowance))
        } else if balance_of(self.balances, from) < amount {
            (self, Err(Error::InsufficientBalance))
        } else {
            let (moved, res) = self.xfer_model(from, to, amount as int);
            if res is Err {
                (self, res)
            } else {
                let (consumed, res2) = moved.consume_allowance_model(
                    from,
                    spender,
                    amount as int,
                    current_ledger,
                );
                if res2 is Err {
                    (self, res2)
                } else {
                    (consumed, Ok(()))
                }
            }
        }
    }

    /// Outcome of `burn`.
    pub open spec fn burn_model(self, from: u64, amount: i128) -> (StateView, Result<(), Error>) {
        if amount <= 0 {
            (self, Err(Error::ValueNotPositive))
        } else if balance_of(self.balances, from) < amount {
            (self, Err(Error::InsufficientBalance))
        } else {
            self.burn_debit_model(from, amount as int)
        }
    }

    /// Outcome of `burn_from`: the burn of `burn`, on the spender's
    /// allowance, which the burn then consumes.
    pub open spec fn burn_from_model(
        self,
        spender: u64,
        from: u64,
        amount: i128,
        current_ledger: u32,
    ) -> (StateView, Result<(), Error>) {
        if amount <= 0 {
            (self, Err(Error::ValueNotPositive))
        } else if self.allowance_spec(from, spender, current_ledger) < amount {
            (self, Err(Error::InsufficientAllowance))
        } else {
            let (burned, res) = self.burn_model(from, amount);
            if res is Err {
                (self, res)
            } else {
                let (consumed, res2) = burned.consume_allowance_model(
                    from,
                    spender,
                    amount as int,
                    current_ledger,
                );
                if res2 is Err {
                    (self, res2)
                } else {
                    (consumed, Ok(()))
                }
            }
        }
    }

    /// Outcome of `mint`.
    pub open spec fn mint_model(self, to: u64, amount: i128) -> (StateView, Result<(), Error>) {
        if amount <= 0 {
            (self, Err(Error::ValueNotPositive))
        } else {
            self.mint_credit_model(to, amount as int)
        }
    }

    /// Outcome of `clawback`; the balance may go negative, as the admin's
    /// confiscation is not bounded by the holding.
    pub open spec fn clawback_model(self, from: u64, amount: i128) -> (StateView, Result<
        (),
        Error,
    >) {
        if amount <= 0 {
            (self, Err(Error::ValueNotPositive))
        } else if balance_of(self.balances, from) - amount < i128::MIN {
            (self, Err(Error::ArithmeticError))
        } else {
            (
                self.with_balances(
                    self.balances.insert(
                        from,
                        (balance_of(self.balances, from) - amount) as i128,
                    ),
                ),
                Ok(()),
            )
        }
    }
}

/// The interest collected within an epoch, zero when none is recorded.
pub open spec fn record_of(m: Map<u64, i128>, key: u64) -> int {
    if m.contains_key(key) {
        m[key] as int
    } else {
        0
    }
}

/// Equality of the configuration scalars the invariant reads.
pub open spec fn wf_scalars_eq(a: TokenStorage, b: TokenStorage) -> bool {
    &&& a.product_constant == b.product_constant
    &&& a.compounded_constant == b.compounded_constant
    &&& a.total_xasset == b.total_xasset
    &&& a.deposit_fee == b.deposit_fee
    &&& a.stake_fee == b.stake_fee
    &&& a.unstake_return == b.unstake_return
    &&& a.epoch == b.epoch
}

/// A state change that touches no stored CDP, position or pool scalar keeps
/// the invariant.
pub proof fn lemma_wf_records_unchanged(pre: StateView, post: StateView)
    requires
        pre.wf(),
        post.cdps == pre.cdps,
        post.positions == pre.positions,
        post.compound_records == pre.compound_records,
        wf_scalars_eq(post.store, pre.store),
    ensures
        post.wf(),
{
    assert forall|s: u64| #[trigger]
        post.positions.contains_key(s) implies post.position_wf(post.positions[s]) by {
        assert(pre.positions.contains_key(s));
        assert(pre.position_wf(pre.positions[s]));
    }
}

/// The engine's full state. The fields are public for inspection; every
/// entry point preserves the `wf` invariant of the abstract view.
pub struct TokenContract {
    /// Configuration and pool scalars.
    pub storage: TokenStorage,
    /// xAsset balance of each account.
    pub balances: PersistentMap<i128>,
    /// xAsset spending grants between accounts.
    pub allowances: TxnMap,
    /// Authorization flags.
    pub authorized: PersistentMap<bool>,
    /// Collateralized debt positions, one per lender.
    pub cdps: PersistentMap<CDPInternal>,
    /// Stability-pool positions, one per staker.
    pub positions: PersistentMap<StakerPosition>,
    /// Compounded constant frozen at the end of each past epoch.
    pub compound_records: PersistentMap<i128>,
    /// Interest collected within each epoch.
    pub interest_records: PersistentMap<i128>,
    /// The modelled reserve-asset ledger.
    pub native: NativeLedger,
    /// The account standing for the contract itself.
    pub contract: u64,
}

impl View for TokenContract {
    type V = StateView;

    open spec fn view(&self) -> StateView {
        StateView {
            store: self.storage,
            balances: self.balances@,
            allowances: self.allowances@,
            authorized: self.authorized@,
            cdps: self.cdps@,
            positions: self.positions@,
            compound_records: self.compound_records@,
            interest_records: self.interest_records@,
            native: self.native@,
            contract: self.contract,
        }
    }
}

impl TokenContract {
    /// Construct the contract in its initial state. `contract` is the
    /// account standing for the contract itself, which holds the pool's
    /// assets; the caller authenticates the admin and performs this once.
    pub fn new(
        contract: u64,
        xlm_sac: u64,
        xlm_contract: u64,
        asset_contract: u64,
        pegged_asset: String,
        min_collat_ratio: u32,
        name: String,
        symbol: String,
        decimals: u32,
        annual_interest_rate: u32,
    ) -> (r: Self)
        ensures
            r@ == StateView::initial(
                contract,
                xlm_sac,
                xlm_contract,
                asset_contract,
                pegged_asset,
                min_collat_ratio,
                name,
                symbol,
                decimals,
                annual_interest_rate,
            ),
            r@.wf(),
    {
        let r = TokenContract {
            storage: TokenStorage {
                name,
                symbol,
                decimals,
                xlm_sac,
                xlm_contract,
                asset_contract,
                pegged_asset,
                min_collat_ratio,
                total_xasset: 0,
                total_collateral: 0,
                product_constant: PRODUCT_CONSTANT,
                compounded_constant: 0,
                epoch: 0,
                fees_collected: 0,
                deposit_fee: DEPOSIT_FEE,
                stake_fee: STAKE_FEE,
                unstake_return: UNSTAKE_RETURN,
                interest_rate: annual_interest_rate,
                interest_collected: 0,
            },
            balances: PersistentMap::new(),
            allowances: TxnMap::new(),
            authorized: PersistentMap::new(),
            cdps: PersistentMap::new(),
            positions: PersistentMap::new(),
            compound_records: PersistentMap::new(),
            interest_records: PersistentMap::new(),
            native: NativeLedger::new(),
            contract,
        };
        proof {
            assert(r@ =~= StateView::initial(
                contract,
                xlm_sac,
                xlm_contract,
                asset_contract,
                r.storage.pegged_asset,
                min_collat_ratio,
                r.storage.name,
                r.storage.symbol,
                decimals,
                annual_interest_rate,
            ));
        }
        r
    }

    /// Name of the token.
    pub fn name(&self) -> (r: &String)
        ensures
            r == self@.store.name,
    {
        &self.storage.name
    }

    /// Symbol of the token.
    pub fn symbol(&self) -> (r: &String)
        ensures
            r == self@.store.symbol,
    {
        &self.storage.symbol
    }

    /// Number of decimal places for token amounts.
    pub fn decimals(&self) -> (r: u32)
        ensures
            r == self@.store.decimals,
    {
        self.storage.decimals
    }

    /// Report the version of this contract.
    pub fn version() -> (r: &'static str)
        ensures
            r@ == "0.1.0"@,
    {
        "0.1.0"
    }

    /// xAsset balance of `id`.
    pub fn balance(&self, id: u64) -> (r: i128)
        ensures
            r == balance_of(self@.balances, id),
    {
        match self.balances.get(id) {
            Some(b) => b,
            None => 0,
        }
    }

    /// Spendable xAsset balance of `id`; the whole balance is spendable.
    pub fn spendable_balance(&self, id: u64) -> (r: i128)
        ensures
            r == balance_of(self@.balances, id),
    {
        self.balance(id)
    }

    /// Whether `id` is flagged as authorized.
    pub fn authorized(&self, id: u64) -> (r: bool)
        ensures
            r == (self@.authorized.contains_key(id) && self@.authorized[id]),
    {
        match self.authorized.get(id) {
            Some(b) => b,
            None => false,
        }
    }

    /// Flag `id` as authorized or not. The caller authenticates the admin.
    pub fn set_authorized(&mut self, id: u64, authorize: bool)
        requires
            old(self)@.wf(),
        ensures
            final(self)@ == (StateView { authorized: old(self)@.authorized.insert(id, authorize), ..old(self)@ }),
            final(self)@.wf(),
    {
        self.authorized.set(id, authorize);
        proof {
            assert(self@ =~= (StateView {
                authorized: old(self)@.authorized.insert(id, authorize),
                ..old(self)@
            }));
            lemma_wf_records_unchanged(old(self)@, self@);
        }
    }

    /// Live xAsset allowance granted by `from` to `spender`.
    pub fn allowance(&self, from: u64, spender: u64, current_ledger: u32) -> (r: i128)
        ensures
            r == self@.allowance_spec(from, spender, current_ledger),
    {
        match self.allowances.get(Txn(from, spender)) {
            Some(a) => {
                if current_ledger <= a.live_until_ledger {
                    a.amount
                } else {
                    0
                }
            },
            None => 0,
        }
    }

    /// Grant `spender` authority over `amount` of `from`'s xAsset until
    /// `live_until_ledger`. The caller authenticates `from`.
    pub fn approve(
        &mut self,
        from: u64,
        spender: u64,
        amount: i128,
        live_until_ledger: u32,
        current_ledger: u32,
    ) -> (r: Result<(), Error>)
        requires
            old(self)@.wf(),
        ensures
            final(self)@ == old(self)@.approve_model(
                from,
                spender,
                amount,
                live_until_ledger,
                current_ledger,
            ).0,
            r == old(self)@.approve_model(
                from,
                spender,
                amount,
                live_until_ledger,
                current_ledger,
            ).1,
            final(self)@.wf(),
    {
        if amount <= 0 {
            return Err(Error::ValueNotPositive);
        }
        if live_until_ledger < current_ledger {
            return Err(Error::InvalidLedgerSequence);
        }
        self.allowances.set(Txn(from, spender), Allowance { amount, live_until_ledger });
        proof {
            assert(self@ =~= old(self)@.approve_model(
                from,
                spender,
                amount,
                live_until_ledger,
                current_ledger,
            ).0);
            lemma_wf_records_unchanged(old(self)@, self@);
        }
        Ok(())
    }

    /// Raise the allowance granted by `from` to `spender` by `amount`,
    /// renewing its expiry. The caller authenticates `from`.
    pub fn increase_allowance(
        &mut self,
        from: u64,
        spender: u64,
        amount: i128,
        current_ledger: u32,
    ) -> (r: Result<(), Error>)
        requires
            old(self)@.wf(),
        ensures
            final(self)@ == old(self)@.increase_allowance_model(
                from,
                spender,
                amount,
                current_ledger,
            ).0,
            r == old(self)@.increase_allowance_model(from, spender, amount, current_ledger).1,
            final(self)@.wf(),
    {
        if amount <= 0 {
            return Err(Error::ValueNotPositive);
        }
        let current = self.allowance(from, spender, current_ledger);
        let Some(renewed) = current.checked_add(amount) else {
            return Err(Error::ArithmeticError);
        };
        let Some(live_until_ledger) = current_ledger.checked_add(1000) else {
            return Err(Error::ArithmeticError);
        };
        self.allowances.set(Txn(from, spender), Allowance { amount: renewed, live_until_ledger });
        proof {
            assert(self@ =~= old(self)@.increase_allowance_model(
                from,
                spender,
                amount,
                current_ledger,
            ).0);
            lemma_wf_records_unchanged(old(self)@, self@);
        }
        Ok(())
    }

    /// Lower the allowance granted by `from` to `spender` by `amount`,
    /// renewing its expiry. The caller authenticates `from`.
    pub fn decrease_allowance(
        &mut self,
        from: u64,
        spender: u64,
        amount: i128,
        current_ledger: u32,
    ) -> (r: Result<(), Error>)
        requires
            old(self)@.wf(),
        ensures
            final(self)@ == old(self)@.decrease_allowance_model(
                from,
                spender,
                amount,
                current_ledger,
            ).0,
            r == old(self)@.decrease_allowance_model(from, spender, amount, current_ledger).1,
            final(self)@.wf(),
    {
        if amount <= 0 {
            return Err(Error::ValueNotPositive);
        }
        self.consume_allowance(from, spender, amount, current_ledger)
    }

    /// Burn `amount` of an existing allowance, recording the remainder with
    /// a fresh expiry; a remainder of zero or less is refused.
    fn consume_allowance(
        &mut self,
        from: u64,
        spender: u64,
        amount: i128,
        current_ledger: u32,
    ) -> (r: Result<(), Error>)
        requires
            old(self)@.wf(),
            amount > 0,
        ensures
            final(self)@ == old(self)@.consume_allowance_model(
                from,
                spender,
                amount as int,
                current_ledger,
            ).0,
            r == old(self)@.consume_allowance_model(from, spender, amount as int, current_ledger).1,
            final(self)@.wf(),
    {
        let current = self.allowance(from, spender, current_ledger);
        let Some(live_until_ledger) = current_ledger.checked_add(1000) else {
            return Err(Error::ArithmeticError);
        };
        let renewed = match current.checked_sub(amount) {
            Some(v) => v,
            None => {
                return Err(Error::ValueNotPositive);
            },
        };
        if renewed <= 0 {
            return Err(Error::ValueNotPositive);
        }
        self.allowances.set(Txn(from, spender), Allowance { amount: renewed, live_until_ledger });
        proof {
            assert(self@ =~= old(self)@.consume_allowance_model(
                from,
                spender,
                amount as int,
                current_ledger,
            ).0);
            lemma_wf_records_unchanged(old(self)@, self@);
        }
        Ok(())
    }

    /// Move `amount` of xAsset between accounts, both sides read before
    /// either is written.
    pub(crate) fn transfer_internal(&mut self, from: u64, to: u64, amount: i128) -> (r: Result<
        (),
        Error,
    >)
        requires
            old(self)@.wf(),
            amount >= 0,
        ensures
            final(self)@ == old(self)@.xfer_model(from, to, amount as int).0,
            r == old(self)@.xfer_model(from, to, amount as int).1,
            final(self)@.wf(),
    {
        let from_balance = self.balance(from);
        let to_balance = self.balance(to);
        let Some(debited) = from_balance.checked_sub(amount) else {
            return Err(Error::ArithmeticError);
        };
        let Some(credited) = to_balance.checked_add(amount) else {
            return Err(Error::ArithmeticError);
        };
        self.balances.set(from, debited);
        self.balances.set(to, credited);
        proof {
            assert(self@ =~= old(self)@.xfer_model(from, to, amount as int).0);
            lemma_wf_records_unchanged(old(self)@, self@);
        }
        Ok(())
    }

    /// Credit freshly minted xAsset to `to`.
    pub(crate) fn mint_internal(&mut self, to: u64, amount: i128) -> (r: Result<(), Error>)
        requires
            old(self)@.wf(),
            amount >= 0,
        ensures
            final(self)@ == old(self)@.mint_credit_model(to, amount as int).0,
            r == old(self)@.mint_credit_model(to, amount as int).1,
            final(self)@.wf(),
    {
        let to_balance = self.balance(to);
        let Some(credited) = to_balance.checked_add(amount) else {
            return Err(Error::ArithmeticError);
        };
        self.balances.set(to, credited);
        proof {
            assert(self@ =~= old(self)@.mint_credit_model(to, amount as int).0);
            lemma_wf_records_unchanged(old(self)@, self@);
        }
        Ok(())
    }

    /// Debit burned xAsset from `from`.
    pub(crate) fn burn_internal(&mut self, from: u64, amount: i128) -> (r: Result<(), Error>)
        requires
            old(self)@.wf(),
            amount >= 0,
        ensures
            final(self)@ == old(self)@.burn_debit_model(from, amount as int).0,
            r == old(self)@.burn_debit_model(from, amount as int).1,
            final(self)@.wf(),
    {
        let from_balance = self.balance(from);
        let Some(debited) = from_balance.checked_sub(amount) else {
            return Err(Error::ArithmeticError);
        };
        self.balances.set(from, debited);
        proof {
            assert(self@ =~= old(self)@.burn_debit_model(from, amount as int).0);
            lemma_wf_records_unchanged(old(self)@, self@);
        }
        Ok(())
    }

    /// Transfer `amount` of xAsset from `from` to `to`. The caller
    /// authenticates `from`.
    pub fn transfer(&mut self, from: u64, to: u64, amount: i128) -> (r: Result<(), Error>)
        requires
            old(self)@.wf(),
        ensures
            final(self)@ == old(self)@.transfer_model(from, to, amount).0,
            r == old(self)@.transfer_model(from, to, amount).1,
            final(self)@.wf(),
    {
        if amount <= 0 {
            return Err(Error::ValueNotPositive);
        }
        if to == from {
            return Err(Error::CannotTransferToSelf);
        }
        if self.balance(from) < amount {
            return Err(Error::InsufficientBalance);
        }
        self.transfer_internal(from, to, amount)
    }

    /// Transfer `amount` of xAsset from `from` to `to`, consuming that much
    /// of `spender`'s allowance. The caller authenticates `spender`.
    pub fn transfer_from(
        &mut self,
        spender: u64,
        from: u64,
        to: u64,
        amount: i128,
        current_ledger: u32,
    ) -> (r: Result<(), Error>)
        requires
            old(self)@.wf(),
        ensures
            final(self)@ == old(self)@.transfer_from_model(
                spender,
                from,
                to,
                amount,
                current_ledger,
            ).0,
            r == old(self)@.transfer_from_model(spender, from, to, amount, current_ledger).1,
            final(self)@.wf(),
    {
        if amount <= 0 {
            return Err(Error::ValueNotPositive);
        }
        if self.allowance(from, spender, current_ledger) < amount {
            return Err(Error::InsufficientAllowance);
        }
        if self.balance(from) < amount {
            return Err(Error::InsufficientBalance);
        }
        let from_balance = self.balance(from);
        let to_balance = self.balance(to);
        let Some(debited) = from_balance.checked_sub(amount) else {
            return Err(Error::ArithmeticError);
        };
        let Some(credited) = to_balance.checked_add(amount) else {
            return Err(Error::ArithmeticError);
        };
        let granted = self.allowance(from, spender, current_ledger);
        let Some(live_until_ledger) = current_ledger.checked_add(1000) else {
            return Err(Error::ArithmeticError);
        };
        let renewed = match granted.checked_sub(amount) {
            Some(v) => v,
            None => {
                return Err(Error::ValueNotPositive);
            },
        };
        if renewed <= 0 {
            return Err(Error::ValueNotPositive);
        }
        self.balances.set(from, debited);
        self.balances.set(to, credited);
        self.allowances.set(Txn(from, spender), Allowance { amount: renewed, live_until_ledger });
        proof {
            assert(self@ =~= old(self)@.transfer_from_model(
                spender,
                from,
                to,
                amount,
                current_ledger,
            ).0);
            lemma_wf_records_unchanged(old(self)@, self@);
        }
        Ok(())
    }

    /// Burn `amount` of xAsset from `from`. The caller authenticates `from`.
    pub fn burn(&mut self, from: u64, amount: i128) -> (r: Result<(), Error>)
        requires
            old(self)@.wf(),
        ensures
            final(self)@ == old(self)@.burn_model(from, amount).0,
            r == old(self)@.burn_model(from, amount).1,
            final(self)@.wf(),
    {
        if amount <= 0 {
            return Err(Error::ValueNotPositive);
        }
        if self.balance(from) < amount {
            return Err(Error::InsufficientBalance);
        }
        self.burn_internal(from, amount)
    }

    /// Burn `amount` of xAsset from `from`, consuming that much of
    /// `spender`'s allowance. The caller authenticates `spender`.
    pub fn burn_from(
        &mut self,
        spender: u64,
        from: u64,
        amount: i128,
        current_ledger: u32,
    ) -> (r: Result<(), Error>)
        requires
            old(self)@.wf(),
        ensures
            final(self)@ == old(self)@.burn_from_model(spender, from, amount, current_ledger).0,
            r == old(self)@.burn_from_model(spender, from, amount, current_ledger).1,
            final(self)@.wf(),
    {
        if amount <= 0 {
            return Err(Error::ValueNotPositive);
        }
        if self.allowance(from, spender, current_ledger) < amount {
            return Err(Error::InsufficientAllowance);
        }
        if self.balance(from) < amount {
            return Err(Error::InsufficientBalance);
        }
        let from_balance = self.balance(from);
        let debited = from_balance - amount;
        let granted = self.allowance(from, spender, current_ledger);
        let Some(live_until_ledger) = current_ledger.checked_add(1000) else {
            return Err(Error::ArithmeticError);
        };
        let renewed = match granted.checked_sub(amount) {
            Some(v) => v,
            None => {
                return Err(Error::ValueNotPositive);
            },
        };
        if renewed <= 0 {
            return Err(Error::ValueNotPositive);
        }
        self.balances.set(from, debited);
        self.allowances.set(Txn(from, spender), Allowance { amount: renewed, live_until_ledger });
        proof {
            assert(self@ =~= old(self)@.burn_from_model(spender, from, amount, current_ledger).0);
            lemma_wf_records_unchanged(old(self)@, self@);
        }
        Ok(())
    }

    /// Mint `amount` of xAsset to `to`. The caller authenticates the admin.
    pub fn mint(&mut self, to: u64, amount: i128) -> (r: Result<(), Error>)
        requires
            old(self)@.wf(),
        ensures
            final(self)@ == old(self)@.mint_model(to, amount).0,
            r == old(self)@.mint_model(to, amount).1,
            final(self)@.wf(),
    {
        if amount <= 0 {
            return Err(Error::ValueNotPositive);
        }
        self.mint_internal(to, amount)
    }

    /// Confiscate `amount` of xAsset from `from`. The caller authenticates
    /// the admin.
    pub fn clawback(&mut self, from: u64, amount: i128) -> (r: Result<(), Error>)
        requires
            old(self)@.wf(),
        ensures
            final(self)@ == old(self)@.clawback_model(from, amount).0,
            r == old(self)@.clawback_model(from, amount).1,
            final(self)@.wf(),
    {
        if amount <= 0 {
            return Err(Error::ValueNotPositive);
        }
        let from_balance = self.balance(from);
        let Some(debited) = from_balance.checked_sub(amount) else {
            return Err(Error::ArithmeticError);
        };
        self.balances.set(from, debited);
        proof {
            assert(self@ =~= old(self)@.clawback_model(from, amount).0);
            lemma_wf_records_unchanged(old(self)@, self@);
        }
        Ok(())
    }

    /// Balance of `id` in the modelled reserve ledger.
    pub fn native_balance(&self, id: u64) -> (r: i128)
        ensures
            r == balance_of(self@.native.balances, id),
    {
        self.native.balance(id)
    }

    /// Live reserve-asset allowance granted by `from` to `spender`.
    pub fn native_allowance(&self, from: u64, spender: u64, current_ledger: u32) -> (r: i128)
        ensures
            r == allowance_of(self@.native.allowances, from, spender, current_ledger),
    {
        self.native.allowance(from, spender, current_ledger)
    }

    /// Grant the contract (or any spender) authority over `amount` of
    /// `from`'s reserve balance, as the repayment workflow requires. The
    /// caller authenticates `from`.
    pub fn native_approve(
        &mut self,
        from: u64,
        spender: u64,
        amount: i128,
        live_until_ledger: u32,
        current_ledger: u32,
    ) -> (r: Result<(), Error>)
        requires
            old(self)@.wf(),
        ensures
            final(self)@ == (StateView {
                native: crate::native::native_approve_model(
                    old(self)@.native,
                    from,
                    spender,
                    amount,
                    live_until_ledger,
                    current_ledger,
                ).0,
                ..old(self)@
            }),
            r == crate::native::native_approve_model(
                old(self)@.native,
                from,
                spender,
                amount,
                live_until_ledger,
                current_ledger,
            ).1,
            final(self)@.wf(),
    {
        let r = self.native.approve(from, spender, amount, live_until_ledger, current_ledger);
        proof {
            assert(self@ =~= (StateView {
                native: crate::native::native_approve_model(
                    old(self)@.native,
                    from,
                    spender,
                    amount,
                    live_until_ledger,
                    current_ledger,
                ).0,
                ..old(self)@
            }));
            lemma_wf_records_unchanged(old(self)@, self@);
        }
        r
    }

    /// Endow `to` with reserve-asset balance, modelling issuance outside
    /// the engine.
    pub fn native_mint(&mut self, to: u64, amount: i128) -> (r: Result<(), Error>)
        requires
            old(self)@.wf(),
            amount >= 0,
        ensures
            r == (if balance_of(old(self)@.native.balances, to) + amount <= i128::MAX {
                Ok::<(), Error>(())
            } else {
                Err(Error::ArithmeticError)
            }),
            r is Ok ==> final(self)@ == (StateView {
                native: NativeView {
                    balances: old(self)@.native.balances.insert(
                        to,
                        (balance_of(old(self)@.native.balances, to) + amount) as i128,
                    ),
                    ..old(self)@.native
                },
                ..old(self)@
            }),
            r is Err ==> final(self)@ == old(self)@,
            final(self)@.wf(),
    {
        let r = self.native.mint(to, amount);
        proof {
            if r is Ok {
                assert(self@ =~= (StateView {
                    native: NativeView {
                        balances: old(self)@.native.balances.insert(
                            to,
                            (balance_of(old(self)@.native.balances, to) + amount) as i128,
                        ),
                        ..old(self)@.native
                    },
                    ..old(self)@
                }));
            } else {
                assert(self@ =~= old(self)@);
            }
            lemma_wf_records_unchanged(old(self)@, self@);
        }
        r
    }

    /// Set the account standing for the XLM asset contract. The caller
    /// authenticates the admin.
    pub fn set_xlm_sac(&mut self, to: u64)
        requires
            old(self)@.wf(),
        ensures
            final(self)@ == (StateView {
                store: TokenStorage { xlm_sac: to, ..old(self)@.store },
                ..old(self)@
            }),
            final(self)@.wf(),
    {
        self.storage.xlm_sac = to;
        proof {
            assert(self@ =~= (StateView {
                store: TokenStorage { xlm_sac: to, ..old(self)@.store },
                ..old(self)@
            }));
            lemma_wf_scalar_config_changed(old(self)@, self@);
        }
    }

    /// Set the account standing for the XLM price feed. The caller
    /// authenticates the admin.
    pub fn set_xlm_contract(&mut self, to: u64)
        requires
            old(self)@.wf(),
        ensures
            final(self)@ == (StateView {
                store: TokenStorage { xlm_contract: to, ..old(self)@.store },
                ..old(self)@
            }),
            final(self)@.wf(),
    {
        self.storage.xlm_contract = to;
        proof {
            assert(self@ =~= (StateView {
                store: TokenStorage { xlm_contract: to, ..old(self)@.store },
                ..old(self)@
            }));
            lemma_wf_scalar_config_changed(old(self)@, self@);
        }
    }

    /// Set the account standing for the pegged asset's price feed. The
    /// caller authenticates the admin.
    pub fn set_asset_contract(&mut self, to: u64)
        requires
            old(self)@.wf(),
        ensures
            final(self)@ == (StateView {
                store: TokenStorage { asset_contract: to, ..old(self)@.store },
                ..old(self)@
            }),
            final(self)@.wf(),
    {
        self.storage.asset_contract = to;
        proof {
            assert(self@ =~= (StateView {
                store: TokenStorage { asset_contract: to, ..old(self)@.store },
                ..old(self)@
            }));
            lemma_wf_scalar_config_changed(old(self)@, self@);
        }
    }

    /// Set the symbol of the asset this token is pegged to. The caller
    /// authenticates the admin.
    pub fn set_pegged_asset(&mut self, to: String)
        requires
            old(self)@.wf(),
        ensures
            final(self)@.store.pegged_asset == to,
            final(self)@ == (StateView {
                store: TokenStorage { pegged_asset: final(self)@.store.pegged_asset, ..old(self)@.store },
                ..old(self)@
            }),
            final(self)@.wf(),
    {
        self.storage.pegged_asset = to;
        proof {
            assert(self@ =~= (StateView {
                store: TokenStorage { pegged_asset: self@.store.pegged_asset, ..old(self)@.store },
                ..old(self)@
            }));
            lemma_wf_scalar_config_changed(old(self)@, self@);
        }
    }

    /// Set the minimum collateralization ratio, in basis points. The caller
    /// authenticates the admin.
    pub fn set_min_collat_ratio(&mut self, to: u32) -> (r: u32)
        requires
            old(self)@.wf(),
        ensures
            final(self)@ == (StateView {
                store: TokenStorage { min_collat_ratio: to, ..old(self)@.store },
                ..old(self)@
            }),
            r == to,
            final(self)@.wf(),
    {
        self.storage.min_collat_ratio = to;
        proof {
            assert(self@ =~= (StateView {
                store: TokenStorage { min_collat_ratio: to, ..old(self)@.store },
                ..old(self)@
            }));
            lemma_wf_scalar_config_changed(old(self)@, self@);
        }
        to
    }

    /// Set the annual interest rate, in basis points. The caller
    /// authenticates the admin.
    pub fn set_interest_rate(&mut self, new_rate: u32) -> (r: u32)
        requires
            old(self)@.wf(),
        ensures
            final(self)@ == (StateView {
                store: TokenStorage { interest_rate: new_rate, ..old(self)@.store },
                ..old(self)@
            }),
            r == new_rate,
            final(self)@.wf(),
    {
        self.storage.interest_rate = new_rate;
        proof {
            assert(self@ =~= (StateView {
                store: TokenStorage { interest_rate: new_rate, ..old(self)@.store },
                ..old(self)@
            }));
            lemma_wf_scalar_config_changed(old(self)@, self@);
        }
        new_rate
    }

    /// The annual interest rate, in basis points.
    pub fn get_interest_rate(&self) -> (r: u32)
        ensures
            r == self@.store.interest_rate,
    {
        self.storage.interest_rate
    }

    /// Total interest collected by the protocol, in XLM.
    pub fn get_total_interest_collected(&self) -> (r: i128)
        ensures
            r == self@.store.interest_collected,
    {
        self.storage.interest_collected
    }

    /// The minimum collateralization ratio, in basis points.
    pub fn minimum_collateralization_ratio(&self) -> (r: u32)
        ensures
            r == self@.store.min_collat_ratio,
    {
        self.storage.min_collat_ratio
    }
}

/// A change confined to configuration scalars that no position or CDP
/// condition reads keeps the invariant.
proof fn lemma_wf_scalar_config_changed(pre: StateView, post: StateView)
    requires
        pre.wf(),
        post.cdps == pre.cdps,
        post.positions == pre.positions,
        post.compound_records == pre.compound_records,
        wf_scalars_eq(post.store, pre.store),
    ensures
        post.wf(),
{
    lemma_wf_records_unchanged(pre, post);
}

} // verus!
