//! A deterministic model of the native reserve asset's ledger: balances and
//! allowances with the exact transfer, transfer-from and approve behaviour
//! the engine relies on. The hosting shell maps these moves onto the real
//! reserve-asset facility.

use vstd::prelude::*;

use crate::error::Error;
use crate::persistent_map::{PersistentMap, TxnMap};
use crate::storage::{Allowance, Txn};

verus! {

/// Balance of `id` in a ledger map, zero when no record exists.
pub open spec fn balance_of(m: Map<u64, i128>, id: u64) -> int {
    if m.contains_key(id) {
        m[id] as int
    } else {
        0
    }
}

/// Live allowance granted by `from` to `spender` as of `current_ledger`:
/// zero when absent or expired.
pub open spec fn allowance_of(m: Map<Txn, Allowance>, from: u64, spender: u64, current_ledger: u32) -> int {
    if m.contains_key(Txn(from, spender)) {
        let a = m[Txn(from, spender)];
        if current_ledger <= a.live_until_ledger {
            a.amount as int
        } else {
            0
        }
    } else {
        0
    }
}

/// Abstract state of the reserve ledger.
#[verifier::ext_equal]
pub struct NativeView {
    /// XLM balance of each account.
    pub balances: Map<u64, i128>,
    /// Spending grants between accounts.
    pub allowances: Map<Txn, Allowance>,
}

/// The reserve ledger: XLM balances and spending grants.
pub struct NativeLedger {
    balances: PersistentMap<i128>,
    allowances: TxnMap,
}

impl View for NativeLedger {
    type V = NativeView;

    closed spec fn view(&self) -> NativeView {
        NativeView { balances: self.balances@, allowances: self.allowances@ }
    }
}

/// A transfer completes exactly when the debited account covers it and the
/// credited balance stays representable.
pub open spec fn native_transfer_ok(pre: NativeView, from: u64, to: u64, amount: int) -> bool {
    &&& balance_of(pre.balances, from) >= amount
    &&& balance_of(pre.balances, to) + amount <= i128::MAX
}

/// Balances after moving `amount` from `from` to `to`; both sides are read
/// before either is written, so a self-transfer nets to a credit.
pub open spec fn move_balances(m: Map<u64, i128>, from: u64, to: u64, amount: int) -> Map<
    u64,
    i128,
> {
    m.insert(from, (balance_of(m, from) - amount) as i128).insert(
        to,
        (balance_of(m, to) + amount) as i128,
    )
}

/// The ledger after a successful transfer.
pub open spec fn native_transfer_spec(pre: NativeView, from: u64, to: u64, amount: int) -> NativeView {
    NativeView { balances: move_balances(pre.balances, from, to, amount), ..pre }
}

/// A transfer-from completes exactly when the live allowance and the balance
/// both cover the amount; it burns that much of the allowance.
pub open spec fn native_transfer_from_ok(
    pre: NativeView,
    spender: u64,
    from: u64,
    to: u64,
    amount: int,
    current_ledger: u32,
) -> bool {
    &&& allowance_of(pre.allowances, from, spender, current_ledger) >= amount
    &&& native_transfer_ok(pre, from, to, amount)
}

/// The ledger after a successful transfer-from: balances move and the
/// remaining allowance is recorded under its original expiry. A zero amount
/// moves nothing and leaves the grants untouched.
pub open spec fn native_transfer_from_spec(
    pre: NativeView,
    spender: u64,
    from: u64,
    to: u64,
    amount: int,
    current_ledger: u32,
) -> NativeView {
    if amount == 0 {
        pre
    } else {
        NativeView {
            balances: move_balances(pre.balances, from, to, amount),
            allowances: pre.allowances.insert(
                Txn(from, spender),
                Allowance {
                    amount: (allowance_of(pre.allowances, from, spender, current_ledger)
                        - amount) as i128,
                    live_until_ledger: pre.allowances[Txn(from, spender)].live_until_ledger,
                },
            ),
        }
    }
}

/// Outcome of an approval: the grant written, or the error refusing it.
pub open spec fn native_approve_model(
    pre: NativeView,
    from: u64,
    spender: u64,
    amount: i128,
    live_until_ledger: u32,
    current_ledger: u32,
) -> (NativeView, Result<(), Error>) {
    if amount <= 0 {
        (pre, Err(Error::ValueNotPositive))
    } else if live_until_ledger < current_ledger {
        (pre, Err(Error::InvalidLedgerSequence))
    } else {
        (
            NativeView {
                allowances: pre.allowances.insert(
                    Txn(from, spender),
                    Allowance { amount, live_until_ledger },
                ),
                ..pre
            },
            Ok(()),
        )
    }
}

impl NativeLedger {
    /// An empty ledger.
    pub fn new() -> (r: Self)
        ensures
            r@ == (NativeView {
                balances: Map::<u64, i128>::empty(),
                allowances: Map::<Txn, Allowance>::empty(),
            }),
    {
        NativeLedger { balances: PersistentMap::new(), allowances: TxnMap::new() }
    }

    /// Balance of `id`.
    pub fn balance(&self, id: u64) -> (r: i128)
        ensures
            r == balance_of(self@.balances, id),
    {
        match self.balances.get(id) {
            Some(b) => b,
            None => 0,
        }
    }

    /// Live allowance granted by `from` to `spender`.
    pub fn allowance(&self, from: u64, spender: u64, current_ledger: u32) -> (r: i128)
        ensures
            r == allowance_of(self@.allowances, from, spender, current_ledger),
    {
        match self.allowances.get(Txn(from, spender)) {
            Some(a) => {
                if current_ledger <= a.live_until_ledger {
                    a.amount
                } else {
                    0
                }
            },
            None => 0,
        }
    }

    /// Move `amount` from `from` to `to`; reports whether the transfer
    /// completed, and leaves the ledger untouched when it did not.
    pub fn transfer(&mut self, from: u64, to: u64, amount: i128) -> (ok: bool)
        requires
            amount >= 0,
        ensures
            ok == native_transfer_ok(old(self)@, from, to, amount as int),
            ok ==> final(self)@ == native_transfer_spec(old(self)@, from, to, amount as int),
            !ok ==> final(self)@ == old(self)@,
    {
        let from_balance = self.balance(from);
        let to_balance = self.balance(to);
        if from_balance < amount {
            return false;
        }
        let Some(credited) = to_balance.checked_add(amount) else {
            return false;
        };
        self.balances.set(from, from_balance - amount);
        self.balances.set(to, credited);
        proof {
            assert(self@ =~= native_transfer_spec(old(self)@, from, to, amount as int));
        }
        true
    }

    /// Move `amount` from `from` to `to` on the strength of `spender`'s
    /// allowance, consuming that much of it; reports whether the transfer
    /// completed, and leaves the ledger untouched when it did not.
    pub fn transfer_from(
        &mut self,
        spender: u64,
        from: u64,
        to: u64,
        amount: i128,
        current_ledger: u32,
    ) -> (ok: bool)
        requires
            amount >= 0,
        ensures
            ok == native_transfer_from_ok(old(self)@, spender, from, to, amount as int, current_ledger),
            ok ==> final(self)@ == native_transfer_from_spec(
                old(self)@,
                spender,
                from,
                to,
                amount as int,
                current_ledger,
            ),
            !ok ==> final(self)@ == old(self)@,
    {
        let granted = self.allowance(from, spender, current_ledger);
        if granted < amount {
            return false;
        }
        let from_balance = self.balance(from);
        let to_balance = self.balance(to);
        if from_balance < amount {
            return false;
        }
        let Some(credited) = to_balance.checked_add(amount) else {
            return false;
        };
        if amount == 0 {
            return true;
        }
        let live_until_ledger = match self.allowances.get(Txn(from, spender)) {
            Some(a) => a.live_until_ledger,
            None => {
                // Unreachable: a positive live allowance implies a record.
                proof {
                    assert(false);
                }
                0
            },
        };
        self.balances.set(from, from_balance - amount);
        self.balances.set(to, credited);
        self.allowances.set(
            Txn(from, spender),
            Allowance { amount: granted - amount, live_until_ledger },
        );
        proof {
            assert(self@ =~= native_transfer_from_spec(
                old(self)@,
                spender,
                from,
                to,
                amount as int,
                current_ledger,
            ));
        }
        true
    }

    /// Grant `spender` authority over `amount` of `from`'s balance until
    /// `live_until_ledger`.
    pub fn approve(
        &mut self,
        from: u64,
        spender: u64,
        amount: i128,
        live_until_ledger: u32,
        current_ledger: u32,
    ) -> (r: Result<(), Error>)
        ensures
            final(self)@ == native_approve_model(
                old(self)@,
                from,
                spender,
                amount,
                live_until_ledger,
                current_ledger,
            ).0,
            r == native_approve_model(
                old(self)@,
                from,
                spender,
                amount,
                live_until_ledger,
                current_ledger,
            ).1,
    {
        if amount <= 0 {
            return Err(Error::ValueNotPositive);
        }
        if live_until_ledger < current_ledger {
            return Err(Error::InvalidLedgerSequence);
        }
        self.allowances.set(Txn(from, spender), Allowance { amount, live_until_ledger });
        proof {
            assert(self@ =~= native_approve_model(
                old(self)@,
                from,
                spender,
                amount,
                live_until_ledger,
                current_ledger,
            ).0);
        }
        Ok(())
    }

    /// Endow `to` with `amount`, modelling issuance of the reserve asset.
    pub fn mint(&mut self, to: u64, amount: i128) -> (r: Result<(), Error>)
        requires
            amount >= 0,
        ensures
            r == (if balance_of(old(self)@.balances, to) + amount <= i128::MAX {
                Ok::<(), Error>(())
            } else {
                Err(Error::ArithmeticError)
            }),
            r is Ok ==> final(self)@ == (NativeView {
                balances: old(self)@.balances.insert(
                    to,
                    (balance_of(old(self)@.balances, to) + amount) as i128,
                ),
                ..old(self)@
            }),
            r is Err ==> final(self)@ == old(self)@,
    {
        let b = self.balance(to);
        let Some(credited) = b.checked_add(amount) else {
            return Err(Error::ArithmeticError);
        };
        self.balances.set(to, credited);
        proof {
            assert(self@ =~= (NativeView {
                balances: old(self)@.balances.insert(
                    to,
                    (balance_of(old(self)@.balances, to) + amount) as i128,
                ),
                ..old(self)@
            }));
        }
        Ok(())
    }
}

} // verus!
