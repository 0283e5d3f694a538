//! Laws of the engine, stated over the entry-point models and proved once
//! and for all: stored-record validity, supply conservation, solvency of
//! fresh positions, the interest-first liquidation discipline, and the
//! round trips that return users to where they started.

use vstd::prelude::*;

use crate::collateralized::{record_ratio, CDPStatus};
use crate::error::Error;
use crate::math::{
    bankers_round_spec, lemma_bankers_round_monotone, lemma_bankers_round_multiple,
};
use crate::native::balance_of;
use crate::oracle::OraclePrices;
use crate::stability_pool::min_int;
use crate::storage::CDPInternal;
use crate::token::StateView;
use crate::DEFAULT_PRECISION;

verus! {

/// Every stored CDP of a valid state keeps nonnegative collateral and debt
/// and is never `Closed`.
pub proof fn lemma_stored_cdps_valid(v: StateView)
    requires
        v.wf(),
    ensures
        forall|l: u64| #[trigger]
            v.cdps.contains_key(l) ==> v.cdps[l].xlm_deposited >= 0 && v.cdps[l].asset_lent >= 0
                && v.cdps[l].status != CDPStatus::Closed,
{
}

/// A staker's effective deposit never exceeds the nominal deposit while the
/// position's epoch is current: the product constant only shrinks within an
/// epoch.
pub proof fn lemma_effective_deposit_at_most_nominal(v: StateView, s: u64)
    requires
        v.wf(),
        v.positions.contains_key(s),
        v.positions[s].epoch == v.store.epoch,
    ensures
        match v.current_deposit_calc(v.positions[s]) {
            Ok(d) => d <= v.positions[s].xasset_deposit,
            Err(_) => true,
        },
{
    let p = v.positions[s];
    assert(v.position_wf(p));
    let num = DEFAULT_PRECISION * p.xasset_deposit * v.store.product_constant;
    if num <= i128::MAX {
        let cap = DEFAULT_PRECISION * p.xasset_deposit * p.product_constant;
        assert(0 <= num <= cap) by (nonlinear_arith)
            requires
                num == DEFAULT_PRECISION * p.xasset_deposit * v.store.product_constant,
                cap == DEFAULT_PRECISION * p.xasset_deposit * p.product_constant,
                p.xasset_deposit >= 0,
                1 <= v.store.product_constant <= p.product_constant,
        ;
        vstd::arithmetic::div_mod::lemma_div_is_ordered(
            num,
            cap,
            p.product_constant as int,
        );
        assert(cap == p.product_constant * (DEFAULT_PRECISION * p.xasset_deposit))
            by (nonlinear_arith)
            requires
                cap == DEFAULT_PRECISION * p.xasset_deposit * p.product_constant,
        ;
        vstd::arithmetic::div_mod::lemma_div_multiples_vanish(
            DEFAULT_PRECISION * p.xasset_deposit,
            p.product_constant as int,
        );
        vstd::arithmetic::div_mod::lemma_div_pos_is_pos(num, p.product_constant as int);
        lemma_bankers_round_monotone(
            num / (p.product_constant as int),
            DEFAULT_PRECISION * p.xasset_deposit,
            DEFAULT_PRECISION as int,
        );
        assert(DEFAULT_PRECISION * p.xasset_deposit == p.xasset_deposit * DEFAULT_PRECISION);
        lemma_bankers_round_multiple(p.xasset_deposit as int, DEFAULT_PRECISION as int);
    }
}

/// Sum of all balances in a ledger map.
pub open spec fn map_sum(m: Map<u64, i128>) -> int
    decreases m.dom().len(),
    when m.dom().finite()
{
    if m.dom().finite() && m.dom().len() > 0 {
        let k = m.dom().choose();
        m[k] + map_sum(m.remove(k))
    } else {
        0
    }
}

/// Splitting off any one entry of a finite ledger splits its sum.
pub proof fn lemma_map_sum_remove(m: Map<u64, i128>, k: u64)
    requires
        m.dom().finite(),
        m.contains_key(k),
    ensures
        map_sum(m) == m[k] + map_sum(m.remove(k)),
    decreases m.dom().len(),
{
    let k0 = m.dom().choose();
    assert(m.contains_key(k0));
    if k0 == k {
    } else {
        lemma_map_sum_remove(m.remove(k0), k);
        lemma_map_sum_remove(m.remove(k), k0);
        assert(m.remove(k0).remove(k) =~= m.remove(k).remove(k0));
        assert(m.remove(k0)[k] == m[k]);
        assert(m.remove(k)[k0] == m[k0]);
    }
}

/// Writing one entry of a finite ledger changes its sum by the difference.
pub proof fn lemma_map_sum_insert(m: Map<u64, i128>, k: u64, v: i128)
    requires
        m.dom().finite(),
    ensures
        map_sum(m.insert(k, v)) == map_sum(m) - balance_of(m, k) + v,
{
    lemma_map_sum_remove(m.insert(k, v), k);
    assert(m.insert(k, v).remove(k) =~= m.remove(k));
    if m.contains_key(k) {
        lemma_map_sum_remove(m, k);
    } else {
        assert(m.remove(k) =~= m);
    }
}

/// Sum of all outstanding principal debt across stored CDPs.
pub open spec fn debt_sum(m: Map<u64, CDPInternal>) -> int
    decreases m.dom().len(),
    when m.dom().finite()
{
    if m.dom().finite() && m.dom().len() > 0 {
        let k = m.dom().choose();
        m[k].asset_lent + debt_sum(m.remove(k))
    } else {
        0
    }
}

/// The circulating supply the token ledger accounts for: all balances less
/// the pool's own holding, less the debt backing them.
pub open spec fn outstanding_supply(v: StateView) -> int {
    map_sum(v.balances) - balance_of(v.balances, v.contract) - debt_sum(v.cdps)
}

/// A pure transfer between two user accounts leaves the outstanding supply
/// unchanged: the balance sum, the pool's holding, and every CDP stay as
/// they were.
pub proof fn lemma_transfer_preserves_outstanding_supply(
    pre: StateView,
    from: u64,
    to: u64,
    amount: i128,
)
    requires
        pre.balances.dom().finite(),
        from != pre.contract,
        to != pre.contract,
        pre.transfer_model(from, to, amount).1 is Ok,
    ensures
        ({
            let (post, _) = pre.transfer_model(from, to, amount);
            &&& map_sum(post.balances) == map_sum(pre.balances)
            &&& post.cdps == pre.cdps
            &&& balance_of(post.balances, post.contract) == balance_of(pre.balances, pre.contract)
            &&& outstanding_supply(post) == outstanding_supply(pre)
        }),
{
    let (post, r) = pre.transfer_model(from, to, amount);
    let bf = balance_of(pre.balances, from);
    let bt = balance_of(pre.balances, to);
    let m1 = pre.balances.insert(from, (bf - amount) as i128);
    lemma_map_sum_insert(pre.balances, from, (bf - amount) as i128);
    assert(m1.dom() =~= pre.balances.dom().insert(from));
    lemma_map_sum_insert(m1, to, (bt + amount) as i128);
    assert(balance_of(m1, to) == bt);
}

/// A CDP freshly opened by `open_cdp` is collateralized at or above the
/// minimum ratio.
pub proof fn lemma_open_cdp_collateralized(
    pre: StateView,
    lender: u64,
    collateral: i128,
    asset_lent: i128,
    prices: OraclePrices,
    now: u64,
)
    requires
        pre.wf(),
        prices.wf(),
        pre.open_cdp_model(lender, collateral, asset_lent, prices, now).1 is Ok,
    ensures
        ({
            let (post, _) = pre.open_cdp_model(lender, collateral, asset_lent, prices, now);
            &&& post.cdps.contains_key(lender)
            &&& record_ratio(post.cdps[lender], 0, prices) >= pre.store.min_collat_ratio
        }),
{
}

/// A liquidation that leaves the CDP frozen either settled all interest or
/// drained the pool before the principal step; degenerate conversions in
/// which a positive interest amount is worth zero XLM are left out.
pub proof fn lemma_liquidation_settles_interest_first(
    pre: StateView,
    lender: u64,
    prices: OraclePrices,
)
    requires
        pre.wf(),
        prices.wf(),
        ({
            let r = pre.liquidate_model(lender, prices).1;
            r == Ok::<(i128, i128, CDPStatus), Error>(
                (r.unwrap().0, r.unwrap().1, CDPStatus::Frozen),
            )
        }),
        ({
            let cdp = pre.cdps[lender];
            let i_xa = min_int(cdp.accrued_interest.amount as int, pre.store.total_xasset as int);
            i_xa == 0 || crate::math::convert_to_xlm_spec(
                i_xa,
                prices.asset.price as int,
                prices.xlm.price as int,
                prices.xlm_decimals as nat,
                prices.asset_decimals as nat,
            ) > 0
        }),
    ensures
        ({
            let (post, _) = pre.liquidate_model(lender, prices);
            post.cdps.contains_key(lender) && (post.cdps[lender].accrued_interest.amount == 0
                || post.store.total_xasset == 0)
        }),
{
    let cdp = pre.cdps[lender];
    assert(cdp.wf());
}

/// Liquidating against an empty pool changes nothing of the CDP and
/// reports `(0, 0, Frozen)`.
pub proof fn lemma_liquidate_empty_pool(pre: StateView, lender: u64, prices: OraclePrices)
    requires
        pre.wf(),
        prices.wf(),
        pre.cdps.contains_key(lender),
        pre.cdps[lender].status == CDPStatus::Frozen,
        pre.cdps[lender].asset_lent > 0,
        pre.cdps[lender].xlm_deposited > 0,
        pre.store.total_xasset == 0,
        DEFAULT_PRECISION * pre.cdps[lender].xlm_deposited <= i128::MAX,
        pre.store.epoch < u64::MAX,
    ensures
        pre.liquidate_model(lender, prices).1 == Ok::<(i128, i128, CDPStatus), Error>(
            (0, 0, CDPStatus::Frozen),
        ),
{
    let cdp = pre.cdps[lender];
    assert(cdp.wf());
    crate::math::lemma_convert_zero(
        prices.asset.price as int,
        prices.xlm.price as int,
        prices.xlm_decimals as nat,
        prices.asset_decimals as nat,
    );
    if cdp.accrued_interest.amount == 0 {
        let head = DEFAULT_PRECISION * cdp.xlm_deposited;
        assert(head * 0 == 0) by (nonlinear_arith);
        vstd::arithmetic::div_mod::lemma_div_of0(cdp.asset_lent as int);
        assert(bankers_round_spec(0, DEFAULT_PRECISION as int) == 0);
    }
}

/// A liquidation that drains the pool rolls the epoch: the constants reset
/// and the closing epoch's compounded constant stays queryable.
pub proof fn lemma_drained_pool_rolls_epoch(pre: StateView, d: int, e: int)
    requires
        pre.wf(),
        pre.store.total_xasset > 0,
        d == pre.store.total_xasset,
        e >= 0,
        pre.update_constants_model(d, e).1 is Ok,
    ensures
        ({
            let (post, _) = pre.update_constants_model(d, e);
            &&& post.store.epoch == pre.store.epoch + 1
            &&& post.store.product_constant == crate::PRODUCT_CONSTANT
            &&& post.store.compounded_constant == 0
            &&& post.compound_records.contains_key(pre.store.epoch)
            &&& post.compound_records[pre.store.epoch] == pre.store.compounded_constant + (e
                * pre.store.product_constant) / (pre.store.total_xasset as int)
        }),
{
}

/// Opening a stake and closing it again with no liquidation in between
/// returns the staker's full xAsset and costs exactly the stake fee less
/// the unstake refund in XLM.
#[verifier::rlimit(50)]
pub proof fn lemma_stake_unstake_round_trip(pre: StateView, from: u64, amount: i128)
    requires
        pre.wf(),
        from != pre.contract,
        !pre.positions.contains_key(from),
        balance_of(pre.balances, pre.contract) >= 0,
        balance_of(pre.native.balances, pre.contract) >= 0,
        pre.store.stake_fee >= pre.store.unstake_return,
        DEFAULT_PRECISION * amount * pre.store.product_constant <= i128::MAX,
        pre.stake_model(from, amount).1 is Ok,
    ensures
        ({
            let (mid, _) = pre.stake_model(from, amount);
            let (post, r2) = mid.unstake_model(from);
            &&& r2 is Ok
            &&& forall|k: u64|
                balance_of(#[trigger] post.balances, k) == balance_of(pre.balances, k)
            &&& post.cdps == pre.cdps
            &&& post.positions =~= pre.positions
            &&& post.store.total_xasset == pre.store.total_xasset
            &&& balance_of(post.native.balances, from) == balance_of(pre.native.balances, from)
                - pre.store.stake_fee + pre.store.unstake_return
            &&& balance_of(post.native.balances, pre.contract) == balance_of(
                pre.native.balances,
                pre.contract,
            ) + pre.store.stake_fee - pre.store.unstake_return
            &&& post.store.fees_collected == pre.store.fees_collected + pre.store.stake_fee
                - pre.store.unstake_return
        }),
{
    let (mid, _) = pre.stake_model(from, amount);
    let position = mid.positions[from];
    let p_at = position.product_constant as int;
    let head = DEFAULT_PRECISION * amount;
    assert(0 <= head <= head * p_at && head * p_at == DEFAULT_PRECISION * amount * p_at)
        by (nonlinear_arith)
        requires
            head == DEFAULT_PRECISION * amount,
            amount > 0,
            p_at >= 1,
    ;
    assert(head * 0 == 0) by (nonlinear_arith);
    vstd::arithmetic::div_mod::lemma_div_of0(p_at);
    assert(bankers_round_spec(0, DEFAULT_PRECISION as int) == 0);
    assert(mid.rewards_calc(position) == Ok::<int, Error>(0));
    let num = DEFAULT_PRECISION * amount * p_at;
    assert(num == p_at * head) by (nonlinear_arith)
        requires
            num == DEFAULT_PRECISION * amount * p_at,
            head == DEFAULT_PRECISION * amount,
    ;
    vstd::arithmetic::div_mod::lemma_div_multiples_vanish(head, p_at);
    assert(head == amount * DEFAULT_PRECISION);
    lemma_bankers_round_multiple(amount as int, DEFAULT_PRECISION as int);
    assert(mid.current_deposit_calc(position) == Ok::<int, Error>(amount as int));
    let (post, r2) = mid.unstake_model(from);
    assert(r2 is Ok);
    assert(post.positions =~= pre.positions);
}

/// Opening a CDP and immediately repaying the debt, withdrawing the
/// collateral and closing it returns the lender to the starting state:
/// with no time elapsed there is no interest to pay.
#[verifier::rlimit(100)]
pub proof fn lemma_open_repay_withdraw_close_round_trip(
    pre: StateView,
    lender: u64,
    collateral: i128,
    asset_lent: i128,
    prices: OraclePrices,
    now: u64,
    current_ledger: u32,
)
    requires
        pre.wf(),
        prices.wf(),
        lender != pre.contract,
        !pre.cdps.contains_key(lender),
        balance_of(pre.balances, lender) >= 0,
        balance_of(pre.native.balances, pre.contract) >= 0,
        pre.open_cdp_model(lender, collateral, asset_lent, prices, now).1 is Ok,
    ensures
        ({
            let (s1, _) = pre.open_cdp_model(lender, collateral, asset_lent, prices, now);
            let (s2, r2) = s1.repay_debt_model(lender, asset_lent, prices, now, current_ledger);
            let (s3, r3) = s2.withdraw_collateral_model(lender, collateral, prices, now);
            let (s4, r4) = s3.close_cdp_model(lender);
            &&& r2 is Ok
            &&& r3 is Ok
            &&& r4 is Ok
            &&& forall|k: u64|
                balance_of(#[trigger] s4.balances, k) == balance_of(pre.balances, k)
            &&& forall|k: u64|
                balance_of(#[trigger] s4.native.balances, k) == balance_of(
                    pre.native.balances,
                    k,
                )
            &&& s4.cdps =~= pre.cdps
            &&& s4.positions == pre.positions
            &&& s4.store == pre.store
        }),
{
    let (s1, r1) = pre.open_cdp_model(lender, collateral, asset_lent, prices, now);
    let cdp = CDPInternal::new_spec(collateral, asset_lent, now);
    assert(s1.cdps[lender] == cdp);
    let (s2, r2) = s1.repay_debt_model(lender, asset_lent, prices, now, current_ledger);
    assert(r2 is Ok);
    let (s3, r3) = s2.withdraw_collateral_model(lender, collateral, prices, now);
    assert(r3 is Ok);
    let (s4, r4) = s3.close_cdp_model(lender);
    assert(r4 is Ok);
    assert(s4.cdps =~= pre.cdps);
}

/// Integer division distributes over a sum only up to its lost remainders.
proof fn lemma_div_sum_le(x: int, y: int, m: int)
    requires
        0 <= x,
        0 <= y,
        0 < m,
    ensures
        x / m + y / m <= (x + y) / m,
{
    vstd::arithmetic::div_mod::lemma_fundamental_div_mod(x, m);
    vstd::arithmetic::div_mod::lemma_fundamental_div_mod(y, m);
    vstd::arithmetic::div_mod::lemma_fundamental_div_mod(x + y, m);
    let shortfall = (x + y) / m - x / m - y / m;
    assert(m * shortfall == x % m + y % m - (x + y) % m) by (nonlinear_arith)
        requires
            x == m * (x / m) + x % m,
            y == m * (y / m) + y % m,
            x + y == m * ((x + y) / m) + (x + y) % m,
            shortfall == (x + y) / m - x / m - y / m,
    ;
    assert(shortfall >= 0) by (nonlinear_arith)
        requires
            m * shortfall > -m,
            m > 0,
    ;
}

/// Two stakers who anchored their positions at the same pool constants and
/// make up the whole pool receive, after an absorption that earned the pool
/// `k` XLM over their combined deposit, rewards summing to no more than two
/// units above `k`: each payout rounds at most one unit up. The matching
/// lower bound does not hold in general, as the per-unit earning is
/// truncated before it is scaled back by each deposit.
pub proof fn lemma_two_staker_rewards_bounded(v: StateView, s1: u64, s2: u64, k: int)
    requires
        v.wf(),
        s1 != s2,
        v.positions.contains_key(s1),
        v.positions.contains_key(s2),
        k >= 0,
        ({
            let p1 = v.positions[s1];
            let p2 = v.positions[s2];
            &&& p1.epoch == v.store.epoch
            &&& p2.epoch == v.store.epoch
            &&& p1.product_constant == p2.product_constant
            &&& p1.compounded_constant == p2.compounded_constant
            &&& p1.xasset_deposit + p2.xasset_deposit > 0
            &&& v.store.compounded_constant == p1.compounded_constant + (k
                * p1.product_constant) / (p1.xasset_deposit + p2.xasset_deposit as int)
        }),
    ensures
        ({
            match (v.rewards_calc(v.positions[s1]), v.rewards_calc(v.positions[s2])) {
                (Ok(r1), Ok(r2)) => 0 <= r1 + r2 <= k + 2,
                _ => true,
            }
        }),
{
    let p1 = v.positions[s1];
    let p2 = v.positions[s2];
    assert(v.position_wf(p1));
    assert(v.position_wf(p2));
    let p0 = p1.product_constant as int;
    let d1 = p1.xasset_deposit as int;
    let d2 = p2.xasset_deposit as int;
    let t = d1 + d2;
    let growth = (k * p0) / t;
    assert(k * p0 >= 0) by (nonlinear_arith)
        requires
            k >= 0,
            p0 >= 1,
    ;
    vstd::arithmetic::div_mod::lemma_div_pos_is_pos(k * p0, t);
    if v.rewards_calc(p1) is Ok && v.rewards_calc(p2) is Ok {
        let x1 = DEFAULT_PRECISION * d1 * growth;
        let x2 = DEFAULT_PRECISION * d2 * growth;
        assert(x1 >= 0 && x2 >= 0) by (nonlinear_arith)
            requires
                x1 == DEFAULT_PRECISION * d1 * growth,
                x2 == DEFAULT_PRECISION * d2 * growth,
                d1 >= 0,
                d2 >= 0,
                growth >= 0,
        ;
        let r1 = v.rewards_calc(p1).unwrap();
        let r2 = v.rewards_calc(p2).unwrap();
        vstd::arithmetic::div_mod::lemma_div_pos_is_pos(x1, p0);
        vstd::arithmetic::div_mod::lemma_div_pos_is_pos(x2, p0);
        vstd::arithmetic::div_mod::lemma_div_pos_is_pos(x1 / p0, DEFAULT_PRECISION as int);
        vstd::arithmetic::div_mod::lemma_div_pos_is_pos(x2 / p0, DEFAULT_PRECISION as int);
        assert(r1 <= (x1 / p0) / (DEFAULT_PRECISION as int) + 1);
        assert(r2 <= (x2 / p0) / (DEFAULT_PRECISION as int) + 1);
        let m = p0 * DEFAULT_PRECISION;
        vstd::arithmetic::div_mod::lemma_div_denominator(x1, p0, DEFAULT_PRECISION as int);
        vstd::arithmetic::div_mod::lemma_div_denominator(x2, p0, DEFAULT_PRECISION as int);
        lemma_div_sum_le(x1, x2, m);
        let cap = DEFAULT_PRECISION * k * p0;
        assert(x1 + x2 <= cap) by (nonlinear_arith)
            requires
                x1 == DEFAULT_PRECISION * d1 * growth,
                x2 == DEFAULT_PRECISION * d2 * growth,
                cap == DEFAULT_PRECISION * k * p0,
                t == d1 + d2,
                t * growth <= k * p0,
                growth >= 0,
                d1 >= 0,
                d2 >= 0,
        ;
        assert(t * growth <= k * p0) by {
            vstd::arithmetic::div_mod::lemma_fundamental_div_mod(k * p0, t);
            assert(t * growth <= k * p0) by (nonlinear_arith)
                requires
                    k * p0 == t * ((k * p0) / t) + (k * p0) % t,
                    growth == (k * p0) / t,
                    (k * p0) % t >= 0,
            ;
        }
        vstd::arithmetic::div_mod::lemma_div_is_ordered(x1 + x2, cap, m);
        assert(cap == m * k) by (nonlinear_arith)
            requires
                cap == DEFAULT_PRECISION * k * p0,
                m == p0 * DEFAULT_PRECISION,
        ;
        vstd::arithmetic::div_mod::lemma_div_multiples_vanish(k, m);
        assert(r1 + r2 <= k + 2);
        assert(r1 >= 0 && r2 >= 0);
    }
}

/// An approval whose expiry precedes the current ledger is rejected, on
/// the xAsset ledger and on the reserve ledger alike.
pub proof fn lemma_stale_approval_rejected(
    pre: StateView,
    from: u64,
    spender: u64,
    amount: i128,
    live_until_ledger: u32,
    current_ledger: u32,
)
    requires
        amount > 0,
        live_until_ledger < current_ledger,
    ensures
        pre.approve_model(from, spender, amount, live_until_ledger, current_ledger) == (
            pre,
            Err::<(), Error>(Error::InvalidLedgerSequence),
        ),
        crate::native::native_approve_model(
            pre.native,
            from,
            spender,
            amount,
            live_until_ledger,
            current_ledger,
        ) == (pre.native, Err::<(), Error>(Error::InvalidLedgerSequence)),
{
}

} // verus!
