//! The interest engine: simple proportional accrual in xAsset units over
//! elapsed seconds, at an annual rate in basis points.

use vstd::prelude::*;

use crate::error::Error;
use crate::collateralized::CDPStatus;
use crate::math::{
    bankers_round, bankers_round_spec, lemma_mul_still_overflows, lemma_num_prefix_overflow,
};
use crate::storage::{CDPInternal, Interest};
use crate::{BASIS_POINTS, INTEREST_PRECISION, SECONDS_PER_YEAR};

verus! {

/// Numerator of the interest accrual formula over mathematical integers.
pub open spec fn interest_numerator(asset_lent: int, rate: int, dt: int) -> int {
    asset_lent * rate * dt * INTEREST_PRECISION
}

/// The accrual numerator stays within `i128`.
pub open spec fn interest_fits(asset_lent: int, rate: int, dt: int) -> bool {
    interest_numerator(asset_lent, rate, dt) <= i128::MAX
}

/// Interest newly accrued on a debt of `asset_lent` over `dt` seconds at
/// `rate` basis points per year.
pub open spec fn interest_delta_spec(asset_lent: int, rate: int, dt: int) -> int {
    bankers_round_spec(
        interest_numerator(asset_lent, rate, dt) / (BASIS_POINTS * SECONDS_PER_YEAR as int),
        INTEREST_PRECISION as int,
    )
}

/// Interest projected from `from_time` to `to_time`: the stored figure when
/// no time passed or accrual has not started, otherwise the stored amount
/// plus the newly accrued delta.
pub open spec fn projected_interest_spec(
    cdp: CDPInternal,
    rate: u32,
    from_time: u64,
    to_time: u64,
) -> Result<Interest, Error> {
    if from_time == 0 {
        Ok(Interest::zero())
    } else {
        let dt = if to_time >= from_time {
            to_time - from_time
        } else {
            0
        };
        if dt == 0 {
            Ok(cdp.accrued_interest)
        } else if !interest_fits(cdp.asset_lent as int, rate as int, dt) {
            Err(Error::ArithmeticError)
        } else if cdp.accrued_interest.amount + interest_delta_spec(
            cdp.asset_lent as int,
            rate as int,
            dt,
        ) > i128::MAX {
            Err(Error::ArithmeticError)
        } else {
            Ok(
                Interest {
                    amount: (cdp.accrued_interest.amount + interest_delta_spec(
                        cdp.asset_lent as int,
                        rate as int,
                        dt,
                    )) as i128,
                    paid: cdp.accrued_interest.paid,
                },
            )
        }
    }
}

/// The newly accrued delta is nonnegative for a nonnegative debt.
pub proof fn lemma_interest_delta_nonneg(asset_lent: int, rate: int, dt: int)
    requires
        asset_lent >= 0,
        rate >= 0,
        dt >= 0,
    ensures
        interest_delta_spec(asset_lent, rate, dt) >= 0,
{
    let num = interest_numerator(asset_lent, rate, dt);
    assert(num >= 0) by (nonlinear_arith)
        requires
            num == asset_lent * rate * dt * INTEREST_PRECISION,
            asset_lent >= 0,
            rate >= 0,
            dt >= 0,
    ;
    vstd::arithmetic::div_mod::lemma_div_pos_is_pos(num, BASIS_POINTS * SECONDS_PER_YEAR as int);
}

/// A projection on a valid record yields nonnegative figures.
pub proof fn lemma_projected_interest_nonneg(
    cdp: CDPInternal,
    rate: u32,
    from_time: u64,
    to_time: u64,
)
    requires
        cdp.accrued_interest.amount >= 0,
        cdp.accrued_interest.paid >= 0,
        cdp.asset_lent >= 0,
    ensures
        match projected_interest_spec(cdp, rate, from_time, to_time) {
            Ok(i) => i.amount >= 0 && i.paid >= 0,
            Err(_) => true,
        },
{
    if from_time != 0 {
        let dt = if to_time >= from_time {
            to_time - from_time
        } else {
            0
        };
        if dt != 0 {
            lemma_interest_delta_nonneg(cdp.asset_lent as int, rate as int, dt);
        }
    }
}

/// Project the interest accrued between two instants.
pub fn get_projected_interest(
    cdp: &CDPInternal,
    rate: u32,
    from_time: u64,
    to_time: u64,
) -> (r: Result<Interest, Error>)
    requires
        cdp.asset_lent >= 0,
        cdp.accrued_interest.amount >= 0,
    ensures
        r == projected_interest_spec(*cdp, rate, from_time, to_time),
{
    if from_time == 0 {
        return Ok(Interest::default());
    }
    let time_elapsed = if to_time >= from_time {
        to_time - from_time
    } else {
        0
    };
    if time_elapsed == 0 {
        return Ok(cdp.accrued_interest);
    }
    let ghost dt = time_elapsed as int;
    let rate_i = rate as i128;
    let elapsed_i = time_elapsed as i128;
    let Some(t1) = cdp.asset_lent.checked_mul(rate_i) else {
        proof {
            lemma_num_prefix_overflow(
                cdp.asset_lent as int * rate as int,
                dt,
                INTEREST_PRECISION as int,
            );
        }
        return Err(Error::ArithmeticError);
    };
    let Some(t2) = t1.checked_mul(elapsed_i) else {
        proof {
            lemma_mul_still_overflows(
                cdp.asset_lent as int * rate as int * dt,
                INTEREST_PRECISION as int,
            );
        }
        return Err(Error::ArithmeticError);
    };
    let Some(num) = t2.checked_mul(INTEREST_PRECISION) else {
        return Err(Error::ArithmeticError);
    };
    proof {
        assert(num >= 0) by (nonlinear_arith)
            requires
                num == cdp.asset_lent as int * rate as int * dt * INTEREST_PRECISION as int,
                cdp.asset_lent >= 0,
                rate as int >= 0,
                dt > 0,
        ;
        vstd::arithmetic::div_mod::lemma_div_pos_is_pos(
            num as int,
            BASIS_POINTS * SECONDS_PER_YEAR as int,
        );
        vstd::arithmetic::div_mod::lemma_div_is_ordered_by_denominator(
            num as int,
            1,
            BASIS_POINTS * SECONDS_PER_YEAR as int,
        );
    }
    let denom: i128 = BASIS_POINTS * (SECONDS_PER_YEAR as i128);
    let interest_amount = bankers_round(num / denom, INTEREST_PRECISION);
    let Some(amount) = cdp.accrued_interest.amount.checked_add(interest_amount) else {
        return Err(Error::ArithmeticError);
    };
    Ok(Interest { amount, paid: cdp.accrued_interest.paid })
}

/// The interest figure a recomputation settles into the record at `now`:
/// nothing before accrual starts, the stored figure unchanged once frozen,
/// and the projection from the last settlement otherwise.
pub open spec fn updated_interest_spec(cdp: CDPInternal, rate: u32, now: u64) -> Result<
    (Interest, u64),
    Error,
> {
    if cdp.last_interest_time == 0 {
        Ok((Interest::zero(), now))
    } else if cdp.status == CDPStatus::Closed || cdp.status == CDPStatus::Frozen {
        Ok((cdp.accrued_interest, now))
    } else {
        match projected_interest_spec(cdp, rate, cdp.last_interest_time, now) {
            Ok(i) => Ok((i, now)),
            Err(e) => Err(e),
        }
    }
}

/// Accrual that has not started yields zero interest.
pub proof fn lemma_fresh_record_no_interest(cdp: CDPInternal, rate: u32, now: u64)
    requires
        cdp.last_interest_time == 0,
    ensures
        updated_interest_spec(cdp, rate, now) == Ok::<_, Error>((Interest::zero(), now)),
        projected_interest_spec(cdp, rate, 0, now) == Ok::<_, Error>(Interest::zero()),
{
}

/// Recompute the interest owed by a record as of `now`.
pub fn get_updated_accrued_interest(cdp: &CDPInternal, rate: u32, now: u64) -> (r: Result<
    (Interest, u64),
    Error,
>)
    requires
        cdp.asset_lent >= 0,
        cdp.accrued_interest.amount >= 0,
    ensures
        r == updated_interest_spec(*cdp, rate, now),
{
    if cdp.last_interest_time == 0 {
        return Ok((Interest::default(), now));
    }
    if matches!(cdp.status, CDPStatus::Closed) || matches!(cdp.status, CDPStatus::Frozen) {
        return Ok((cdp.accrued_interest, now));
    }
    match get_projected_interest(cdp, rate, cdp.last_interest_time, now) {
        Ok(i) => Ok((i, now)),
        Err(e) => Err(e),
    }
}

} // verus!
