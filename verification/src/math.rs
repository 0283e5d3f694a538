//! Decimal-aware price mathematics: banker's rounding, powers of ten, the
//! collateralization ratio, and the xAsset-to-XLM conversion.

use vstd::prelude::*;

use crate::{BASIS_POINTS, DEFAULT_PRECISION};

verus! {

/// Mathematical power of ten.
pub open spec fn pow10(n: nat) -> int
    decreases n,
{
    if n == 0 {
        1
    } else {
        10 * pow10((n - 1) as nat)
    }
}

pub proof fn lemma_pow10_positive(n: nat)
    ensures
        pow10(n) >= 1,
    decreases n,
{
    if n > 0 {
        lemma_pow10_positive((n - 1) as nat);
    }
}

pub proof fn lemma_pow10_increases(m: nat, n: nat)
    requires
        m <= n,
    ensures
        pow10(m) <= pow10(n),
    decreases n,
{
    if m < n {
        lemma_pow10_increases(m, (n - 1) as nat);
        lemma_pow10_positive((n - 1) as nat);
    }
}

pub proof fn lemma_pow10_38_fits()
    ensures
        pow10(38) == 100_000_000_000_000_000_000_000_000_000_000_000_000int,
{
    reveal_with_fuel(pow10, 40);
}

/// Ten raised to `n`, computed in `i128`.
pub fn pow10_i128(n: u32) -> (r: i128)
    requires
        n <= 38,
    ensures
        r == pow10(n as nat),
{
    proof {
        lemma_pow10_38_fits();
    }
    let mut acc: i128 = 1;
    let mut i: u32 = 0;
    while i < n
        invariant
            i <= n <= 38,
            acc == pow10(i as nat),
        decreases n - i,
    {
        proof {
            lemma_pow10_positive(i as nat);
            assert(pow10((i + 1) as nat) == 10 * pow10(i as nat));
            lemma_pow10_increases((i + 1) as nat, 38);
            lemma_pow10_38_fits();
        }
        acc = acc * 10;
        i = i + 1;
    }
    acc
}

/// Half-to-even rounding of `value / precision`, for a nonnegative value and
/// an even positive precision.
pub open spec fn bankers_round_spec(value: int, precision: int) -> int
    recommends
        value >= 0,
        precision >= 2,
        precision % 2 == 0,
{
    let q = value / precision;
    let r = value % precision;
    let half = precision / 2;
    if r < half {
        q
    } else if r > half {
        q + 1
    } else if q % 2 == 0 {
        q
    } else {
        q + 1
    }
}

/// Round `value` at the given precision, halves to the even quotient.
pub fn bankers_round(value: i128, precision: i128) -> (r: i128)
    requires
        value >= 0,
        precision >= 2,
        precision % 2 == 0,
    ensures
        r == bankers_round_spec(value as int, precision as int),
        (value as int) / (precision as int) <= r <= (value as int) / (precision as int) + 1,
{
    proof {
        vstd::arithmetic::div_mod::lemma_div_is_ordered_by_denominator(
            value as int,
            2,
            precision as int,
        );
        vstd::arithmetic::div_mod::lemma_div_is_ordered(value as int, i128::MAX as int, 2);
    }
    let half = precision / 2;
    let remainder = value % precision;
    let halfway = precision - half;
    let is_middle = remainder == half || remainder == halfway;
    if is_middle {
        if (value / precision) % 2 == 0 {
            value / precision
        } else {
            value / precision + 1
        }
    } else if remainder < half {
        value / precision
    } else {
        value / precision + 1
    }
}

/// Rounding an exact multiple of the precision returns the quotient itself.
pub proof fn lemma_bankers_round_multiple(k: int, p: int)
    requires
        0 <= k,
        2 <= p,
        p % 2 == 0,
    ensures
        bankers_round_spec(k * p, p) == k,
{
    vstd::arithmetic::div_mod::lemma_fundamental_div_mod_converse(k * p, p, k, 0);
}

/// Banker's rounding is monotone in the rounded value.
pub proof fn lemma_bankers_round_monotone(v1: int, v2: int, p: int)
    requires
        0 <= v1 <= v2,
        2 <= p,
        p % 2 == 0,
    ensures
        bankers_round_spec(v1, p) <= bankers_round_spec(v2, p),
{
    vstd::arithmetic::div_mod::lemma_div_is_ordered(v1, v2, p);
    vstd::arithmetic::div_mod::lemma_fundamental_div_mod(v1, p);
    vstd::arithmetic::div_mod::lemma_fundamental_div_mod(v2, p);
}

/// Numerator of the collateralization ratio over mathematical integers.
pub open spec fn ratio_numerator(c_eff: int, xlm_price: int, numer_decimals: nat) -> int {
    c_eff * xlm_price * BASIS_POINTS * pow10(numer_decimals)
}

/// Denominator of the collateralization ratio over mathematical integers.
pub open spec fn ratio_denominator(asset_lent: int, xasset_price: int, denom_decimals: nat) -> int {
    asset_lent * xasset_price * pow10(denom_decimals)
}

/// Collateral counted toward solvency: the deposit less unpaid interest,
/// never below zero.
pub open spec fn effective_collateral(xlm_deposited: int, accrued_interest: int) -> int {
    if xlm_deposited - accrued_interest >= 0 {
        xlm_deposited - accrued_interest
    } else {
        0
    }
}

/// Decimal shift applied to the ratio's numerator.
pub open spec fn ratio_numer_decimals(xlm_decimals: nat, xasset_decimals: nat) -> nat {
    if xlm_decimals >= xasset_decimals {
        0
    } else {
        (xasset_decimals - xlm_decimals) as nat
    }
}

/// Decimal shift applied to the ratio's denominator.
pub open spec fn ratio_denom_decimals(xlm_decimals: nat, xasset_decimals: nat) -> nat {
    if xlm_decimals >= xasset_decimals {
        (xlm_decimals - xasset_decimals) as nat
    } else {
        0
    }
}

/// Collateralization ratio in basis points. A position with no debt or a
/// zero asset price counts as infinitely collateralized; values beyond
/// `u32::MAX` saturate there; deep insolvency (interest at or above the
/// deposit) yields a zero ratio.
pub open spec fn collateralization_ratio_spec(
    asset_lent: int,
    xasset_price: int,
    xlm_deposited: int,
    xlm_price: int,
    xlm_decimals: nat,
    xasset_decimals: nat,
    accrued_interest: int,
) -> u32 {
    if asset_lent == 0 || xasset_price == 0 {
        u32::MAX
    } else {
        let num = ratio_numerator(
            effective_collateral(xlm_deposited, accrued_interest),
            xlm_price,
            ratio_numer_decimals(xlm_decimals, xasset_decimals),
        );
        let den = ratio_denominator(
            asset_lent,
            xasset_price,
            ratio_denom_decimals(xlm_decimals, xasset_decimals),
        );
        let q = num / den;
        if q > u32::MAX {
            u32::MAX
        } else {
            q as u32
        }
    }
}

/// Both sides of the ratio's division stay within `i128`.
pub open spec fn ratio_fits(
    asset_lent: int,
    xasset_price: int,
    xlm_deposited: int,
    xlm_price: int,
    xlm_decimals: nat,
    xasset_decimals: nat,
    accrued_interest: int,
) -> bool {
    asset_lent == 0 || xasset_price == 0 || {
        &&& ratio_numerator(
            effective_collateral(xlm_deposited, accrued_interest),
            xlm_price,
            ratio_numer_decimals(xlm_decimals, xasset_decimals),
        ) <= i128::MAX
        &&& ratio_denominator(
            asset_lent,
            xasset_price,
            ratio_denom_decimals(xlm_decimals, xasset_decimals),
        ) <= i128::MAX
    }
}

/// Collateralization ratio with overflow reported as `None`.
pub fn checked_collateralization_ratio(
    asset_lent: i128,
    xasset_price: i128,
    xlm_deposited: i128,
    xlm_price: i128,
    xlm_decimals: u32,
    xasset_decimals: u32,
    accrued_interest: i128,
) -> (r: Option<u32>)
    requires
        asset_lent >= 0,
        xasset_price >= 0,
        xlm_deposited >= 0,
        xlm_price >= 0,
        accrued_interest >= 0,
        xlm_decimals <= 38,
        xasset_decimals <= 38,
    ensures
        match r {
            Some(v) => {
                &&& ratio_fits(
                    asset_lent as int,
                    xasset_price as int,
                    xlm_deposited as int,
                    xlm_price as int,
                    xlm_decimals as nat,
                    xasset_decimals as nat,
                    accrued_interest as int,
                )
                &&& v == collateralization_ratio_spec(
                    asset_lent as int,
                    xasset_price as int,
                    xlm_deposited as int,
                    xlm_price as int,
                    xlm_decimals as nat,
                    xasset_decimals as nat,
                    accrued_interest as int,
                )
            },
            None => !ratio_fits(
                asset_lent as int,
                xasset_price as int,
                xlm_deposited as int,
                xlm_price as int,
                xlm_decimals as nat,
                xasset_decimals as nat,
                accrued_interest as int,
            ),
        },
{
    if asset_lent == 0 || xasset_price == 0 {
        return Some(u32::MAX);
    }
    let ghost nd = ratio_numer_decimals(xlm_decimals as nat, xasset_decimals as nat);
    let ghost dd = ratio_denom_decimals(xlm_decimals as nat, xasset_decimals as nat);
    let numer_pow = if xlm_decimals >= xasset_decimals {
        pow10_i128(0)
    } else {
        pow10_i128(xasset_decimals - xlm_decimals)
    };
    let denom_pow = if xlm_decimals >= xasset_decimals {
        pow10_i128(xlm_decimals - xasset_decimals)
    } else {
        pow10_i128(0)
    };
    proof {
        lemma_pow10_positive(nd);
        lemma_pow10_positive(dd);
    }
    let ce = if accrued_interest >= xlm_deposited {
        0
    } else {
        xlm_deposited - accrued_interest
    };
    let ghost cei = effective_collateral(xlm_deposited as int, accrued_interest as int);
    let Some(n1) = ce.checked_mul(xlm_price) else {
        proof {
            lemma_num_prefix_overflow(cei * xlm_price, BASIS_POINTS as int, pow10(nd));
        }
        return None;
    };
    let Some(n2) = n1.checked_mul(BASIS_POINTS) else {
        proof {
            lemma_mul_still_overflows(cei * xlm_price * BASIS_POINTS, pow10(nd));
        }
        return None;
    };
    let Some(num) = n2.checked_mul(numer_pow) else {
        return None;
    };
    let Some(d1) = asset_lent.checked_mul(xasset_price) else {
        proof {
            lemma_mul_still_overflows(asset_lent as int * xasset_price as int, pow10(dd));
        }
        return None;
    };
    let Some(den) = d1.checked_mul(denom_pow) else {
        return None;
    };
    proof {
        assert(den >= 1) by (nonlinear_arith)
            requires
                den == asset_lent as int * xasset_price as int * pow10(dd),
                asset_lent >= 1,
                xasset_price >= 1,
                pow10(dd) >= 1,
        ;
        assert(num >= 0) by (nonlinear_arith)
            requires
                num == cei * xlm_price as int * BASIS_POINTS as int * pow10(nd),
                cei >= 0,
                xlm_price >= 0,
                pow10(nd) >= 1,
        ;
    }
    let q = num / den;
    if q > u32::MAX as i128 {
        Some(u32::MAX)
    } else {
        Some(q as u32)
    }
}

/// A nonnegative product that already exceeds `i128::MAX` still exceeds it
/// after further factors of at least one.
pub(crate) proof fn lemma_mul_still_overflows(partial: int, factor: int)
    requires
        partial > i128::MAX,
        factor >= 1,
    ensures
        partial * factor > i128::MAX,
{
    assert(partial * factor >= partial) by (nonlinear_arith)
        requires
            partial > 0,
            factor >= 1,
    ;
}

/// As above, for a prefix two factors short of the full product.
pub(crate) proof fn lemma_num_prefix_overflow(partial: int, f1: int, f2: int)
    requires
        partial > i128::MAX,
        f1 >= 1,
        f2 >= 1,
    ensures
        partial * f1 * f2 > i128::MAX,
{
    lemma_mul_still_overflows(partial, f1);
    lemma_mul_still_overflows(partial * f1, f2);
}

/// Collateralization ratio in basis points, for inputs whose products fit.
pub fn calculate_collateralization_ratio(
    asset_lent: i128,
    xasset_price: i128,
    xlm_deposited: i128,
    xlm_price: i128,
    xlm_decimals: u32,
    xasset_decimals: u32,
    accrued_interest: i128,
) -> (r: u32)
    requires
        asset_lent >= 0,
        xasset_price >= 0,
        xlm_deposited >= 0,
        xlm_price >= 0,
        accrued_interest >= 0,
        xlm_decimals <= 38,
        xasset_decimals <= 38,
        ratio_fits(
            asset_lent as int,
            xasset_price as int,
            xlm_deposited as int,
            xlm_price as int,
            xlm_decimals as nat,
            xasset_decimals as nat,
            accrued_interest as int,
        ),
    ensures
        r == collateralization_ratio_spec(
            asset_lent as int,
            xasset_price as int,
            xlm_deposited as int,
            xlm_price as int,
            xlm_decimals as nat,
            xasset_decimals as nat,
            accrued_interest as int,
        ),
{
    let r = checked_collateralization_ratio(
        asset_lent,
        xasset_price,
        xlm_deposited,
        xlm_price,
        xlm_decimals,
        xasset_decimals,
        accrued_interest,
    );
    match r {
        Some(v) => v,
        None => {
            // Unreachable: the fits precondition covers every overflow.
            proof {
                assert(false);
            }
            0
        },
    }
}

/// A position with no outstanding debt is infinitely collateralized.
pub proof fn lemma_zero_debt_infinite_ratio(
    xasset_price: int,
    xlm_deposited: int,
    xlm_price: int,
    xlm_decimals: nat,
    xasset_decimals: nat,
    accrued_interest: int,
)
    ensures
        collateralization_ratio_spec(
            0,
            xasset_price,
            xlm_deposited,
            xlm_price,
            xlm_decimals,
            xasset_decimals,
            accrued_interest,
        ) == u32::MAX,
{
}

/// Numerator of the xAsset-to-XLM conversion over mathematical integers.
pub open spec fn convert_numerator(
    amount: int,
    asset_price: int,
    xlm_decimals: nat,
    xasset_decimals: nat,
) -> int
    recommends
        xasset_decimals <= xlm_decimals,
{
    amount * asset_price * DEFAULT_PRECISION * pow10((xlm_decimals - xasset_decimals) as nat)
}

/// The conversion numerator stays within `i128`.
pub open spec fn convert_fits(
    amount: int,
    asset_price: int,
    xlm_decimals: nat,
    xasset_decimals: nat,
) -> bool {
    convert_numerator(amount, asset_price, xlm_decimals, xasset_decimals) <= i128::MAX
}

/// Value in XLM of `amount` xAsset at the given prices: the scaled cross
/// price, banker's-rounded back to the default precision.
pub open spec fn convert_to_xlm_spec(
    amount: int,
    asset_price: int,
    xlm_price: int,
    xlm_decimals: nat,
    xasset_decimals: nat,
) -> int
    recommends
        xlm_price > 0,
        xasset_decimals <= xlm_decimals,
{
    bankers_round_spec(
        convert_numerator(amount, asset_price, xlm_decimals, xasset_decimals) / xlm_price,
        DEFAULT_PRECISION as int,
    )
}

/// Convert an xAsset amount to XLM; overflow is reported as `None`.
pub fn checked_convert_to_xlm(
    amount: i128,
    asset_price: i128,
    xlm_price: i128,
    xlm_decimals: u32,
    xasset_decimals: u32,
) -> (r: Option<i128>)
    requires
        amount >= 0,
        asset_price >= 0,
        xlm_price > 0,
        xasset_decimals <= xlm_decimals,
        xlm_decimals <= 38,
    ensures
        match r {
            Some(v) => {
                &&& convert_fits(
                    amount as int,
                    asset_price as int,
                    xlm_decimals as nat,
                    xasset_decimals as nat,
                )
                &&& v == convert_to_xlm_spec(
                    amount as int,
                    asset_price as int,
                    xlm_price as int,
                    xlm_decimals as nat,
                    xasset_decimals as nat,
                )
                &&& v >= 0
            },
            None => !convert_fits(
                amount as int,
                asset_price as int,
                xlm_decimals as nat,
                xasset_decimals as nat,
            ),
        },
{
    let ghost e = (xlm_decimals - xasset_decimals) as nat;
    let shift = pow10_i128(xlm_decimals - xasset_decimals);
    proof {
        lemma_pow10_positive(e);
    }
    let Some(t1) = amount.checked_mul(asset_price) else {
        proof {
            lemma_num_prefix_overflow(
                amount as int * asset_price as int,
                DEFAULT_PRECISION as int,
                pow10(e),
            );
        }
        return None;
    };
    let Some(t2) = t1.checked_mul(DEFAULT_PRECISION) else {
        proof {
            lemma_mul_still_overflows(
                amount as int * asset_price as int * DEFAULT_PRECISION as int,
                pow10(e),
            );
        }
        return None;
    };
    let Some(num) = t2.checked_mul(shift) else {
        return None;
    };
    proof {
        assert(num >= 0) by (nonlinear_arith)
            requires
                num == amount as int * asset_price as int * DEFAULT_PRECISION as int * pow10(e),
                amount >= 0,
                asset_price >= 0,
                pow10(e) >= 1,
        ;
        vstd::arithmetic::div_mod::lemma_div_pos_is_pos(num as int, xlm_price as int);
        vstd::arithmetic::div_mod::lemma_div_is_ordered_by_denominator(
            num as int,
            1,
            xlm_price as int,
        );
    }
    let scaled = num / xlm_price;
    Some(bankers_round(scaled, DEFAULT_PRECISION))
}

/// Converting a zero amount yields zero XLM.
pub proof fn lemma_convert_zero(
    asset_price: int,
    xlm_price: int,
    xlm_decimals: nat,
    xasset_decimals: nat,
)
    requires
        xlm_price > 0,
        asset_price >= 0,
        xasset_decimals <= xlm_decimals,
    ensures
        convert_to_xlm_spec(0, asset_price, xlm_price, xlm_decimals, xasset_decimals) == 0,
        convert_fits(0, asset_price, xlm_decimals, xasset_decimals),
{
    let e = (xlm_decimals - xasset_decimals) as nat;
    lemma_pow10_positive(e);
    assert(convert_numerator(0, asset_price, xlm_decimals, xasset_decimals) == 0)
        by (nonlinear_arith);
    vstd::arithmetic::div_mod::lemma_div_of0(xlm_price);
    assert(bankers_round_spec(0, DEFAULT_PRECISION as int) == 0);
}

} // verus!
