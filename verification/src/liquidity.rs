//! Proportional deposit sizing for a two-asset liquidity pool: given
//! desired and minimum contributions of each asset and the pool's reserves,
//! choose amounts that keep the reserve ratio.

use vstd::prelude::*;

verus! {

/// Why a deposit sizing was refused.
#[derive(Clone, Copy, Debug, PartialEq, Eq, Structural)]
pub enum LiquidityError {
    /// The ratio-matching amount of the second asset falls below its minimum.
    MinimumNotSatisfied,
    /// The ratio-matching amount of the first asset is unacceptable.
    InvalidAAmount,
}

/// The chosen deposit amounts: the desired contributions against empty
/// reserves, otherwise the pair scaled to the reserve ratio.
pub open spec fn deposit_amounts_spec(
    desired_a: int,
    min_a: int,
    desired_b: int,
    min_b: int,
    reserve_a: int,
    reserve_b: int,
) -> Result<(int, int), LiquidityError> {
    if reserve_a == 0 && reserve_b == 0 {
        Ok((desired_a, desired_b))
    } else {
        let amount_b = desired_a * reserve_b / reserve_a;
        if amount_b <= desired_b {
            if amount_b < min_b {
                Err(LiquidityError::MinimumNotSatisfied)
            } else {
                Ok((desired_a, amount_b))
            }
        } else {
            let amount_a = desired_b * reserve_a / reserve_b;
            if amount_a > desired_a || desired_a < min_a {
                Err(LiquidityError::InvalidAAmount)
            } else {
                Ok((amount_a, desired_b))
            }
        }
    }
}

/// Size a deposit against the pool's reserves.
pub fn get_deposit_amounts(
    desired_a: i128,
    min_a: i128,
    desired_b: i128,
    min_b: i128,
    reserve_a: i128,
    reserve_b: i128,
) -> (r: Result<(i128, i128), LiquidityError>)
    requires
        desired_a >= 0,
        desired_b >= 0,
        min_a >= 0,
        min_b >= 0,
        reserve_a >= 0,
        reserve_b >= 0,
        reserve_a == 0 ==> reserve_b == 0,
        desired_a * reserve_b <= i128::MAX,
        desired_b * reserve_a <= i128::MAX,
    ensures
        match r {
            Ok(v) => deposit_amounts_spec(
                desired_a as int,
                min_a as int,
                desired_b as int,
                min_b as int,
                reserve_a as int,
                reserve_b as int,
            ) == Ok::<(int, int), LiquidityError>((v.0 as int, v.1 as int)),
            Err(e) => deposit_amounts_spec(
                desired_a as int,
                min_a as int,
                desired_b as int,
                min_b as int,
                reserve_a as int,
                reserve_b as int,
            ) == Err::<(int, int), LiquidityError>(e),
        },
{
    if reserve_a == 0 && reserve_b == 0 {
        return Ok((desired_a, desired_b));
    }
    proof {
        assert(desired_a * reserve_b >= 0) by (nonlinear_arith)
            requires
                desired_a >= 0,
                reserve_b >= 0,
        ;
        vstd::arithmetic::div_mod::lemma_div_pos_is_pos(
            desired_a as int * reserve_b as int,
            reserve_a as int,
        );
        vstd::arithmetic::div_mod::lemma_div_is_ordered_by_denominator(
            desired_a as int * reserve_b as int,
            1,
            reserve_a as int,
        );
    }
    let amount_b = (desired_a * reserve_b) / reserve_a;
    if amount_b <= desired_b {
        if amount_b < min_b {
            Err(LiquidityError::MinimumNotSatisfied)
        } else {
            Ok((desired_a, amount_b))
        }
    } else {
        proof {
            if reserve_b == 0 {
                assert(desired_a * reserve_b == 0) by (nonlinear_arith)
                    requires
                        reserve_b == 0,
                ;
                vstd::arithmetic::div_mod::lemma_div_of0(reserve_a as int);
            }
            assert(desired_b * reserve_a >= 0) by (nonlinear_arith)
                requires
                    desired_b >= 0,
                    reserve_a >= 0,
            ;
            vstd::arithmetic::div_mod::lemma_div_pos_is_pos(
                desired_b as int * reserve_a as int,
                reserve_b as int,
            );
            vstd::arithmetic::div_mod::lemma_div_is_ordered_by_denominator(
                desired_b as int * reserve_a as int,
                1,
                reserve_b as int,
            );
        }
        let amount_a = (desired_b * reserve_a) / reserve_b;
        if amount_a > desired_a || desired_a < min_a {
            Err(LiquidityError::InvalidAAmount)
        } else {
            Ok((amount_a, desired_b))
        }
    }
}

} // verus!
