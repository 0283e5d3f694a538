use xasset::error::Error;
use xasset::liquidity::{get_deposit_amounts, LiquidityError};
use xasset::math::{
    bankers_round, calculate_collateralization_ratio, checked_collateralization_ratio,
    checked_convert_to_xlm,
};
use xasset::oracle::{decimals_from_feed, price_from_feed, PriceData};

#[test]
fn test_bankers_round_half_to_even() {
    // Halves round to the even quotient.
    assert_eq!(bankers_round(25, 10), 2);
    assert_eq!(bankers_round(35, 10), 4);
    // Ordinary cases round to nearest.
    assert_eq!(bankers_round(24, 10), 2);
    assert_eq!(bankers_round(26, 10), 3);
    // Exact multiples are unchanged.
    assert_eq!(bankers_round(30, 10), 3);
    assert_eq!(bankers_round(0, 10), 0);
}

#[test]
fn test_collateralization_ratio() {
    // 10000 * 1_700_000_000 * 10^13 / (100_000_000 * 10^14) = 17000.
    assert_eq!(
        calculate_collateralization_ratio(
            100_000_000,
            100_000_000_000_000,
            1_700_000_000,
            10_000_000_000_000,
            14,
            14,
            0,
        ),
        17000
    );
    // Unpaid interest reduces the effective collateral.
    assert_eq!(
        calculate_collateralization_ratio(
            100_000_000,
            100_000_000_000_000,
            1_700_000_000,
            10_000_000_000_000,
            14,
            14,
            700_000_000,
        ),
        10000
    );
    // Interest at or above the deposit leaves nothing counted.
    assert_eq!(
        calculate_collateralization_ratio(
            100_000_000,
            100_000_000_000_000,
            1_700_000_000,
            10_000_000_000_000,
            14,
            14,
            1_700_000_000,
        ),
        0
    );
    // Without debt the position is infinitely collateralized.
    assert_eq!(
        calculate_collateralization_ratio(
            0,
            100_000_000_000_000,
            1_700_000_000,
            10_000_000_000_000,
            14,
            14,
            0,
        ),
        u32::MAX
    );
    // A zero asset price counts the same way.
    assert_eq!(
        calculate_collateralization_ratio(100_000_000, 0, 1_700_000_000, 1, 14, 14, 0),
        u32::MAX
    );
    // Differing feed decimals shift the denominator: a price of 10^13 on a
    // 13-decimal feed means the same as 10^14 on a 14-decimal feed.
    assert_eq!(
        calculate_collateralization_ratio(
            100_000_000,
            10_000_000_000_000,
            1_700_000_000,
            10_000_000_000_000,
            14,
            13,
            0,
        ),
        17_000
    );
    // Overflowing products are reported rather than computed.
    assert_eq!(
        checked_collateralization_ratio(1, i128::MAX, i128::MAX, i128::MAX, 14, 14, 0),
        None
    );
}

#[test]
fn test_convert_xasset_to_xlm() {
    // One unit of the asset at a tenfold price difference.
    assert_eq!(
        checked_convert_to_xlm(
            100_000_000,
            100_000_000_000_000,
            10_000_000_000_000,
            14,
            14,
        ),
        Some(1_000_000_000)
    );
    assert_eq!(
        checked_convert_to_xlm(0, 100_000_000_000_000, 10_000_000_000_000, 14, 14),
        Some(0)
    );
    assert_eq!(
        checked_convert_to_xlm(i128::MAX, i128::MAX, 1, 14, 14),
        None
    );
}

#[test]
fn test_oracle_flattening() {
    let data = PriceData { price: 42, timestamp: 7 };
    assert_eq!(price_from_feed(Some(data)), Ok(data));
    assert_eq!(price_from_feed(None), Err(Error::OraclePriceFetchFailed));
    assert_eq!(decimals_from_feed(Some(14)), Ok(14));
    assert_eq!(
        decimals_from_feed(None),
        Err(Error::OracleDecimalsFetchFailed)
    );
}

#[test]
fn test_get_deposit_amounts() {
    // Empty reserves take the desired amounts as they are.
    assert_eq!(get_deposit_amounts(10, 1, 20, 1, 0, 0), Ok((10, 20)));
    // The pair is scaled to the reserve ratio.
    assert_eq!(get_deposit_amounts(10, 0, 30, 0, 100, 200), Ok((10, 20)));
    assert_eq!(get_deposit_amounts(10, 0, 10, 0, 100, 200), Ok((5, 10)));
    // Minimums are enforced.
    assert_eq!(
        get_deposit_amounts(10, 0, 30, 25, 100, 200),
        Err(LiquidityError::MinimumNotSatisfied)
    );
    assert_eq!(
        get_deposit_amounts(10, 11, 10, 0, 100, 200),
        Err(LiquidityError::InvalidAAmount)
    );
}
