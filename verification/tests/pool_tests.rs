use xasset::collateralized::CDPStatus;
use xasset::error::Error;
use xasset::oracle::{OraclePrices, PriceData};
use xasset::token::TokenContract;

const CONTRACT: u64 = 100;
const ALICE: u64 = 1;
const BOB: u64 = 2;
const CAROL: u64 = 3;

fn create_token_contract() -> TokenContract {
    TokenContract::new(
        CONTRACT,
        200,
        201,
        202,
        String::from("USDT"),
        11000,
        String::from("United States Dollar xAsset"),
        String::from("xUSD"),
        7,
        1100,
    )
}

fn prices(xlm_price: i128, asset_price: i128) -> OraclePrices {
    OraclePrices {
        xlm: PriceData { price: xlm_price, timestamp: 1000 },
        xlm_decimals: 14,
        asset: PriceData { price: asset_price, timestamp: 1000 },
        asset_decimals: 14,
    }
}

#[test]
fn test_stability_pool() {
    let mut token = create_token_contract();

    token.mint(ALICE, 1000_0000000).unwrap();
    token.mint(BOB, 1000_0000000).unwrap();
    token.native_mint(ALICE, 10_0000000).unwrap();
    token.native_mint(BOB, 10_0000000).unwrap();

    token.stake(ALICE, 500_0000000).unwrap();
    token.stake(BOB, 700_0000000).unwrap();

    assert_eq!(token.get_staker_deposit_amount(ALICE).unwrap(), 500_0000000);
    assert_eq!(token.get_staker_deposit_amount(BOB).unwrap(), 700_0000000);

    assert_eq!(token.get_total_xasset(), 1200_0000000);

    token.withdraw(ALICE, 200_0000000).unwrap();

    assert_eq!(token.get_staker_deposit_amount(ALICE).unwrap(), 300_0000000);
}

#[test]
fn test_stake_errors() {
    let mut token = create_token_contract();

    token.mint(ALICE, 1000).unwrap();
    token.native_mint(ALICE, 10_0000000).unwrap();

    assert_eq!(token.stake(ALICE, 0), Err(Error::ValueNotPositive));
    assert_eq!(token.stake(ALICE, 2000), Err(Error::InsufficientBalance));

    token.stake(ALICE, 500).unwrap();
    assert_eq!(token.stake(ALICE, 100), Err(Error::StakeAlreadyExists));

    assert_eq!(token.withdraw(BOB, 100), Err(Error::StakeDoesntExist));
    assert_eq!(token.withdraw(ALICE, 600), Err(Error::InsufficientStake));
    assert_eq!(
        token.get_staker_deposit_amount(BOB),
        Err(Error::StakeDoesntExist)
    );

    // Staking costs XLM: without reserve funds the fee cannot move.
    token.mint(BOB, 1000).unwrap();
    assert_eq!(token.stake(BOB, 500), Err(Error::XLMTransferFailed));
}

#[test]
fn test_stake_unstake_round_trip() {
    let mut token = create_token_contract();

    token.mint(ALICE, 1000_0000000).unwrap();
    token.native_mint(ALICE, 10_0000000).unwrap();
    let native_before = token.native_balance(ALICE);

    token.stake(ALICE, 500_0000000).unwrap();
    token.unstake(ALICE).unwrap();

    assert_eq!(token.balance(ALICE), 1000_0000000);
    // The round trip costs the stake fee less the unstake refund.
    assert_eq!(
        token.native_balance(ALICE),
        native_before - 70_000_000 + 20_000_000
    );
    assert_eq!(token.get_total_xasset(), 0);
    assert_eq!(
        token.get_position(ALICE).unwrap_err(),
        Error::StakeDoesntExist
    );
}

#[test]
fn test_stability_pool_absorption() {
    let mut token = create_token_contract();
    let quote = prices(100_000_000_000_000, 100_000_000_000_000);
    let now: u64 = 1000;

    // Two stakers deposit 500 and 700 units.
    token.mint(ALICE, 500).unwrap();
    token.mint(BOB, 700).unwrap();
    token.native_mint(ALICE, 10_0000000).unwrap();
    token.native_mint(BOB, 10_0000000).unwrap();
    token.stake(ALICE, 500).unwrap();
    token.stake(BOB, 700).unwrap();
    assert_eq!(token.get_total_xasset(), 1200);

    // A frozen CDP with debt 1000 and collateral 2000.
    token.native_mint(CAROL, 10_000).unwrap();
    token.open_cdp(CAROL, 2000, 1000, &quote, now).unwrap();
    token.set_min_collat_ratio(30000);
    token.freeze_cdp(CAROL, &quote, now).unwrap();

    let (debt_cleared, collateral_released, status) =
        token.liquidate_cdp(CAROL, &quote).unwrap();
    assert_eq!(debt_cleared, 1000);
    assert_eq!(collateral_released, 2000);
    assert_eq!(status, CDPStatus::Closed);
    assert_eq!(token.get_total_xasset(), 200);
    assert_eq!(token.get_total_collateral(), 2000);

    // Effective deposits scale by (1200 - 1000) / 1200.
    assert_eq!(token.get_staker_deposit_amount(ALICE).unwrap(), 83);
    assert_eq!(token.get_staker_deposit_amount(BOB).unwrap(), 117);

    // Deposits and withdrawals must wait for reward claims.
    token.mint(ALICE, 100).unwrap();
    assert_eq!(token.deposit(ALICE, 50), Err(Error::ClaimRewardsFirst));
    assert_eq!(token.withdraw(ALICE, 10), Err(Error::ClaimRewardsFirst));

    // Rewards distribute the 2000 released units proportionally.
    let alice_native = token.native_balance(ALICE);
    let bob_native = token.native_balance(BOB);
    let alice_reward = token.claim_rewards(ALICE).unwrap();
    let bob_reward = token.claim_rewards(BOB).unwrap();
    assert_eq!(alice_reward, 833);
    assert_eq!(bob_reward, 1167);
    assert_eq!(alice_reward + bob_reward, 2000);
    assert_eq!(token.native_balance(ALICE), alice_native + 833);
    assert_eq!(token.native_balance(BOB), bob_native + 1167);
    assert_eq!(token.get_total_collateral(), 0);

    // With rewards claimed, the position can grow again.
    token.deposit(ALICE, 50).unwrap();
    assert_eq!(token.get_staker_deposit_amount(ALICE).unwrap(), 133);
}

#[test]
fn test_epoch_roll_on_full_absorption() {
    let mut token = create_token_contract();
    let quote = prices(100_000_000_000_000, 100_000_000_000_000);
    let now: u64 = 1000;

    token.mint(ALICE, 1000).unwrap();
    token.native_mint(ALICE, 10_0000000).unwrap();
    token.stake(ALICE, 1000).unwrap();

    token.native_mint(BOB, 10_000).unwrap();
    token.open_cdp(BOB, 2000, 1000, &quote, now).unwrap();
    token.set_min_collat_ratio(30000);
    token.freeze_cdp(BOB, &quote, now).unwrap();

    let (debt_cleared, collateral_released, status) =
        token.liquidate_cdp(BOB, &quote).unwrap();
    assert_eq!((debt_cleared, collateral_released), (1000, 2000));
    assert_eq!(status, CDPStatus::Closed);

    // The pool drained to zero: the epoch rolled and the constants reset.
    assert_eq!(token.get_total_xasset(), 0);
    let constants = token.get_constants();
    assert_eq!(constants.epoch, 1);
    assert_eq!(constants.product_constant, 1_000_000_000);
    assert_eq!(constants.compounded_constant, 0);

    // The staker's effective deposit is gone, but the historical reward is
    // still computable and claimable.
    assert_eq!(token.get_staker_deposit_amount(ALICE).unwrap(), 0);
    let available = token.get_available_assets(ALICE).unwrap();
    assert_eq!(available.available_xasset, 0);
    assert_eq!(available.available_rewards, 2000);
    assert_eq!(token.claim_rewards(ALICE).unwrap(), 2000);
}

#[test]
fn test_liquidation_settles_interest_first() {
    let mut token = create_token_contract();
    let quote = prices(100_000_000_000_000, 100_000_000_000_000);
    let open_at: u64 = 1;

    // A CDP that accrues interest for a year before freezing.
    token.native_mint(BOB, 10_000_000_000).unwrap();
    token
        .open_cdp(BOB, 1_000_000_000, 500_000_000, &quote, open_at)
        .unwrap();
    let later = open_at + 31_536_000;
    token.set_min_collat_ratio(30000);
    token.freeze_cdp(BOB, &quote, later).unwrap();
    let frozen = token.cdp(BOB, &quote, later).unwrap();
    assert_eq!(frozen.accrued_interest.amount, 55_000_000);

    // A small pool: all of it is consumed by interest, and the principal
    // step is never reached.
    token.mint(ALICE, 10_000_000).unwrap();
    token.native_mint(ALICE, 10_0000000).unwrap();
    token.stake(ALICE, 10_000_000).unwrap();

    let (debt_cleared, collateral_released, status) =
        token.liquidate_cdp(BOB, &quote).unwrap();
    assert_eq!((debt_cleared, collateral_released), (0, 0));
    assert_eq!(status, CDPStatus::Frozen);
    assert_eq!(token.get_total_xasset(), 0);
    let cdp = token.cdp(BOB, &quote, later).unwrap();
    assert_eq!(cdp.accrued_interest.amount, 45_000_000);
    assert_eq!(cdp.asset_lent, 500_000_000);
}

#[test]
fn test_liquidating_against_empty_pool() {
    let mut token = create_token_contract();
    let quote = prices(100_000_000_000_000, 100_000_000_000_000);
    let now: u64 = 1000;

    token.native_mint(BOB, 10_000).unwrap();
    token.open_cdp(BOB, 2000, 1000, &quote, now).unwrap();
    token.set_min_collat_ratio(30000);
    token.freeze_cdp(BOB, &quote, now).unwrap();

    assert_eq!(
        token.liquidate_cdp(BOB, &quote).unwrap(),
        (0, 0, CDPStatus::Frozen)
    );
    let cdp = token.cdp(BOB, &quote, now).unwrap();
    assert_eq!(cdp.xlm_deposited, 2000);
    assert_eq!(cdp.asset_lent, 1000);
}

#[test]
fn test_partial_absorption_keeps_cdp_frozen() {
    let mut token = create_token_contract();
    let quote = prices(100_000_000_000_000, 100_000_000_000_000);
    let now: u64 = 1000;

    token.mint(ALICE, 600).unwrap();
    token.native_mint(ALICE, 10_0000000).unwrap();
    token.stake(ALICE, 600).unwrap();

    token.native_mint(BOB, 10_000).unwrap();
    token.open_cdp(BOB, 2000, 1000, &quote, now).unwrap();
    token.set_min_collat_ratio(30000);
    token.freeze_cdp(BOB, &quote, now).unwrap();

    let (debt_cleared, collateral_released, status) =
        token.liquidate_cdp(BOB, &quote).unwrap();
    assert_eq!(debt_cleared, 600);
    // 2000 * 600 / 1000 = 1200 released.
    assert_eq!(collateral_released, 1200);
    assert_eq!(status, CDPStatus::Frozen);

    let cdp = token.cdp(BOB, &quote, now).unwrap();
    assert_eq!(cdp.xlm_deposited, 800);
    assert_eq!(cdp.asset_lent, 400);
    assert_eq!(token.get_total_xasset(), 0);
}
