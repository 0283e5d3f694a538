use xasset::collateralized::CDPStatus;
use xasset::error::Error;
use xasset::oracle::{OraclePrices, PriceData};
use xasset::token::TokenContract;

const CONTRACT: u64 = 100;
const ALICE: u64 = 1;
const BOB: u64 = 2;
const CAROL: u64 = 3;

fn create_token_contract() -> TokenContract {
    TokenContract::new(
        CONTRACT,
        200,
        201,
        202,
        String::from("USDT"),
        11000,
        String::from("United States Dollar xAsset"),
        String::from("xUSD"),
        7,
        1100,
    )
}

fn prices(xlm_price: i128, asset_price: i128) -> OraclePrices {
    OraclePrices {
        xlm: PriceData { price: xlm_price, timestamp: 1000 },
        xlm_decimals: 14,
        asset: PriceData { price: asset_price, timestamp: 1000 },
        asset_decimals: 14,
    }
}

#[test]
fn test_cdp_operations() {
    let mut token = create_token_contract();
    let quote = prices(10_000_000_000_000, 100_000_000_000_000);
    let now: u64 = 1000;

    token.native_mint(ALICE, 10_000_000_000).unwrap();
    token.native_mint(BOB, 10_000_000_000).unwrap();

    token.open_cdp(ALICE, 1_700_000_000, 100_000_000, &quote, now).unwrap();
    token.open_cdp(BOB, 1_300_000_000, 100_000_000, &quote, now).unwrap();

    let alice_cdp = token.cdp(ALICE, &quote, now).unwrap();
    let bob_cdp = token.cdp(BOB, &quote, now).unwrap();

    assert_eq!(alice_cdp.xlm_deposited, 1_700_000_000);
    assert_eq!(alice_cdp.asset_lent, 100_000_000);
    assert_eq!(bob_cdp.xlm_deposited, 1_300_000_000);
    assert_eq!(bob_cdp.asset_lent, 100_000_000);
    assert_eq!(alice_cdp.collateralization_ratio, 17000);
    assert_eq!(bob_cdp.collateralization_ratio, 13000);

    assert_eq!(token.set_min_collat_ratio(15000), 15000);
    assert_eq!(token.minimum_collateralization_ratio(), 15000);

    let alice_cdp = token.cdp(ALICE, &quote, now).unwrap();
    let bob_cdp = token.cdp(BOB, &quote, now).unwrap();

    assert_eq!(alice_cdp.status, CDPStatus::Open);
    assert_eq!(bob_cdp.status, CDPStatus::Insolvent);
}

#[test]
fn test_liquidation() {
    let mut token = create_token_contract();
    let quote = prices(100_000_000_000_000, 100_000_000_000_000);
    let now: u64 = 1000;

    token.native_mint(ALICE, 10_000_000_000).unwrap();
    token.open_cdp(ALICE, 1000_0000000, 500_0000000, &quote, now).unwrap();

    let alice_cdp = token.cdp(ALICE, &quote, now).unwrap();
    assert_eq!(alice_cdp.status, CDPStatus::Open);
    assert_eq!(alice_cdp.collateralization_ratio, 20000);
}

#[test]
fn test_error_handling() {
    let token = create_token_contract();
    let quote = prices(100_000_000_000_000, 100_000_000_000_000);

    assert_eq!(
        token.cdp(ALICE, &quote, 1000).unwrap_err(),
        Error::CDPNotFound
    );
}

#[test]
fn test_open_cdp_rejections() {
    let mut token = create_token_contract();
    let quote = prices(100_000_000_000_000, 100_000_000_000_000);
    let now: u64 = 1000;

    assert_eq!(
        token.open_cdp(ALICE, 0, 100, &quote, now),
        Err(Error::ValueNotPositive)
    );

    // Ratio 10000 * 1000 / 1000 = 10000 < 11000.
    token.native_mint(ALICE, 10_000_000_000).unwrap();
    assert_eq!(
        token.open_cdp(ALICE, 1000, 1000, &quote, now),
        Err(Error::InsufficientCollateralization)
    );

    // No reserve balance to move.
    assert_eq!(
        token.open_cdp(BOB, 2000, 1000, &quote, now),
        Err(Error::XLMTransferFailed)
    );

    token.open_cdp(ALICE, 2000, 1000, &quote, now).unwrap();
    assert_eq!(
        token.open_cdp(ALICE, 2000, 1000, &quote, now),
        Err(Error::CDPAlreadyExists)
    );
}

#[test]
fn test_collateral_management() {
    let mut token = create_token_contract();
    let quote = prices(100_000_000_000_000, 100_000_000_000_000);
    let now: u64 = 1000;

    token.native_mint(ALICE, 10_000_000_000).unwrap();
    token.open_cdp(ALICE, 2000, 1000, &quote, now).unwrap();

    token.add_collateral(ALICE, 500, &quote, now).unwrap();
    assert_eq!(token.cdp(ALICE, &quote, now).unwrap().xlm_deposited, 2500);

    assert_eq!(
        token.withdraw_collateral(ALICE, 2600, &quote, now),
        Err(Error::InsufficientCollateral)
    );
    // Withdrawing down to ratio 10000 < 11000 is refused.
    assert_eq!(
        token.withdraw_collateral(ALICE, 1500, &quote, now),
        Err(Error::InvalidWithdrawal)
    );
    token.withdraw_collateral(ALICE, 300, &quote, now).unwrap();
    assert_eq!(token.cdp(ALICE, &quote, now).unwrap().xlm_deposited, 2200);

    token.borrow_xasset(ALICE, 500, &quote, now).unwrap();
    assert_eq!(token.cdp(ALICE, &quote, now).unwrap().asset_lent, 1500);
    assert_eq!(token.balance(ALICE), 1500);
    // Borrowing into insolvency is refused.
    assert_eq!(
        token.borrow_xasset(ALICE, 10_000, &quote, now),
        Err(Error::InsufficientCollateralization)
    );

    assert_eq!(
        token.repay_debt(ALICE, 2000, &quote, now, 10),
        Err(Error::RepaymentExceedsDebt)
    );
    assert_eq!(token.close_cdp(ALICE), Err(Error::OutstandingDebt));
}

#[test]
fn test_freeze_requires_insolvency() {
    let mut token = create_token_contract();
    let quote = prices(100_000_000_000_000, 100_000_000_000_000);
    let now: u64 = 1000;

    token.native_mint(ALICE, 10_000_000_000).unwrap();
    token.open_cdp(ALICE, 2000, 1000, &quote, now).unwrap();

    assert_eq!(
        token.freeze_cdp(ALICE, &quote, now),
        Err(Error::CDPNotInsolvent)
    );

    token.set_min_collat_ratio(30000);
    token.freeze_cdp(ALICE, &quote, now).unwrap();
    let cdp = token.cdp(ALICE, &quote, now).unwrap();
    assert_eq!(cdp.status, CDPStatus::Frozen);

    assert_eq!(
        token.add_collateral(ALICE, 100, &quote, now),
        Err(Error::CDPNotOpenOrInsolvent)
    );
    assert_eq!(
        token.repay_debt(ALICE, 100, &quote, now, 10),
        Err(Error::CDPNotOpenOrInsolventForRepay)
    );
}

#[test]
fn test_liquidate_requires_frozen() {
    let mut token = create_token_contract();
    let quote = prices(100_000_000_000_000, 100_000_000_000_000);
    let now: u64 = 1000;

    token.native_mint(ALICE, 10_000_000_000).unwrap();
    token.open_cdp(ALICE, 2000, 1000, &quote, now).unwrap();

    assert_eq!(
        token.liquidate_cdp(ALICE, &quote),
        Err(Error::InvalidLiquidation)
    );
}

#[test]
fn test_interest_accrual_over_one_year() {
    let mut token = create_token_contract();
    let quote = prices(10_000_000_000_000, 100_000_000_000_000);
    let open_at: u64 = 1;

    token.native_mint(ALICE, 10_000_000_000).unwrap();
    token
        .open_cdp(ALICE, 2_000_000_000, 100_000_000, &quote, open_at)
        .unwrap();

    let one_year_later = open_at + 31_536_000;
    let detail = token
        .get_accrued_interest(ALICE, &quote, one_year_later)
        .unwrap();

    // 100_000_000 * 1100bp over a full year accrues 11% of the principal.
    assert_eq!(detail.amount, 11_000_000);
    assert_eq!(detail.paid, 0);
    assert_eq!(detail.last_interest_time, one_year_later);
    // The approval hint projects five more minutes and is at least the
    // amount currently due in XLM.
    assert!(detail.approval_amount >= detail.amount_in_xlm);
}

#[test]
fn test_unstarted_accrual_stays_zero() {
    let mut token = create_token_contract();
    let quote = prices(10_000_000_000_000, 100_000_000_000_000);

    token.native_mint(ALICE, 10_000_000_000).unwrap();
    // Opening at time zero means accrual has not started.
    token
        .open_cdp(ALICE, 2_000_000_000, 100_000_000, &quote, 0)
        .unwrap();

    let detail = token
        .get_accrued_interest(ALICE, &quote, 31_536_000)
        .unwrap();
    assert_eq!(detail.amount, 0);
    assert_eq!(detail.amount_in_xlm, 0);
}

#[test]
fn test_interest_payment_errors() {
    let mut token = create_token_contract();
    let quote = prices(10_000_000_000_000, 100_000_000_000_000);
    let open_at: u64 = 1;

    token.native_mint(ALICE, 2_000_000_000).unwrap();
    token
        .open_cdp(ALICE, 2_000_000_000, 100_000_000, &quote, open_at)
        .unwrap();
    let later = open_at + 31_536_000;

    // All reserve balance went into the collateral, so the interest cannot
    // be paid.
    assert_eq!(
        token.pay_interest(ALICE, 0, &quote, later, 10),
        Err(Error::InsufficientXLMForInterest)
    );
    assert_eq!(
        token.pay_interest(ALICE, 60_000_000, &quote, later, 10),
        Err(Error::PaymentExceedsInterestDue)
    );

    // With funds but no approved allowance, repayment cannot settle the
    // interest.
    token.native_mint(ALICE, 10_000_000_000).unwrap();
    assert_eq!(
        token.repay_debt(ALICE, 100_000_000, &quote, later, 10),
        Err(Error::InsufficientApprovedXLMForInterestRepayment)
    );
}

#[test]
fn test_pay_interest_settles_accrual() {
    let mut token = create_token_contract();
    let quote = prices(10_000_000_000_000, 100_000_000_000_000);
    let open_at: u64 = 1;

    token.native_mint(ALICE, 100_000_000_000).unwrap();
    token
        .open_cdp(ALICE, 2_000_000_000, 100_000_000, &quote, open_at)
        .unwrap();

    let later = open_at + 31_536_000;
    let detail = token.get_accrued_interest(ALICE, &quote, later).unwrap();
    assert_eq!(detail.amount, 11_000_000);

    let native_before = token.native_balance(ALICE);
    let view = token.pay_interest(ALICE, 0, &quote, later, 10).unwrap();
    assert_eq!(view.accrued_interest.amount, 0);
    assert_eq!(view.accrued_interest.paid, detail.amount_in_xlm);
    assert_eq!(
        token.native_balance(ALICE),
        native_before - detail.amount_in_xlm
    );
    assert_eq!(token.get_total_interest_collected(), detail.amount_in_xlm);
}

#[test]
fn test_repay_closes_cdp() {
    let mut token = create_token_contract();
    let quote = prices(100_000_000_000_000, 100_000_000_000_000);
    let open_at: u64 = 1;
    let ledger: u32 = 10;

    token.native_mint(ALICE, 10_000_000_000).unwrap();
    token
        .open_cdp(ALICE, 1_000_000_000, 500_000_000, &quote, open_at)
        .unwrap();

    let later = open_at + 31_536_000;
    let detail = token.get_accrued_interest(ALICE, &quote, later).unwrap();
    assert_eq!(detail.amount, 55_000_000);

    token
        .native_approve(ALICE, CONTRACT, detail.approval_amount, ledger + 100, ledger)
        .unwrap();
    token
        .repay_debt(ALICE, 500_000_000, &quote, later, ledger)
        .unwrap();

    let cdp = token.cdp(ALICE, &quote, later).unwrap();
    assert_eq!(cdp.asset_lent, 0);
    assert_eq!(cdp.accrued_interest.amount, 0);
    assert_eq!(token.balance(ALICE), 0);
    assert_eq!(token.get_total_interest_collected(), detail.amount_in_xlm);

    token
        .withdraw_collateral(ALICE, 1_000_000_000, &quote, later)
        .unwrap();
    token.close_cdp(ALICE).unwrap();
    assert_eq!(
        token.cdp(ALICE, &quote, later).unwrap_err(),
        Error::CDPNotFound
    );
}

#[test]
fn test_merge_frozen_cdps() {
    let mut token = create_token_contract();
    let quote = prices(100_000_000_000_000, 100_000_000_000_000);
    let now: u64 = 1000;

    token.native_mint(ALICE, 10_000_000_000).unwrap();
    token.native_mint(BOB, 10_000_000_000).unwrap();
    token.native_mint(CAROL, 10_000_000_000).unwrap();

    token
        .open_cdp(ALICE, 2_000_000_000, 100_000_000, &quote, now)
        .unwrap();
    token
        .open_cdp(BOB, 3_000_000_000, 200_000_000, &quote, now)
        .unwrap();
    token
        .open_cdp(CAROL, 1_000_000_000, 100_000_000, &quote, now)
        .unwrap();

    let lenders = vec![ALICE, BOB, CAROL];
    assert_eq!(token.merge_cdps(&lenders, now), Err(Error::InvalidMerge));

    token.set_min_collat_ratio(2_000_000);
    token.freeze_cdp(ALICE, &quote, now).unwrap();
    token.freeze_cdp(BOB, &quote, now).unwrap();
    token.freeze_cdp(CAROL, &quote, now).unwrap();

    assert_eq!(token.merge_cdps(&vec![ALICE], now), Err(Error::InvalidMerge));
    token.merge_cdps(&lenders, now).unwrap();

    let merged = token.cdp(ALICE, &quote, now).unwrap();
    assert_eq!(merged.xlm_deposited, 6_000_000_000);
    assert_eq!(merged.asset_lent, 400_000_000);
    assert_eq!(merged.status, CDPStatus::Frozen);

    assert_eq!(token.cdp(BOB, &quote, now).unwrap_err(), Error::CDPNotFound);
    assert_eq!(
        token.cdp(CAROL, &quote, now).unwrap_err(),
        Error::CDPNotFound
    );
}

#[test]
fn test_open_repay_withdraw_close_round_trip() {
    let mut token = create_token_contract();
    let quote = prices(100_000_000_000_000, 100_000_000_000_000);
    let now: u64 = 1000;

    token.native_mint(ALICE, 5_000).unwrap();
    let native_before = token.native_balance(ALICE);

    token.open_cdp(ALICE, 2_000, 1_000, &quote, now).unwrap();
    token.repay_debt(ALICE, 1_000, &quote, now, 10).unwrap();
    token.withdraw_collateral(ALICE, 2_000, &quote, now).unwrap();
    token.close_cdp(ALICE).unwrap();

    assert_eq!(token.balance(ALICE), 0);
    assert_eq!(token.native_balance(ALICE), native_before);
    assert_eq!(token.cdp(ALICE, &quote, now).unwrap_err(), Error::CDPNotFound);
}
