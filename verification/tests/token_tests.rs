use xasset::error::Error;
use xasset::token::TokenContract;

const CONTRACT: u64 = 100;
const ALICE: u64 = 1;
const BOB: u64 = 2;

fn create_token_contract() -> TokenContract {
    TokenContract::new(
        CONTRACT,
        200,
        201,
        202,
        String::from("USDT"),
        11000,
        String::from("United States Dollar xAsset"),
        String::from("xUSD"),
        7,
        1100,
    )
}

#[test]
fn test_token_initialization() {
    let token = create_token_contract();

    assert_eq!(token.symbol().as_str(), "xUSD");
    assert_eq!(token.name().as_str(), "United States Dollar xAsset");
    assert_eq!(token.decimals(), 7);
}

#[test]
fn test_token_transfers() {
    let mut token = create_token_contract();

    token.mint(ALICE, 1000_0000000).unwrap();

    assert_eq!(token.balance(ALICE), 1000_0000000);
    assert_eq!(token.balance(BOB), 0);

    token.transfer(ALICE, BOB, 500_0000000).unwrap();

    assert_eq!(token.balance(ALICE), 500_0000000);
    assert_eq!(token.balance(BOB), 500_0000000);
}

#[test]
fn test_allowances() {
    let mut token = create_token_contract();
    let ledger: u32 = 10;

    token.mint(ALICE, 1000_0000000).unwrap();
    token
        .approve(ALICE, BOB, 1000_0000000, ledger + 1000, ledger)
        .unwrap();

    assert_eq!(token.allowance(ALICE, BOB, ledger), 1000_0000000);

    token
        .transfer_from(BOB, ALICE, BOB, 500_0000000, ledger)
        .unwrap();

    assert_eq!(token.allowance(ALICE, BOB, ledger), 500_0000000);
    assert_eq!(token.balance(BOB), 500_0000000);
}

#[test]
fn test_transfer_rejects_nonpositive_amounts() {
    let mut token = create_token_contract();
    token.mint(ALICE, 100).unwrap();

    assert_eq!(token.transfer(ALICE, BOB, 0), Err(Error::ValueNotPositive));
    assert_eq!(token.transfer(ALICE, BOB, -5), Err(Error::ValueNotPositive));
    assert_eq!(token.balance(ALICE), 100);
}

#[test]
fn test_transfer_rejects_self_transfer() {
    let mut token = create_token_contract();
    token.mint(ALICE, 100).unwrap();

    assert_eq!(
        token.transfer(ALICE, ALICE, 50),
        Err(Error::CannotTransferToSelf)
    );
}

#[test]
fn test_transfer_rejects_insufficient_balance() {
    let mut token = create_token_contract();
    token.mint(ALICE, 100).unwrap();

    assert_eq!(
        token.transfer(ALICE, BOB, 101),
        Err(Error::InsufficientBalance)
    );
}

#[test]
fn test_transfer_from_requires_allowance() {
    let mut token = create_token_contract();
    token.mint(ALICE, 100).unwrap();

    assert_eq!(
        token.transfer_from(BOB, ALICE, BOB, 50, 10),
        Err(Error::InsufficientAllowance)
    );
}

#[test]
fn test_transfer_from_spending_full_allowance_is_refused() {
    // Consuming an allowance down to zero cannot be re-recorded: the write
    // path demands a positive remainder.
    let mut token = create_token_contract();
    let ledger: u32 = 10;
    token.mint(ALICE, 100).unwrap();
    token.approve(ALICE, BOB, 50, ledger + 1000, ledger).unwrap();

    assert_eq!(
        token.transfer_from(BOB, ALICE, BOB, 50, ledger),
        Err(Error::ValueNotPositive)
    );
    assert_eq!(token.balance(ALICE), 100);
    assert_eq!(token.allowance(ALICE, BOB, ledger), 50);
}

#[test]
fn test_expired_allowance_reads_zero() {
    let mut token = create_token_contract();
    token.approve(ALICE, BOB, 75, 20, 10).unwrap();

    assert_eq!(token.allowance(ALICE, BOB, 20), 75);
    assert_eq!(token.allowance(ALICE, BOB, 21), 0);
}

#[test]
fn test_approve_rejects_stale_expiry() {
    let mut token = create_token_contract();

    assert_eq!(
        token.approve(ALICE, BOB, 75, 9, 10),
        Err(Error::InvalidLedgerSequence)
    );
    assert_eq!(token.allowance(ALICE, BOB, 10), 0);
}

#[test]
fn test_native_approve_rejects_stale_expiry() {
    let mut token = create_token_contract();

    assert_eq!(
        token.native_approve(ALICE, CONTRACT, 75, 9, 10),
        Err(Error::InvalidLedgerSequence)
    );
    assert_eq!(token.native_allowance(ALICE, CONTRACT, 10), 0);
}

#[test]
fn test_burn_and_burn_from() {
    let mut token = create_token_contract();
    let ledger: u32 = 10;
    token.mint(ALICE, 1000).unwrap();

    token.burn(ALICE, 300).unwrap();
    assert_eq!(token.balance(ALICE), 700);

    token.approve(ALICE, BOB, 500, ledger + 1000, ledger).unwrap();
    token.burn_from(BOB, ALICE, 200, ledger).unwrap();
    assert_eq!(token.balance(ALICE), 500);
    assert_eq!(token.allowance(ALICE, BOB, ledger), 300);
}

#[test]
fn test_increase_and_decrease_allowance() {
    let mut token = create_token_contract();
    let ledger: u32 = 10;

    token.increase_allowance(ALICE, BOB, 100, ledger).unwrap();
    assert_eq!(token.allowance(ALICE, BOB, ledger), 100);

    token.increase_allowance(ALICE, BOB, 50, ledger).unwrap();
    assert_eq!(token.allowance(ALICE, BOB, ledger), 150);

    token.decrease_allowance(ALICE, BOB, 40, ledger).unwrap();
    assert_eq!(token.allowance(ALICE, BOB, ledger), 110);
}

#[test]
fn test_clawback_and_authorization() {
    let mut token = create_token_contract();
    token.mint(ALICE, 1000).unwrap();

    token.clawback(ALICE, 400).unwrap();
    assert_eq!(token.balance(ALICE), 600);
    assert_eq!(token.spendable_balance(ALICE), 600);

    assert!(!token.authorized(ALICE));
    token.set_authorized(ALICE, true);
    assert!(token.authorized(ALICE));
}

#[test]
fn test_mint_overflow_is_arithmetic_error() {
    let mut token = create_token_contract();
    token.mint(ALICE, i128::MAX).unwrap();

    assert_eq!(token.mint(ALICE, 1), Err(Error::ArithmeticError));
    assert_eq!(token.balance(ALICE), i128::MAX);
}

#[test]
fn test_admin_settings() {
    let mut token = create_token_contract();

    assert_eq!(token.minimum_collateralization_ratio(), 11000);
    assert_eq!(token.set_min_collat_ratio(15000), 15000);
    assert_eq!(token.minimum_collateralization_ratio(), 15000);

    assert_eq!(token.get_interest_rate(), 1100);
    assert_eq!(token.set_interest_rate(500), 500);
    assert_eq!(token.get_interest_rate(), 500);

    token.set_xlm_sac(300);
    token.set_xlm_contract(301);
    token.set_asset_contract(302);
    token.set_pegged_asset(String::from("EURC"));
    assert_eq!(token.get_total_interest_collected(), 0);
    assert_eq!(TokenContract::version(), "0.1.0");
}
