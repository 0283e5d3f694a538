//! Core accounting engine of a collateralized synthetic-asset protocol.
//!
//! Users lock a reserve collateral (XLM) to mint a synthetic token (xAsset)
//! pegged to a reference price, and a shared stability pool absorbs the debt
//! of frozen positions. The engine is a deterministic state machine over the
//! [`TokenContract`] state: collateralized debt positions (CDPs), the fungible
//! xAsset ledger, the stability pool with its product/compound constants, and
//! a model of the native reserve-asset ledger. Every entry point is specified
//! by a spec-level model function over the state's abstract view, and the
//! hosting shell is expected to authenticate callers, fetch oracle prices and
//! timestamps, and persist the state between invocations.

pub mod collateralized;
pub mod error;
pub mod index_types;
pub mod interest;
pub mod laws;
pub mod liquidity;
pub mod math;
pub mod native;
pub mod oracle;
pub mod persistent_map;
pub mod stability_pool;
pub mod storage;
pub mod token;

pub use error::Error;
pub use oracle::{OraclePrices, PriceData};

use vstd::prelude::*;

verus! {

/// Basis-point scale: ratios and rates are expressed as parts of 10_000.
pub const BASIS_POINTS: i128 = 10_000;

/// Initial value of the stability pool's product constant.
pub const PRODUCT_CONSTANT: i128 = 1_000_000_000;

/// XLM fee debited on each stability-pool deposit.
pub const DEPOSIT_FEE: i128 = 10_000_000;

/// XLM fee debited when a stake is first opened.
pub const STAKE_FEE: i128 = 70_000_000;

/// XLM amount returned when a stake is closed.
pub const UNSTAKE_RETURN: i128 = 20_000_000;

/// Seconds in a 365-day year, the interest accrual denominator.
pub const SECONDS_PER_YEAR: u64 = 31_536_000;

/// Scaling factor preserving nine decimal places in interest arithmetic.
pub const INTEREST_PRECISION: i128 = 1_000_000_000;

/// Scaling factor preserving seven decimal places in price conversions.
pub const DEFAULT_PRECISION: i128 = 10_000_000;

} // verus!
