//! Oracle-facing values. The hosting shell reads the two price feeds and
//! hands the engine one [`OraclePrices`] snapshot; the flattening of a feed's
//! partial answers into the engine's errors lives here.

use vstd::prelude::*;

use crate::error::Error;

verus! {

/// A price reported by a feed, with the feed's own timestamp.
#[derive(Clone, Copy, Debug, PartialEq, Eq, Structural)]
pub struct PriceData {
    /// Asset price at the given point in time.
    pub price: i128,
    /// Recording timestamp.
    pub timestamp: u64,
}

/// One snapshot of both feeds: the XLM price, the pegged asset's price, and
/// each feed's decimal count.
#[derive(Clone, Copy, Debug, PartialEq, Eq, Structural)]
pub struct OraclePrices {
    /// Most recent XLM price.
    pub xlm: PriceData,
    /// Decimals used by the XLM feed.
    pub xlm_decimals: u32,
    /// Most recent price of the pegged asset.
    pub asset: PriceData,
    /// Decimals used by the pegged asset's feed.
    pub asset_decimals: u32,
}

impl OraclePrices {
    /// Sanity of a snapshot: a positive XLM price to divide by, a
    /// nonnegative asset price, and decimal counts the arithmetic can shift
    /// by within `i128`.
    pub open spec fn wf(self) -> bool {
        &&& self.xlm.price > 0
        &&& self.asset.price >= 0
        &&& self.asset_decimals <= self.xlm_decimals
        &&& self.xlm_decimals <= 38
    }
}

/// Flatten a feed's optional price into the engine's error taxonomy.
pub fn price_from_feed(fetched: Option<PriceData>) -> (r: Result<PriceData, Error>)
    ensures
        match fetched {
            Some(p) => r == Result::<PriceData, Error>::Ok(p),
            None => r == Result::<PriceData, Error>::Err(Error::OraclePriceFetchFailed),
        },
{
    match fetched {
        Some(p) => Ok(p),
        None => Err(Error::OraclePriceFetchFailed),
    }
}

/// Flatten a feed's optional decimal count into the engine's error taxonomy.
pub fn decimals_from_feed(fetched: Option<u32>) -> (r: Result<u32, Error>)
    ensures
        match fetched {
            Some(d) => r == Result::<u32, Error>::Ok(d),
            None => r == Result::<u32, Error>::Err(Error::OracleDecimalsFetchFailed),
        },
{
    match fetched {
        Some(d) => Ok(d),
        None => Err(Error::OracleDecimalsFetchFailed),
    }
}

} // verus!
