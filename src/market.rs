use vstd::prelude::*;

use crate::liquidity::MarketOrderBehaviour;
use crate::queue::AccountKey;

verus! {

#[derive(Clone, Copy, Debug, PartialEq, Eq, Structural)]
pub enum MarketStatus {
    Initializing,
    Open,
    Locked,
    ReadyForSettlement,
    Settled,
    ReadyToClose,
    ReadyToVoid,
    Voided,
}

/// The state of a market that matching reads and updates.
#[derive(Clone, Copy, Debug, PartialEq, Eq, Structural)]
pub struct Market {
    pub market_status: MarketStatus,
    pub market_lock_timestamp: i64,
    pub inplay_enabled: bool,
    pub inplay: bool,
    pub event_start_order_behaviour: MarketOrderBehaviour,
    pub unclosed_accounts_count: u32,
}

impl Market {
    /// Whether the market's event has started.
    pub fn is_inplay(&self) -> (r: bool)
        ensures
            r == self.inplay,
    {
        self.inplay
    }
}

/// The most characters in an outcome's title.
pub const TITLE_MAX_LENGTH: usize = 100;

/// The most prices on an outcome's price ladder.
pub const PRICE_LADDER_LENGTH: usize = 320;

/// One outcome of a market, with the ladder of prices (in thousandths) orders may take.
pub struct MarketOutcome {
    pub market: AccountKey,
    pub index: u16,
    pub title: String,
    pub prices: Option<AccountKey>,
    pub price_ladder: Vec<u64>,
}

} // verus!
