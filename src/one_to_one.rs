use vstd::prelude::*;

use crate::market::{Market, MarketStatus};
use crate::order::{order_after_match, Order, OrderError, OrderStatus};
use crate::pool::{pool_after_match, update_on_match, MarketMatchingPool, PoolError};
use crate::queue::AccountKey;

verus! {

/// One side of a settled match between a "for" and an "against" order.
#[derive(Clone, Copy, Debug, PartialEq, Eq, Structural)]
pub struct Trade {
    pub order: AccountKey,
    pub purchaser: AccountKey,
    pub for_outcome: bool,
    pub market_outcome_index: u16,
    pub stake: u64,
    pub price: u64,
    pub creation_timestamp: i64,
}

/// Why two orders were not matched; nothing was changed.
#[derive(Clone, Copy, Debug, PartialEq, Eq, Structural)]
pub enum MatchOrdersError {
    MarketNotOpen,
    MarketLocked,
    MatchingMarketOutcomeMismatch,
    MatchingMarketPriceMismatch,
    StatusClosed,
    InplayDelay,
    Order(OrderError),
    AccountCountOverflow,
    Pool(PoolError),
}

/// Settled, cancelled or voided.
pub open spec fn completed(o: Order) -> bool {
    o.order_status != OrderStatus::Open && o.order_status != OrderStatus::Matched
}

/// The first check two orders fail, in this order: the market is open; neither order
/// was created after the market locked; both are on one outcome; the "for" price is at
/// most the "against" price; neither order is completed; both in-play delays are over.
pub open spec fn match_refusal(m: Market, f: Order, a: Order, now: i64) -> Option<MatchOrdersError> {
    if m.market_status != MarketStatus::Open {
        Some(MatchOrdersError::MarketNotOpen)
    } else if !(f.creation_timestamp <= m.market_lock_timestamp && a.creation_timestamp
        <= m.market_lock_timestamp) {
        Some(MatchOrdersError::MarketLocked)
    } else if f.market_outcome_index != a.market_outcome_index {
        Some(MatchOrdersError::MatchingMarketOutcomeMismatch)
    } else if f.expected_price > a.expected_price {
        Some(MatchOrdersError::MatchingMarketPriceMismatch)
    } else if completed(f) || completed(a) {
        Some(MatchOrdersError::StatusClosed)
    } else if !(f.delay_expiration_timestamp < now && a.delay_expiration_timestamp < now) {
        Some(MatchOrdersError::InplayDelay)
    } else {
        None
    }
}

/// The price of the order that came first; the "against" price on a tie.
pub open spec fn selected_price(f: Order, a: Order) -> u64 {
    if f.creation_timestamp < a.creation_timestamp {
        f.expected_price
    } else {
        a.expected_price
    }
}

/// The smaller of the two unmatched stakes.
pub open spec fn matched_stake(f: Order, a: Order) -> u64 {
    if f.stake_unmatched < a.stake_unmatched {
        f.stake_unmatched
    } else {
        a.stake_unmatched
    }
}

/// The order after a match, marked matched once nothing is left unmatched.
pub open spec fn order_matched(o: Order, stake: u64, price: u64) -> Option<Order> {
    match order_after_match(o, stake, price) {
        None => None,
        Some(o2) => Some(
            if o2.stake_unmatched == 0 {
                Order { order_status: OrderStatus::Matched, ..o2 }
            } else {
                o2
            },
        ),
    }
}

/// The trade record of one side of a match.
pub open spec fn trade_of(key: AccountKey, o: Order, stake: u64, price: u64, now: i64) -> Trade {
    Trade {
        order: key,
        purchaser: o.purchaser,
        for_outcome: o.for_outcome,
        market_outcome_index: o.market_outcome_index,
        stake,
        price,
        creation_timestamp: now,
    }
}

fn match_order(o: &mut Order, stake: u64, price: u64) -> (r: Result<(), OrderError>)
    ensures
        match order_matched(*old(o), stake, price) {
            Some(o2) => r is Ok && *final(o) == o2,
            None => r is Err && *final(o) == *old(o),
        },
{
    match o.match_stake_unmatched(stake, price) {
        Ok(()) => {},
        Err(e) => {
            return Err(e);
        },
    }
    if o.stake_unmatched == 0 {
        o.order_status = OrderStatus::Matched;
    }
    Ok(())
}

/// Settles one match between a resting "for" order and a resting "against" order on the
/// same outcome: after the checks of `match_refusal`, the smaller unmatched stake is
/// matched at the price of the earlier order, both orders are updated, each must be at
/// the front of its matching pool (and leaves it when fully matched), and the market
/// counts two more accounts, the trades returned for the "for" and the "against" side.
pub fn match_orders(
    market: &mut Market,
    order_for_key: AccountKey,
    order_for: &mut Order,
    order_against_key: AccountKey,
    order_against: &mut Order,
    market_matching_pool_for: &mut MarketMatchingPool,
    market_matching_pool_against: &mut MarketMatchingPool,
    now: i64,
) -> (r: Result<(Trade, Trade), MatchOrdersError>)
    requires
        old(market_matching_pool_for).wf(),
        old(market_matching_pool_against).wf(),
    ensures
        final(market_matching_pool_for).wf(),
        final(market_matching_pool_against).wf(),
        final(market_matching_pool_for).inplay == old(market_matching_pool_for).inplay,
        final(market_matching_pool_against).inplay == old(market_matching_pool_against).inplay,
        ({
            let f = *old(order_for);
            let a = *old(order_against);
            let pf = old(market_matching_pool_for).orders.items();
            let pa = old(market_matching_pool_against).orders.items();
            let unchanged = *final(order_for) == f && *final(order_against) == a
                && *final(market) == *old(market)
                && final(market_matching_pool_for).orders.items() == pf
                && final(market_matching_pool_against).orders.items() == pa;
            let price = selected_price(f, a);
            let stake = matched_stake(f, a);
            match match_refusal(*old(market), f, a, now) {
                Some(e) => r == Err::<(Trade, Trade), MatchOrdersError>(e) && unchanged,
                None => match (order_matched(f, stake, price), order_matched(a, stake, price)) {
                    (Some(f2), Some(a2)) => {
                        let nf = pool_after_match(pf, order_for_key, f2.stake_unmatched == 0);
                        let na = pool_after_match(pa, order_against_key, a2.stake_unmatched == 0);
                        if old(market).unclosed_accounts_count > u32::MAX - 2 {
                            r == Err::<(Trade, Trade), MatchOrdersError>(
                                MatchOrdersError::AccountCountOverflow,
                            ) && unchanged
                        } else if nf is Err {
                            r == Err::<(Trade, Trade), MatchOrdersError>(
                                MatchOrdersError::Pool(nf->Err_0),
                            ) && unchanged
                        } else if na is Err {
                            r == Err::<(Trade, Trade), MatchOrdersError>(
                                MatchOrdersError::Pool(na->Err_0),
                            ) && unchanged
                        } else {
                            &&& r == Ok::<(Trade, Trade), MatchOrdersError>(
                                (
                                    trade_of(order_for_key, f, stake, price, now),
                                    trade_of(order_against_key, a, stake, price, now),
                                ),
                            )
                            &&& *final(order_for) == f2
                            &&& *final(order_against) == a2
                            &&& final(market_matching_pool_for).orders.items() == nf->Ok_0
                            &&& final(market_matching_pool_against).orders.items() == na->Ok_0
                            &&& *final(market) == (Market {
                                unclosed_accounts_count: (old(market).unclosed_accounts_count
                                    + 2) as u32,
                                ..*old(market)
                            })
                        }
                    },
                    (f2, a2) => r == Err::<(Trade, Trade), MatchOrdersError>(
                        MatchOrdersError::Order(OrderError::PayoutOverflow),
                    ) && unchanged && (f2 is None || a2 is None),
                },
            }
        }),
{
    if market.market_status != MarketStatus::Open {
        return Err(MatchOrdersError::MarketNotOpen);
    }
    if !(order_for.creation_timestamp <= market.market_lock_timestamp
        && order_against.creation_timestamp <= market.market_lock_timestamp) {
        return Err(MatchOrdersError::MarketLocked);
    }
    if order_for.market_outcome_index != order_against.market_outcome_index {
        return Err(MatchOrdersError::MatchingMarketOutcomeMismatch);
    }
    if order_for.expected_price > order_against.expected_price {
        return Err(MatchOrdersError::MatchingMarketPriceMismatch);
    }
    if order_for.is_completed() || order_against.is_completed() {
        return Err(MatchOrdersError::StatusClosed);
    }
    if !(order_for.delay_expiration_timestamp < now && order_against.delay_expiration_timestamp
        < now) {
        return Err(MatchOrdersError::InplayDelay);
    }
    let price = if order_for.creation_timestamp < order_against.creation_timestamp {
        order_for.expected_price
    } else {
        order_against.expected_price
    };
    let stake = if order_for.stake_unmatched < order_against.stake_unmatched {
        order_for.stake_unmatched
    } else {
        order_against.stake_unmatched
    };
    let mut f2 = *order_for;
    let mut a2 = *order_against;
    if match_order(&mut f2, stake, price).is_err() {
        return Err(MatchOrdersError::Order(OrderError::PayoutOverflow));
    }
    if match_order(&mut a2, stake, price).is_err() {
        return Err(MatchOrdersError::Order(OrderError::PayoutOverflow));
    }
    if market.unclosed_accounts_count > u32::MAX - 2 {
        return Err(MatchOrdersError::AccountCountOverflow);
    }
    match update_on_match(
        market_matching_pool_against,
        market_matching_pool_for,
        order_for_key,
        &f2,
        order_against_key,
        &a2,
    ) {
        Ok(()) => {},
        Err(e) => {
            return Err(MatchOrdersError::Pool(e));
        },
    }
    market.unclosed_accounts_count = market.unclosed_accounts_count + 2;
    let trade_for = Trade {
        order: order_for_key,
        purchaser: order_for.purchaser,
        for_outcome: order_for.for_outcome,
        market_outcome_index: order_for.market_outcome_index,
        stake,
        price,
        creation_timestamp: now,
    };
    let trade_against = Trade {
        order: order_against_key,
        purchaser: order_against.purchaser,
        for_outcome: order_against.for_outcome,
        market_outcome_index: order_against.market_outcome_index,
        stake,
        price,
        creation_timestamp: now,
    };
    *order_for = f2;
    *order_against = a2;
    Ok((trade_for, trade_against))
}

} // verus!
