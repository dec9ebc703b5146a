use vstd::prelude::*;

use crate::liquidity::MarketLiquidities;
use crate::market::{Market, MarketStatus};
use crate::matching::{
    match_plan, on_order_creation, order_creation, plan_result, MatchingError, MatchingQueue,
};
use crate::order::{Order, OrderStatus};
use crate::pool::{update_matching_pool_with_new_order, MarketMatchingPool, PoolError};
use crate::queue::{AccountKey, BoundedQueue};

verus! {

/// A request to place an order, waiting its turn.
#[derive(Clone, Copy, Debug, PartialEq, Eq, Structural)]
pub struct OrderRequest {
    pub purchaser: AccountKey,
    pub market_outcome_index: u16,
    pub for_outcome: bool,
    pub product: Option<AccountKey>,
    pub stake: u64,
    pub expected_price: u64,
    pub delay_expiration_timestamp: i64,
    pub distinct_seed: u128,
    pub creation_timestamp: i64,
}

/// The queue of order requests, oldest first.
pub type OrderRequestQueue = BoundedQueue<OrderRequest>;

/// Why an order request was not dequeued, cancelled or processed; nothing was changed.
#[derive(Clone, Copy, Debug, PartialEq, Eq, Structural)]
pub enum OrderRequestError {
    OrderRequestQueueIsEmpty,
    CancelationPurchaserMismatch,
    CancelOrderNotCancellable,
    InplayDelay,
    AccountCountOverflow,
    Matching(MatchingError),
    Pool(PoolError),
}

/// Takes the oldest request off the queue; it must belong to `purchaser`.
pub fn dequeue_order_request(
    order_request_queue: &mut OrderRequestQueue,
    purchaser: &AccountKey,
) -> (r: Result<OrderRequest, OrderRequestError>)
    requires
        old(order_request_queue).wf(),
    ensures
        final(order_request_queue).wf(),
        final(order_request_queue).cap() == old(order_request_queue).cap(),
        ({
            let before = old(order_request_queue).items();
            let after = final(order_request_queue).items();
            if before.len() == 0 {
                r == Err::<OrderRequest, OrderRequestError>(
                    OrderRequestError::OrderRequestQueueIsEmpty,
                ) && after == before
            } else if before[0].purchaser != *purchaser {
                r == Err::<OrderRequest, OrderRequestError>(
                    OrderRequestError::CancelationPurchaserMismatch,
                ) && after == before
            } else {
                r == Ok::<OrderRequest, OrderRequestError>(before[0]) && after == before.drop_first()
            }
        }),
{
    let front = match order_request_queue.peek(0) {
        Some(f) => f,
        None => {
            return Err(OrderRequestError::OrderRequestQueueIsEmpty);
        },
    };
    if front.purchaser != *purchaser {
        return Err(OrderRequestError::CancelationPurchaserMismatch);
    }
    let _ = order_request_queue.dequeue();
    Ok(front)
}

/// The position of the first request with `seed`, or `items.len()`.
pub open spec fn seed_index(items: Seq<OrderRequest>, seed: u128) -> int
    decreases items.len(),
{
    if items.len() == 0 {
        0
    } else if items[0].distinct_seed == seed {
        0
    } else {
        1 + seed_index(items.drop_first(), seed)
    }
}

proof fn lemma_seed_index(items: Seq<OrderRequest>, seed: u128)
    ensures
        0 <= seed_index(items, seed) <= items.len(),
        seed_index(items, seed) < items.len() ==> items[seed_index(items, seed)].distinct_seed
            == seed,
        forall|j: int| 0 <= j < seed_index(items, seed) ==> items[j].distinct_seed != seed,
    decreases items.len(),
{
    if items.len() > 0 && items[0].distinct_seed != seed {
        lemma_seed_index(items.drop_first(), seed);
        assert forall|j: int| 0 <= j < seed_index(items, seed) implies items[j].distinct_seed
            != seed by {
            if j > 0 {
                assert(items[j] == items.drop_first()[j - 1]);
            }
        }
    }
}

/// Cancels the waiting request with `distinct_seed`, wherever it stands in the queue,
/// while the market is open; returns it.
pub fn cancel_order_request(
    market: &Market,
    order_request_queue: &mut OrderRequestQueue,
    distinct_seed: u128,
) -> (r: Result<OrderRequest, OrderRequestError>)
    requires
        old(order_request_queue).wf(),
    ensures
        final(order_request_queue).wf(),
        final(order_request_queue).cap() == old(order_request_queue).cap(),
        ({
            let before = old(order_request_queue).items();
            let after = final(order_request_queue).items();
            let i = seed_index(before, distinct_seed);
            if market.market_status != MarketStatus::Open || i >= before.len() {
                r == Err::<OrderRequest, OrderRequestError>(
                    OrderRequestError::CancelOrderNotCancellable,
                ) && after == before
            } else {
                r == Ok::<OrderRequest, OrderRequestError>(before[i]) && after == before.remove(i)
            }
        }),
{
    let ghost before = order_request_queue.items();
    if market.market_status != MarketStatus::Open {
        return Err(OrderRequestError::CancelOrderNotCancellable);
    }
    let n = order_request_queue.len();
    let mut i: usize = 0;
    while i < n
        invariant
            n == before.len(),
            before == order_request_queue.items(),
            before == old(order_request_queue).items(),
            order_request_queue.wf(),
            order_request_queue.cap() == old(order_request_queue).cap(),
            market.market_status == MarketStatus::Open,
            0 <= i <= n,
            forall|j: int| 0 <= j < i ==> before[j].distinct_seed != distinct_seed,
        decreases n - i,
    {
        let req = order_request_queue.peek(i);
        match req {
            Some(q) => {
                if q.distinct_seed == distinct_seed {
                    proof {
                        lemma_seed_index(before, distinct_seed);
                    }
                    let removed = order_request_queue.remove_at(i);
                    return Ok(removed);
                }
            },
            None => {},
        }
        i = i + 1;
    }
    proof {
        lemma_seed_index(before, distinct_seed);
    }
    Err(OrderRequestError::CancelOrderNotCancellable)
}

/// The live order a request becomes.
pub open spec fn order_from_request(q: OrderRequest) -> Order {
    Order {
        purchaser: q.purchaser,
        market_outcome_index: q.market_outcome_index,
        for_outcome: q.for_outcome,
        expected_price: q.expected_price,
        stake: q.stake,
        stake_unmatched: q.stake,
        payout: 0,
        creation_timestamp: q.creation_timestamp,
        delay_expiration_timestamp: q.delay_expiration_timestamp,
        order_status: OrderStatus::Open,
    }
}

fn initialize_order(q: &OrderRequest) -> (r: Order)
    ensures
        r == order_from_request(*q),
{
    Order {
        purchaser: q.purchaser,
        market_outcome_index: q.market_outcome_index,
        for_outcome: q.for_outcome,
        expected_price: q.expected_price,
        stake: q.stake,
        stake_unmatched: q.stake,
        payout: 0,
        creation_timestamp: q.creation_timestamp,
        delay_expiration_timestamp: q.delay_expiration_timestamp,
        order_status: OrderStatus::Open,
    }
}

/// Turns the oldest request into a live order and matches it. Refused while the market
/// is in-play and the request's delay has not expired. The order is matched against the
/// book (see `on_order_creation`), rests in the matching pool when stake is left
/// unmatched, the request leaves the queue and the market counts one more account.
/// Returns the order and (stake, price) of each match. On any refusal nothing changes.
pub fn process_order_request(
    order_request_queue: &mut OrderRequestQueue,
    market: &mut Market,
    market_liquidities: &mut MarketLiquidities,
    market_matching_queue: &mut MatchingQueue,
    matching_pool: &mut MarketMatchingPool,
    order_key: AccountKey,
    now: i64,
) -> (r: Result<(Order, Vec<(u64, u64)>), OrderRequestError>)
    requires
        old(order_request_queue).wf(),
        old(market_liquidities).wf(),
        old(market_matching_queue).wf(),
        old(matching_pool).wf(),
    ensures
        final(order_request_queue).wf(),
        final(market_liquidities).wf(),
        final(market_matching_queue).wf(),
        final(matching_pool).wf(),
        final(order_request_queue).cap() == old(order_request_queue).cap(),
        final(market_matching_queue).cap() == old(market_matching_queue).cap(),
        final(matching_pool).orders.cap() == old(matching_pool).orders.cap(),
        final(matching_pool).inplay == old(matching_pool).inplay,
        ({
            let reqs = old(order_request_queue).items();
            let book_after = final(market_liquidities)@;
            let records_after = final(market_matching_queue).items();
            let pool_after = final(matching_pool).orders.items();
            let unchanged = final(order_request_queue).items() == reqs
                && *final(market) == *old(market)
                && book_after == old(market_liquidities)@
                && records_after == old(market_matching_queue).items()
                && pool_after == old(matching_pool).orders.items();
            if reqs.len() == 0 {
                r == Err::<(Order, Vec<(u64, u64)>), OrderRequestError>(
                    OrderRequestError::OrderRequestQueueIsEmpty,
                ) && unchanged
            } else if old(market).inplay && reqs[0].delay_expiration_timestamp > 0
                && reqs[0].delay_expiration_timestamp > now {
                r == Err::<(Order, Vec<(u64, u64)>), OrderRequestError>(
                    OrderRequestError::InplayDelay,
                ) && unchanged
            } else if old(market).unclosed_accounts_count == u32::MAX {
                r == Err::<(Order, Vec<(u64, u64)>), OrderRequestError>(
                    OrderRequestError::AccountCountOverflow,
                ) && unchanged
            } else {
                let o = order_from_request(reqs[0]);
                match order_creation(
                    old(market_liquidities)@,
                    old(market_matching_queue).items().len(),
                    old(market_matching_queue).cap(),
                    order_key,
                    o,
                ) {
                    Err(e) => r == Err::<(Order, Vec<(u64, u64)>), OrderRequestError>(
                        OrderRequestError::Matching(e),
                    ) && unchanged,
                    Ok(c) => if c.order.stake_unmatched > 0 && old(
                        matching_pool,
                    ).orders.items().len() >= old(matching_pool).orders.cap() {
                        r == Err::<(Order, Vec<(u64, u64)>), OrderRequestError>(
                            OrderRequestError::Pool(PoolError::MatchingQueueIsFull),
                        ) && unchanged
                    } else {
                        &&& r matches Ok(v) && v.0 == c.order && v.1@ == plan_result(
                            match_plan(old(market_liquidities)@, o),
                        )
                        &&& book_after == c.book
                        &&& records_after == old(market_matching_queue).items() + c.records
                        &&& pool_after == (if c.order.stake_unmatched
                            > 0 {
                            old(matching_pool).orders.items().push(order_key)
                        } else {
                            old(matching_pool).orders.items()
                        })
                        &&& final(order_request_queue).items() == reqs.drop_first()
                        &&& *final(market) == (Market {
                            unclosed_accounts_count: (old(market).unclosed_accounts_count
                                + 1) as u32,
                            ..*old(market)
                        })
                    },
                }
            }
        }),
{
    let q = match order_request_queue.peek(0) {
        Some(q) => q,
        None => {
            return Err(OrderRequestError::OrderRequestQueueIsEmpty);
        },
    };
    if market.is_inplay() && q.delay_expiration_timestamp > 0 && q.delay_expiration_timestamp
        > now {
        return Err(OrderRequestError::InplayDelay);
    }
    if market.unclosed_accounts_count == u32::MAX {
        return Err(OrderRequestError::AccountCountOverflow);
    }
    let mut order = initialize_order(&q);
    let saved_book = market_liquidities.copy();
    let saved_queue = market_matching_queue.copy();
    let matches = match on_order_creation(
        market_liquidities,
        market_matching_queue,
        &order_key,
        &mut order,
    ) {
        Ok(v) => v,
        Err(e) => {
            return Err(OrderRequestError::Matching(e));
        },
    };
    match update_matching_pool_with_new_order(matching_pool, order_key, &order) {
        Ok(()) => {},
        Err(e) => {
            *market_liquidities = saved_book;
            *market_matching_queue = saved_queue;
            return Err(OrderRequestError::Pool(e));
        },
    }
    let _ = order_request_queue.dequeue();
    market.unclosed_accounts_count = market.unclosed_accounts_count + 1;
    Ok((order, matches))
}

} // verus!
