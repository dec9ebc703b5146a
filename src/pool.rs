use vstd::prelude::*;

use crate::liquidity::MarketOrderBehaviour;
use crate::market::{Market, MarketStatus};
use crate::matching::MatchingQueue;
use crate::order::Order;
use crate::queue::{AccountKey, BoundedQueue};

verus! {

/// Why a pool operation was refused; the pool is left as it was.
#[derive(Clone, Copy, Debug, PartialEq, Eq, Structural)]
pub enum PoolError {
    /// The matched order is not the one at the front of its pool.
    OrderNotAtFrontOfQueue,
    /// The pool holds no order.
    MatchingQueueIsEmpty,
    /// The pool is full.
    MatchingQueueIsFull,
    /// The market is not open.
    MatchingMarketInvalidStatus,
    /// The market does not go in-play.
    MatchingMarketInplayNotEnabled,
    /// The market's event has not started.
    MatchingMarketNotYetInplay,
    /// The pool went in-play already.
    MatchingMarketMatchingPoolAlreadyInplay,
    /// Match records are still waiting to be settled.
    InplayTransitionMarketMatchingQueueIsNotEmpty,
}

/// The resting orders at one (outcome, price, side), first come first matched.
pub struct MarketMatchingPool {
    pub orders: BoundedQueue<AccountKey>,
    pub inplay: bool,
}

impl MarketMatchingPool {
    /// The pool holds no more orders than its capacity.
    pub open spec fn wf(&self) -> bool {
        self.orders.wf()
    }

    /// An empty pool, not in-play, for at most `capacity` orders.
    pub fn new(capacity: usize) -> (r: Self)
        ensures
            r.wf(),
            r.orders.items() == Seq::<AccountKey>::empty(),
            r.orders.cap() == capacity,
            !r.inplay,
    {
        MarketMatchingPool { orders: BoundedQueue::new(capacity), inplay: false }
    }

    /// Marks the pool in-play; its orders go when unmatched liquidity is cancelled then.
    pub fn move_to_inplay(&mut self, behaviour: &MarketOrderBehaviour)
        requires
            old(self).wf(),
        ensures
            final(self).wf(),
            final(self).inplay,
            final(self).orders.cap() == old(self).orders.cap(),
            *behaviour == MarketOrderBehaviour::CancelUnmatched ==> final(self).orders.items()
                == Seq::<AccountKey>::empty(),
            *behaviour == MarketOrderBehaviour::KeepUnmatched ==> final(self).orders.items()
                == old(self).orders.items(),
    {
        self.inplay = true;
        if *behaviour == MarketOrderBehaviour::CancelUnmatched {
            self.orders.clear();
        }
    }
}

/// The pool after a match of `key`: it must be at the front; it leaves the pool when
/// fully matched, and stays at the front otherwise.
pub open spec fn pool_after_match(items: Seq<AccountKey>, key: AccountKey, fully_matched: bool) -> Result<
    Seq<AccountKey>,
    PoolError,
> {
    if items.len() == 0 {
        Err(PoolError::MatchingQueueIsEmpty)
    } else if items[0] != key {
        Err(PoolError::OrderNotAtFrontOfQueue)
    } else if fully_matched {
        Ok(items.drop_first())
    } else {
        Ok(items)
    }
}

/// Records a match of `matched_order` in its pool. The order must be the one at the front:
/// otherwise the match broke price-time priority and is refused, leaving the pool as it
/// was. A fully matched order leaves the pool.
pub fn update_matching_pool_with_matched_order(
    matching_pool: &mut MarketMatchingPool,
    matched_order: AccountKey,
    fully_matched: bool,
) -> (r: Result<(), PoolError>)
    requires
        old(matching_pool).wf(),
    ensures
        final(matching_pool).wf(),
        final(matching_pool).inplay == old(matching_pool).inplay,
        final(matching_pool).orders.cap() == old(matching_pool).orders.cap(),
        match pool_after_match(old(matching_pool).orders.items(), matched_order, fully_matched) {
            Ok(items) => r is Ok && final(matching_pool).orders.items() == items,
            Err(e) => r == Err::<(), PoolError>(e) && final(matching_pool).orders.items() == old(
                matching_pool,
            ).orders.items(),
        },
{
    match matching_pool.orders.peek(0) {
        None => Err(PoolError::MatchingQueueIsEmpty),
        Some(front) => {
            if front != matched_order {
                return Err(PoolError::OrderNotAtFrontOfQueue);
            }
            if fully_matched {
                let _ = matching_pool.orders.dequeue();
            }
            Ok(())
        },
    }
}

/// Records a match between a "for" order and an "against" order in their pools. Each must
/// be at the front of its pool; a fully matched order leaves its pool. When either check
/// fails, neither pool changes.
pub fn update_on_match(
    market_matching_pool_against: &mut MarketMatchingPool,
    market_matching_pool_for: &mut MarketMatchingPool,
    for_order_key: AccountKey,
    for_order: &Order,
    against_order_key: AccountKey,
    against_order: &Order,
) -> (r: Result<(), PoolError>)
    requires
        old(market_matching_pool_against).wf(),
        old(market_matching_pool_for).wf(),
    ensures
        final(market_matching_pool_against).wf(),
        final(market_matching_pool_for).wf(),
        final(market_matching_pool_for).inplay == old(market_matching_pool_for).inplay,
        final(market_matching_pool_against).inplay == old(market_matching_pool_against).inplay,
        final(market_matching_pool_for).orders.cap() == old(market_matching_pool_for).orders.cap(),
        final(market_matching_pool_against).orders.cap() == old(
            market_matching_pool_against,
        ).orders.cap(),
        ({
            let f = pool_after_match(
                old(market_matching_pool_for).orders.items(),
                for_order_key,
                for_order.stake_unmatched == 0,
            );
            let a = pool_after_match(
                old(market_matching_pool_against).orders.items(),
                against_order_key,
                against_order.stake_unmatched == 0,
            );
            match (f, a) {
                (Ok(fi), Ok(ai)) => r is Ok && final(market_matching_pool_for).orders.items() == fi
                    && final(market_matching_pool_against).orders.items() == ai,
                _ => r == (if f is Err {
                    Err::<(), PoolError>(f->Err_0)
                } else {
                    Err::<(), PoolError>(a->Err_0)
                }) && final(market_matching_pool_for).orders.items() == old(
                    market_matching_pool_for,
                ).orders.items() && final(market_matching_pool_against).orders.items() == old(
                    market_matching_pool_against,
                ).orders.items(),
            }
        }),
{
    let for_front = market_matching_pool_for.orders.peek(0);
    match for_front {
        None => {
            return Err(PoolError::MatchingQueueIsEmpty);
        },
        Some(k) => {
            if k != for_order_key {
                return Err(PoolError::OrderNotAtFrontOfQueue);
            }
        },
    }
    let against_front = market_matching_pool_against.orders.peek(0);
    match against_front {
        None => {
            return Err(PoolError::MatchingQueueIsEmpty);
        },
        Some(k) => {
            if k != against_order_key {
                return Err(PoolError::OrderNotAtFrontOfQueue);
            }
        },
    }
    let _ = update_matching_pool_with_matched_order(
        market_matching_pool_for,
        for_order_key,
        for_order.stake_unmatched == 0,
    );
    let _ = update_matching_pool_with_matched_order(
        market_matching_pool_against,
        against_order_key,
        against_order.stake_unmatched == 0,
    );
    Ok(())
}

/// Adds an order with stake left unmatched to the back of its pool; refused on a full
/// pool. An order with nothing left unmatched does not rest and leaves the pool as it is.
pub fn update_matching_pool_with_new_order(
    market_matching_pool: &mut MarketMatchingPool,
    order_key: AccountKey,
    order: &Order,
) -> (r: Result<(), PoolError>)
    requires
        old(market_matching_pool).wf(),
    ensures
        final(market_matching_pool).wf(),
        final(market_matching_pool).inplay == old(market_matching_pool).inplay,
        final(market_matching_pool).orders.cap() == old(market_matching_pool).orders.cap(),
        ({
            let before = old(market_matching_pool).orders.items();
            let after = final(market_matching_pool).orders.items();
            let room = before.len() < old(market_matching_pool).orders.cap();
            &&& order.stake_unmatched == 0 ==> r is Ok && after == before
            &&& order.stake_unmatched > 0 && room ==> r is Ok && after == before.push(order_key)
            &&& order.stake_unmatched > 0 && !room ==> r == Err::<(), PoolError>(
                PoolError::MatchingQueueIsFull,
            ) && after == before
        }),
{
    if order.stake_unmatched > 0 {
        if !market_matching_pool.orders.enqueue(order_key) {
            return Err(PoolError::MatchingQueueIsFull);
        }
    }
    Ok(())
}

/// The first refusal of an in-play transition of the pool, checked in this order.
pub open spec fn inplay_refusal(market: Market, queue_empty: bool, pool_inplay: bool) -> Option<
    PoolError,
> {
    if market.market_status != MarketStatus::Open {
        Some(PoolError::MatchingMarketInvalidStatus)
    } else if !market.inplay_enabled {
        Some(PoolError::MatchingMarketInplayNotEnabled)
    } else if !market.inplay {
        Some(PoolError::MatchingMarketNotYetInplay)
    } else if pool_inplay {
        Some(PoolError::MatchingMarketMatchingPoolAlreadyInplay)
    } else if !queue_empty {
        Some(PoolError::InplayTransitionMarketMatchingQueueIsNotEmpty)
    } else {
        None
    }
}

/// Moves the pool in-play, once: the market must be open, in-play enabled and in-play,
/// and no match record may still wait for settlement.
pub fn move_market_matching_pool_to_inplay(
    market: &Market,
    market_matching_queue: &MatchingQueue,
    market_matching_pool: &mut MarketMatchingPool,
) -> (r: Result<(), PoolError>)
    requires
        old(market_matching_pool).wf(),
    ensures
        final(market_matching_pool).wf(),
        final(market_matching_pool).orders.cap() == old(market_matching_pool).orders.cap(),
        match inplay_refusal(
            *market,
            market_matching_queue.items().len() == 0,
            old(market_matching_pool).inplay,
        ) {
            Some(e) => r == Err::<(), PoolError>(e) && final(market_matching_pool).orders.items()
                == old(market_matching_pool).orders.items() && final(market_matching_pool).inplay
                == old(market_matching_pool).inplay,
            None => {
                let after = final(market_matching_pool).orders.items();
                let cancel = market.event_start_order_behaviour
                    == MarketOrderBehaviour::CancelUnmatched;
                &&& r is Ok
                &&& final(market_matching_pool).inplay
                &&& cancel ==> after == Seq::<AccountKey>::empty()
                &&& !cancel ==> after == old(market_matching_pool).orders.items()
            },
        },
{
    if market.market_status != MarketStatus::Open {
        return Err(PoolError::MatchingMarketInvalidStatus);
    }
    if !market.inplay_enabled {
        return Err(PoolError::MatchingMarketInplayNotEnabled);
    }
    if !market.is_inplay() {
        return Err(PoolError::MatchingMarketNotYetInplay);
    }
    if market_matching_pool.inplay {
        return Err(PoolError::MatchingMarketMatchingPoolAlreadyInplay);
    }
    if !market_matching_queue.is_empty() {
        return Err(PoolError::InplayTransitionMarketMatchingQueueIsNotEmpty);
    }
    market_matching_pool.move_to_inplay(&market.event_start_order_behaviour);
    Ok(())
}

/// The position of the first occurrence of `key` in `items`, or `items.len()`.
pub open spec fn first_index_of(items: Seq<AccountKey>, key: AccountKey) -> int
    decreases items.len(),
{
    if items.len() == 0 {
        0
    } else if items[0] == key {
        0
    } else {
        1 + first_index_of(items.drop_first(), key)
    }
}

proof fn lemma_first_index_of(items: Seq<AccountKey>, key: AccountKey)
    ensures
        0 <= first_index_of(items, key) <= items.len(),
        first_index_of(items, key) < items.len() ==> items[first_index_of(items, key)] == key,
        forall|j: int| 0 <= j < first_index_of(items, key) ==> items[j] != key,
    decreases items.len(),
{
    if items.len() > 0 && items[0] != key {
        lemma_first_index_of(items.drop_first(), key);
        assert forall|j: int| 0 <= j < first_index_of(items, key) implies items[j] != key by {
            if j > 0 {
                assert(items[j] == items.drop_first()[j - 1]);
            }
        }
    }
}

/// Cancels an order in its pool: the pool first goes in-play if the market has and the
/// pool has not (refused while match records wait for settlement), then the order's first
/// entry is removed from wherever it stands. Returns whether the order was in the pool.
pub fn update_on_cancel(
    market: &Market,
    market_matching_queue: &MatchingQueue,
    matching_pool: &mut MarketMatchingPool,
    order_key: AccountKey,
) -> (r: Result<bool, PoolError>)
    requires
        old(matching_pool).wf(),
    ensures
        final(matching_pool).wf(),
        final(matching_pool).orders.cap() == old(matching_pool).orders.cap(),
        ({
            let moving = market.inplay && !old(matching_pool).inplay;
            let before = if moving && market.event_start_order_behaviour
                == MarketOrderBehaviour::CancelUnmatched {
                Seq::<AccountKey>::empty()
            } else {
                old(matching_pool).orders.items()
            };
            let i = first_index_of(before, order_key);
            if moving && market_matching_queue.items().len() != 0 {
                r == Err::<bool, PoolError>(PoolError::InplayTransitionMarketMatchingQueueIsNotEmpty)
                    && final(matching_pool).orders.items() == old(matching_pool).orders.items()
                    && final(matching_pool).inplay == old(matching_pool).inplay
            } else {
                &&& final(matching_pool).inplay == (old(matching_pool).inplay || moving)
                &&& r == Ok::<bool, PoolError>(i < before.len())
                &&& i < before.len() ==> final(matching_pool).orders.items() == before.remove(i)
                &&& i >= before.len() ==> final(matching_pool).orders.items() == before
            }
        }),
{
    if market.is_inplay() && !matching_pool.inplay {
        if !market_matching_queue.is_empty() {
            return Err(PoolError::InplayTransitionMarketMatchingQueueIsNotEmpty);
        }
        matching_pool.move_to_inplay(&market.event_start_order_behaviour);
    }
    let ghost before = matching_pool.orders.items();
    proof {
        lemma_first_index_of(before, order_key);
    }
    let n = matching_pool.orders.len();
    let mut i: usize = 0;
    while i < n
        invariant
            n == before.len(),
            before == matching_pool.orders.items(),
            before == (if market.inplay && !old(matching_pool).inplay
                && market.event_start_order_behaviour == MarketOrderBehaviour::CancelUnmatched {
                Seq::<AccountKey>::empty()
            } else {
                old(matching_pool).orders.items()
            }),
            matching_pool.wf(),
            matching_pool.orders.cap() == old(matching_pool).orders.cap(),
            matching_pool.inplay == (old(matching_pool).inplay || market.inplay),
            !(market.inplay && !old(matching_pool).inplay && market_matching_queue.items().len()
                != 0),
            0 <= i <= n,
            forall|j: int| 0 <= j < i ==> before[j] != order_key,
        decreases n - i,
    {
        let k = matching_pool.orders.peek(i);
        if k == Some(order_key) {
            proof {
                lemma_first_index_of(before, order_key);
                assert(first_index_of(before, order_key) == i);
            }
            let _ = matching_pool.orders.remove_at(i);
            return Ok(true);
        }
        i = i + 1;
    }
    Ok(false)
}

} // verus!
