use vstd::prelude::*;

use crate::price::{calculate_payout, payout_spec};
use crate::queue::AccountKey;

verus! {

#[derive(Clone, Copy, Debug, PartialEq, Eq, Structural)]
pub enum OrderStatus {
    Open,
    Matched,
    SettledWin,
    SettledLose,
    Cancelled,
    Voided,
}

/// Why a match was refused on an order.
#[derive(Clone, Copy, Debug, PartialEq, Eq, Structural)]
pub enum OrderError {
    /// More stake than is left unmatched.
    StakeTooLarge,
    /// The payout would overflow.
    PayoutOverflow,
}

/// A live order on one outcome, "for" or "against", at an expected price in thousandths.
#[derive(Clone, Copy, Debug, PartialEq, Eq, Structural)]
pub struct Order {
    pub purchaser: AccountKey,
    pub market_outcome_index: u16,
    pub for_outcome: bool,
    pub expected_price: u64,
    pub stake: u64,
    pub stake_unmatched: u64,
    pub payout: u64,
    pub creation_timestamp: i64,
    pub delay_expiration_timestamp: i64,
    pub order_status: OrderStatus,
}

/// The order after `stake` of it was matched at `price`: less unmatched stake, more
/// payout. `None` when the stake exceeds what is unmatched or the payout overflows.
pub open spec fn order_after_match(o: Order, stake: u64, price: u64) -> Option<Order> {
    if stake > o.stake_unmatched || o.payout + payout_spec(stake, price) > u64::MAX {
        None
    } else {
        Some(
            Order {
                stake_unmatched: (o.stake_unmatched - stake) as u64,
                payout: (o.payout + payout_spec(stake, price)) as u64,
                ..o
            },
        )
    }
}

impl Order {
    /// An open order with nothing matched yet.
    pub fn new(
        purchaser: AccountKey,
        market_outcome_index: u16,
        for_outcome: bool,
        expected_price: u64,
        stake: u64,
        creation_timestamp: i64,
    ) -> (r: Order)
        ensures
            r.purchaser == purchaser,
            r.market_outcome_index == market_outcome_index,
            r.for_outcome == for_outcome,
            r.expected_price == expected_price,
            r.stake == stake,
            r.stake_unmatched == stake,
            r.payout == 0,
            r.creation_timestamp == creation_timestamp,
            r.delay_expiration_timestamp == 0,
            r.order_status == OrderStatus::Open,
    {
        Order {
            purchaser,
            market_outcome_index,
            for_outcome,
            expected_price,
            stake,
            stake_unmatched: stake,
            payout: 0,
            creation_timestamp,
            delay_expiration_timestamp: 0,
            order_status: OrderStatus::Open,
        }
    }

    /// Settled, cancelled or voided: no more matching.
    pub fn is_completed(&self) -> (r: bool)
        ensures
            r == (self.order_status != OrderStatus::Open && self.order_status
                != OrderStatus::Matched),
    {
        match self.order_status {
            OrderStatus::Open => false,
            OrderStatus::Matched => false,
            _ => true,
        }
    }

    /// Records that `stake` of the order was matched at `price`.
    pub fn match_stake_unmatched(&mut self, stake: u64, price: u64) -> (r: Result<(), OrderError>)
        ensures
            match order_after_match(*old(self), stake, price) {
                Some(o) => r is Ok && *final(self) == o,
                None => r is Err && *final(self) == *old(self),
            },
    {
        if stake > self.stake_unmatched {
            return Err(OrderError::StakeTooLarge);
        }
        let p = match calculate_payout(stake, price) {
            Some(p) => p,
            None => {
                return Err(OrderError::PayoutOverflow);
            },
        };
        if self.payout > u64::MAX - p {
            return Err(OrderError::PayoutOverflow);
        }
        self.stake_unmatched = self.stake_unmatched - stake;
        self.payout = self.payout + p;
        Ok(())
    }
}

/// One match event: the maker side (resting liquidity) or the taker side (the incoming
/// order, named by `order`).
#[derive(Clone, Copy, Debug, PartialEq, Eq, Structural)]
pub struct OrderMatch {
    pub order: Option<AccountKey>,
    pub for_outcome: bool,
    pub outcome_index: u16,
    pub price: u64,
    pub stake: u64,
}

impl OrderMatch {
    /// A maker record: resting liquidity matched.
    pub open spec fn maker_spec(for_outcome: bool, outcome_index: u16, price: u64, stake: u64) -> OrderMatch {
        OrderMatch { order: None, for_outcome, outcome_index, price, stake }
    }

    /// A taker record: the incoming order `order` matched.
    pub open spec fn taker_spec(
        order: AccountKey,
        for_outcome: bool,
        outcome_index: u16,
        price: u64,
        stake: u64,
    ) -> OrderMatch {
        OrderMatch { order: Some(order), for_outcome, outcome_index, price, stake }
    }

    /// See `maker_spec`.
    pub fn maker(for_outcome: bool, outcome_index: u16, price: u64, stake: u64) -> (r: OrderMatch)
        ensures
            r == Self::maker_spec(for_outcome, outcome_index, price, stake),
    {
        OrderMatch { order: None, for_outcome, outcome_index, price, stake }
    }

    /// See `taker_spec`.
    pub fn taker(
        order: AccountKey,
        for_outcome: bool,
        outcome_index: u16,
        price: u64,
        stake: u64,
    ) -> (r: OrderMatch)
        ensures
            r == Self::taker_spec(order, for_outcome, outcome_index, price, stake),
    {
        OrderMatch { order: Some(order), for_outcome, outcome_index, price, stake }
    }
}

} // verus!
