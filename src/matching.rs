use vstd::prelude::*;

use crate::liquidity::{
    book_add, book_add_matched, book_remove, levels_view, side_levels,
    sources_ord_spec, BookModel, LiquidityError, LiquidityKey, MarketLiquidities,
    MarketOutcomePriceLiquidity, PriceLevel,
};
use crate::order::{order_after_match, Order, OrderMatch};
use crate::price::stake_cross_spec;
use crate::queue::{AccountKey, BoundedQueue};

verus! {

/// The most price levels one order is matched against in one pass.
pub const MATCH_CAPACITY: usize = 10;

/// The queue of match records awaiting settlement.
pub type MatchingQueue = BoundedQueue<OrderMatch>;

/// Why an order could not be matched; nothing was changed.
#[derive(Clone, Copy, Debug, PartialEq, Eq, Structural)]
pub enum MatchingError {
    /// The match records would not fit in the matching queue.
    MatchingQueueIsFull,
    /// A payout or a cross-converted stake would overflow.
    MatchingPayoutAmountError,
    /// A level to be consumed was missing or held too little.
    MatchingRemainingLiquidityTooSmall,
    /// The matched total, or the resting remainder, would overflow.
    MarketLiquiditiesUpdateError,
    /// The remainder needs a new level and the book is full.
    MarketLiquiditiesIsFull,
}

/// A level price an order accepts: at least the expected price for a "for" order, at
/// most the expected price for an "against" order.
pub open spec fn price_acceptable(for_order: bool, level_price: u64, expected: u64) -> bool {
    if for_order {
        level_price >= expected
    } else {
        level_price <= expected
    }
}

/// The walk along the opposite ladder: levels of other outcomes are passed over; the walk
/// stops when nothing is left to match, when `slots` levels were matched, or at the first
/// level of the order's outcome whose price it does not accept. Each level matched takes
/// the smaller of its liquidity and what is left.
pub open spec fn scan(
    levels: Seq<PriceLevel>,
    outcome: u16,
    for_order: bool,
    expected: u64,
    remaining: u64,
    slots: nat,
) -> Seq<(PriceLevel, u64)>
    decreases levels.len(),
{
    if levels.len() == 0 || remaining == 0 || slots == 0 {
        Seq::empty()
    } else if levels[0].outcome != outcome {
        scan(levels.drop_first(), outcome, for_order, expected, remaining, slots)
    } else if !price_acceptable(for_order, levels[0].price, expected) {
        Seq::empty()
    } else {
        let s = if levels[0].liquidity < remaining {
            levels[0].liquidity
        } else {
            remaining
        };
        seq![(levels[0], s)] + scan(
            levels.drop_first(),
            outcome,
            for_order,
            expected,
            (remaining - s) as u64,
            (slots - 1) as nat,
        )
    }
}

/// The levels an order is matched against, with the stake matched at each.
pub open spec fn match_plan(b: BookModel, o: Order) -> Seq<(PriceLevel, u64)> {
    scan(
        side_levels(b, !o.for_outcome),
        o.market_outcome_index,
        o.for_outcome,
        o.expected_price,
        o.stake_unmatched,
        MATCH_CAPACITY as nat,
    )
}

/// The plan as a ladder and the (index, stake) pairs that pick its levels.
pub open spec fn plan_of(levels: Seq<PriceLevel>, picks: Seq<(usize, u64)>) -> Seq<(PriceLevel, u64)> {
    picks.map_values(|p: (usize, u64)| (levels[p.0 as int], p.1))
}

/// Finds the levels an order is matched against, as indices into the ladder.
fn scan_ladder(
    levels: &Vec<MarketOutcomePriceLiquidity>,
    outcome: u16,
    for_order: bool,
    expected: u64,
    stake: u64,
) -> (r: Vec<(usize, u64)>)
    ensures
        forall|k: int| 0 <= k < r@.len() ==> (#[trigger] r@[k]).0 < levels@.len(),
        plan_of(levels_view(levels@), r@) == scan(
            levels_view(levels@),
            outcome,
            for_order,
            expected,
            stake,
            MATCH_CAPACITY as nat,
        ),
        r@.len() <= MATCH_CAPACITY,
{
    let ghost s = levels_view(levels@);
    let ghost whole = scan(s, outcome, for_order, expected, stake, MATCH_CAPACITY as nat);
    let mut picks: Vec<(usize, u64)> = Vec::new();
    let mut remaining = stake;
    let mut slots: usize = MATCH_CAPACITY;
    let mut i: usize = 0;
    let mut done = false;
    assert(s.skip(0) =~= s);
    assert(plan_of(s, picks@) =~= Seq::empty());
    while !done && i < levels.len()
        invariant
            0 <= i <= levels@.len(),
            s == levels_view(levels@),
            whole == scan(s, outcome, for_order, expected, stake, MATCH_CAPACITY as nat),
            picks@.len() + slots == MATCH_CAPACITY,
            forall|k: int| 0 <= k < picks@.len() ==> (#[trigger] picks@[k]).0 < levels@.len(),
            plan_of(s, picks@) + scan(s.skip(i as int), outcome, for_order, expected, remaining, slots as nat) == whole,
            done ==> scan(s.skip(i as int), outcome, for_order, expected, remaining, slots as nat)
                == Seq::<(PriceLevel, u64)>::empty(),
        decreases levels@.len() - i + (if done { 0int } else { 1int }),
    {
        let ghost rest = s.skip(i as int);
        proof {
            assert(rest[0] == s[i as int]);
            assert(rest.drop_first() =~= s.skip(i + 1));
            assert(s[i as int] == levels@[i as int]@);
        }
        if remaining == 0 || slots == 0 {
            done = true;
        } else {
            let l = &levels[i];
            if l.outcome != outcome {
                i = i + 1;
            } else if !(if for_order {
                l.price >= expected
            } else {
                l.price <= expected
            }) {
                done = true;
            } else {
                let m = if l.liquidity < remaining {
                    l.liquidity
                } else {
                    remaining
                };
                let ghost before = picks@;
                picks.push((i, m));
                proof {
                    assert(plan_of(s, picks@) =~= plan_of(s, before) + seq![(s[i as int], m)]);
                    assert(plan_of(s, picks@) + scan(
                        s.skip(i + 1),
                        outcome,
                        for_order,
                        expected,
                        (remaining - m) as u64,
                        (slots - 1) as nat,
                    ) =~= plan_of(s, before) + scan(rest, outcome, for_order, expected, remaining, slots as nat));
                }
                remaining = remaining - m;
                slots = slots - 1;
                i = i + 1;
            }
        }
    }
    proof {
        if !done {
            assert(s.skip(i as int).len() == 0);
        }
        assert(plan_of(s, picks@) + Seq::<(PriceLevel, u64)>::empty() =~= plan_of(s, picks@));
    }
    picks
}

/// The order after every match of the plan, in order; `None` when a payout overflows.
pub open spec fn order_after_plan(o: Order, plan: Seq<(PriceLevel, u64)>) -> Option<Order>
    decreases plan.len(),
{
    if plan.len() == 0 {
        Some(o)
    } else {
        match order_after_plan(o, plan.drop_last()) {
            None => None,
            Some(o1) => order_after_match(o1, plan.last().1, plan.last().0.price),
        }
    }
}

/// Every source of a cross level has a price, and its converted stake fits in `u64`.
pub open spec fn cross_ok(l: PriceLevel, stake: u64) -> bool {
    forall|j: int|
        0 <= j < l.sources.len() ==> #[trigger] l.sources[j].price > 0 && stake_cross_spec(
            stake,
            l.price,
            l.sources[j].price,
        ) <= u64::MAX
}

/// Every cross level of the plan converts its stake without overflow.
pub open spec fn plan_cross_ok(plan: Seq<(PriceLevel, u64)>) -> bool {
    forall|k: int| 0 <= k < plan.len() ==> cross_ok(#[trigger] plan[k].0, plan[k].1)
}

/// The maker record of one source of a cross level matched for `stake`.
pub open spec fn source_maker(o: Order, l: PriceLevel, stake: u64, src: LiquidityKey) -> OrderMatch {
    OrderMatch::maker_spec(
        o.for_outcome,
        src.outcome,
        src.price,
        stake_cross_spec(stake, l.price, src.price) as u64,
    )
}

/// The maker records of one matched level: one at the level for direct liquidity, one
/// per source at the source's own outcome and price for cross liquidity.
pub open spec fn maker_records(o: Order, l: PriceLevel, stake: u64) -> Seq<OrderMatch> {
    if l.sources.len() == 0 {
        seq![OrderMatch::maker_spec(!o.for_outcome, o.market_outcome_index, l.price, stake)]
    } else {
        l.sources.map_values(|src: LiquidityKey| source_maker(o, l, stake, src))
    }
}

/// The records of one matched level: its maker records, then the taker record.
pub open spec fn level_records(key: AccountKey, o: Order, l: PriceLevel, stake: u64) -> Seq<
    OrderMatch,
> {
    maker_records(o, l, stake) + seq![
        OrderMatch::taker_spec(key, o.for_outcome, o.market_outcome_index, l.price, stake),
    ]
}

/// The records of a whole plan, level after level.
pub open spec fn plan_records(key: AccountKey, o: Order, plan: Seq<(PriceLevel, u64)>) -> Seq<
    OrderMatch,
>
    decreases plan.len(),
{
    if plan.len() == 0 {
        Seq::empty()
    } else {
        plan_records(key, o, plan.drop_last()) + level_records(
            key,
            o,
            plan.last().0,
            plan.last().1,
        )
    }
}

/// (stake, price) of each match of the plan.
pub open spec fn plan_result(plan: Seq<(PriceLevel, u64)>) -> Seq<(u64, u64)> {
    plan.map_values(|p: (PriceLevel, u64)| (p.1, p.0.price))
}

proof fn lemma_order_after_plan_none(o: Order, plan: Seq<(PriceLevel, u64)>, k: int)
    requires
        0 <= k <= plan.len(),
        order_after_plan(o, plan.take(k)) is None,
    ensures
        order_after_plan(o, plan) is None,
    decreases plan.len() - k,
{
    if k < plan.len() {
        assert(plan.take(k + 1).drop_last() =~= plan.take(k));
        lemma_order_after_plan_none(o, plan, k + 1);
    } else {
        assert(plan.take(k) =~= plan);
    }
}

/// Applies the plan's matches to a copy of the order; `None` when a payout overflows.
fn order_after_matches(
    o: Order,
    levels: &Vec<MarketOutcomePriceLiquidity>,
    picks: &Vec<(usize, u64)>,
) -> (r: Option<Order>)
    requires
        forall|k: int| 0 <= k < picks@.len() ==> (#[trigger] picks@[k]).0 < levels@.len(),
    ensures
        r == order_after_plan(o, plan_of(levels_view(levels@), picks@)),
{
    let ghost plan = plan_of(levels_view(levels@), picks@);
    let mut cur = o;
    let mut k: usize = 0;
    assert(plan.take(0) =~= Seq::<(PriceLevel, u64)>::empty());
    while k < picks.len()
        invariant
            0 <= k <= picks@.len(),
            plan == plan_of(levels_view(levels@), picks@),
            forall|k: int| 0 <= k < picks@.len() ==> (#[trigger] picks@[k]).0 < levels@.len(),
            order_after_plan(o, plan.take(k as int)) == Some(cur),
        decreases picks@.len() - k,
    {
        let (i, m) = picks[k];
        let price = levels[i].price;
        proof {
            assert(plan.take(k + 1).drop_last() =~= plan.take(k as int));
            assert(plan[k as int] == (levels_view(levels@)[i as int], m));
        }
        match cur.match_stake_unmatched(m, price) {
            Ok(()) => {},
            Err(_) => {
                proof {
                    lemma_order_after_plan_none(o, plan, k + 1);
                }
                return None;
            },
        }
        k = k + 1;
    }
    assert(plan.take(k as int) =~= plan);
    Some(cur)
}

/// Builds the match records of the plan; `None` when a cross-converted stake cannot be
/// computed.
fn build_records(
    key: AccountKey,
    o: Order,
    levels: &Vec<MarketOutcomePriceLiquidity>,
    picks: &Vec<(usize, u64)>,
) -> (r: Option<Vec<OrderMatch>>)
    requires
        forall|k: int| 0 <= k < picks@.len() ==> (#[trigger] picks@[k]).0 < levels@.len(),
    ensures
        ({
            let plan = plan_of(levels_view(levels@), picks@);
            match r {
                Some(v) => plan_cross_ok(plan) && v@ == plan_records(key, o, plan),
                None => !plan_cross_ok(plan),
            }
        }),
{
    let ghost plan = plan_of(levels_view(levels@), picks@);
    let mut v: Vec<OrderMatch> = Vec::new();
    let mut k: usize = 0;
    assert(plan.take(0) =~= Seq::<(PriceLevel, u64)>::empty());
    while k < picks.len()
        invariant
            0 <= k <= picks@.len(),
            plan == plan_of(levels_view(levels@), picks@),
            forall|k: int| 0 <= k < picks@.len() ==> (#[trigger] picks@[k]).0 < levels@.len(),
            v@ == plan_records(key, o, plan.take(k as int)),
            forall|t: int| 0 <= t < k ==> cross_ok(#[trigger] plan[t].0, plan[t].1),
        decreases picks@.len() - k,
    {
        let (i, m) = picks[k];
        let l = &levels[i];
        let ghost lv = l@;
        proof {
            assert(plan.take(k + 1).drop_last() =~= plan.take(k as int));
            assert(plan[k as int] == (levels_view(levels@)[i as int], m));
            assert(levels_view(levels@)[i as int] == lv);
        }
        let ghost start = v@;
        if l.sources.len() == 0 {
            v.push(OrderMatch::maker(!o.for_outcome, o.market_outcome_index, l.price, m));
            assert(v@ =~= start + maker_records(o, lv, m));
        } else {
            let mut j: usize = 0;
            while j < l.sources.len()
                invariant
                    0 <= j <= lv.sources.len(),
                    lv == l@,
                    0 <= k < picks@.len(),
                    plan == plan_of(levels_view(levels@), picks@),
                    plan[k as int] == (lv, m),
                    start == plan_records(key, o, plan.take(k as int)),
                    forall|t: int| 0 <= t < k ==> cross_ok(#[trigger] plan[t].0, plan[t].1),
                    v@ == start + lv.sources.take(j as int).map_values(
                        |src: LiquidityKey| source_maker(o, lv, m, src),
                    ),
                    forall|t: int|
                        0 <= t < j ==> #[trigger] lv.sources[t].price > 0 && stake_cross_spec(
                            m,
                            lv.price,
                            lv.sources[t].price,
                        ) <= u64::MAX,
                decreases lv.sources.len() - j,
            {
                let src = l.sources[j];
                match crate::price::calculate_stake_cross(m, l.price, src.price) {
                    Some(cs) => {
                        let ghost before = v@;
                        v.push(OrderMatch::maker(o.for_outcome, src.outcome, src.price, cs));
                        proof {
                            assert(lv.sources.take(j + 1) =~= lv.sources.take(j as int).push(src));
                            assert(v@ =~= start + lv.sources.take(j + 1).map_values(
                                |src: LiquidityKey| source_maker(o, lv, m, src),
                            ));
                        }
                    },
                    None => {
                        proof {
                            assert(src == lv.sources[j as int]);
                            assert(!cross_ok(plan[k as int].0, plan[k as int].1));
                        }
                        return None;
                    },
                }
                j = j + 1;
            }
            proof {
                assert(lv.sources.take(j as int) =~= lv.sources);
            }
        }
        v.push(OrderMatch::taker(key, o.for_outcome, o.market_outcome_index, l.price, m));
        proof {
            assert(v@ =~= start + level_records(key, o, lv, m));
        }
        k = k + 1;
    }
    assert(plan.take(k as int) =~= plan);
    Some(v)
}

/// Takes from the `for_side` ladder, at each source's outcome and price, the stake
/// `stake` at `price` converts to.
pub open spec fn remove_sources(
    b: BookModel,
    for_side: bool,
    sources: Seq<LiquidityKey>,
    stake: u64,
    price: u64,
) -> Result<BookModel, LiquidityError>
    decreases sources.len(),
{
    if sources.len() == 0 {
        Ok(b)
    } else {
        match remove_sources(b, for_side, sources.drop_last(), stake, price) {
            Err(e) => Err(e),
            Ok(b1) => book_remove(
                b1,
                for_side,
                sources.last().outcome,
                sources.last().price,
                0,
                stake_cross_spec(stake, price, sources.last().price) as u64,
            ),
        }
    }
}

/// The book after one matched level: its stake taken from the opposite ladder, the
/// matched total raised, and the converted stakes taken from each source level.
pub open spec fn apply_level(b: BookModel, o: Order, l: PriceLevel, stake: u64) -> Result<
    BookModel,
    MatchingError,
> {
    match book_remove(
        b,
        !o.for_outcome,
        o.market_outcome_index,
        l.price,
        sources_ord_spec(l.sources),
        stake,
    ) {
        Err(_) => Err(MatchingError::MatchingRemainingLiquidityTooSmall),
        Ok(b1) => match book_add_matched(b1, stake) {
            Err(_) => Err(MatchingError::MarketLiquiditiesUpdateError),
            Ok(b2) => match remove_sources(b2, o.for_outcome, l.sources, stake, l.price) {
                Err(_) => Err(MatchingError::MatchingRemainingLiquidityTooSmall),
                Ok(b3) => Ok(b3),
            },
        },
    }
}

/// The book after every level of the plan, in order.
pub open spec fn apply_plan(b: BookModel, o: Order, plan: Seq<(PriceLevel, u64)>) -> Result<
    BookModel,
    MatchingError,
>
    decreases plan.len(),
{
    if plan.len() == 0 {
        Ok(b)
    } else {
        match apply_plan(b, o, plan.drop_last()) {
            Err(e) => Err(e),
            Ok(b1) => apply_level(b1, o, plan.last().0, plan.last().1),
        }
    }
}

/// The book with what is left of the order resting on the order's own side at its
/// expected price.
pub open spec fn add_residual(b: BookModel, o: Order) -> Result<BookModel, MatchingError> {
    if o.stake_unmatched == 0 {
        Ok(b)
    } else {
        match book_add(
            b,
            o.for_outcome,
            o.market_outcome_index,
            o.expected_price,
            Seq::empty(),
            o.stake_unmatched,
        ) {
            Ok(c) => Ok(c),
            Err(LiquidityError::MarketLiquiditiesIsFull) => Err(
                MatchingError::MarketLiquiditiesIsFull,
            ),
            Err(LiquidityError::MarketLiquiditiesUpdateError) => Err(
                MatchingError::MarketLiquiditiesUpdateError,
            ),
        }
    }
}

proof fn lemma_apply_plan_err(b: BookModel, o: Order, plan: Seq<(PriceLevel, u64)>, k: int)
    requires
        0 <= k <= plan.len(),
        apply_plan(b, o, plan.take(k)) is Err,
    ensures
        apply_plan(b, o, plan) == apply_plan(b, o, plan.take(k)),
    decreases plan.len() - k,
{
    if k < plan.len() {
        assert(plan.take(k + 1).drop_last() =~= plan.take(k));
        lemma_apply_plan_err(b, o, plan, k + 1);
    } else {
        assert(plan.take(k) =~= plan);
    }
}

proof fn lemma_remove_sources_err(
    b: BookModel,
    for_side: bool,
    sources: Seq<LiquidityKey>,
    stake: u64,
    price: u64,
    j: int,
)
    requires
        0 <= j <= sources.len(),
        remove_sources(b, for_side, sources.take(j), stake, price) is Err,
    ensures
        remove_sources(b, for_side, sources, stake, price) is Err,
    decreases sources.len() - j,
{
    if j < sources.len() {
        assert(sources.take(j + 1).drop_last() =~= sources.take(j));
        lemma_remove_sources_err(b, for_side, sources, stake, price, j + 1);
    } else {
        assert(sources.take(j) =~= sources);
    }
}

/// Applies the plan's removals and matched totals to the book.
fn apply_matches(
    nb: &mut MarketLiquidities,
    o: Order,
    levels: &Vec<MarketOutcomePriceLiquidity>,
    picks: &Vec<(usize, u64)>,
) -> (r: Result<(), MatchingError>)
    requires
        old(nb).wf(),
        forall|k: int| 0 <= k < picks@.len() ==> (#[trigger] picks@[k]).0 < levels@.len(),
        plan_cross_ok(plan_of(levels_view(levels@), picks@)),
    ensures
        match apply_plan(old(nb)@, o, plan_of(levels_view(levels@), picks@)) {
            Ok(c) => r is Ok && final(nb)@ == c && final(nb).wf(),
            Err(e) => r == Err::<(), MatchingError>(e),
        },
{
    let ghost plan = plan_of(levels_view(levels@), picks@);
    let ghost b0 = nb@;
    let mut k: usize = 0;
    assert(plan.take(0) =~= Seq::<(PriceLevel, u64)>::empty());
    while k < picks.len()
        invariant
            0 <= k <= picks@.len(),
            plan == plan_of(levels_view(levels@), picks@),
            forall|k: int| 0 <= k < picks@.len() ==> (#[trigger] picks@[k]).0 < levels@.len(),
            plan_cross_ok(plan),
            nb.wf(),
            b0 == old(nb)@,
            apply_plan(b0, o, plan.take(k as int)) == Ok::<BookModel, MatchingError>(nb@),
        decreases picks@.len() - k,
    {
        let (i, m) = picks[k];
        let l = &levels[i];
        let ghost lv = l@;
        proof {
            assert(plan.take(k + 1).drop_last() =~= plan.take(k as int));
            assert(plan.take(k + 1).last() == plan[k as int]);
            assert(plan[k as int] == (levels_view(levels@)[i as int], m));
            assert(levels_view(levels@)[i as int] == lv);
            assert(cross_ok(plan[k as int].0, plan[k as int].1));
        }
        let ghost bk = nb@;
        let ord = MarketLiquidities::sources_ord(l.sources.as_slice());
        match nb.remove_side(!o.for_outcome, o.market_outcome_index, l.price, ord, m) {
            Ok(()) => {},
            Err(_) => {
                proof {
                    assert(book_remove(
                        bk,
                        !o.for_outcome,
                        o.market_outcome_index,
                        lv.price,
                        sources_ord_spec(lv.sources),
                        m,
                    ) is Err);
                    assert(apply_level(bk, o, lv, m) == Err::<BookModel, MatchingError>(
                        MatchingError::MatchingRemainingLiquidityTooSmall,
                    ));
                    assert(apply_plan(b0, o, plan.take(k + 1)) == apply_level(bk, o, lv, m));
                    lemma_apply_plan_err(b0, o, plan, k + 1);
                }
                return Err(MatchingError::MatchingRemainingLiquidityTooSmall);
            },
        }
        match nb.update_stake_matched_total(m) {
            Ok(()) => {},
            Err(_) => {
                proof {
                    lemma_apply_plan_err(b0, o, plan, k + 1);
                }
                return Err(MatchingError::MarketLiquiditiesUpdateError);
            },
        }
        let ghost b2 = nb@;
        let mut j: usize = 0;
        assert(lv.sources.take(0) =~= Seq::<LiquidityKey>::empty());
        assert(apply_plan(b0, o, plan.take(k + 1)) == (match remove_sources(
            b2,
            o.for_outcome,
            lv.sources,
            m,
            lv.price,
        ) {
            Err(_) => Err(MatchingError::MatchingRemainingLiquidityTooSmall),
            Ok(b3) => Ok(b3),
        }));
        while j < l.sources.len()
            invariant
                0 <= j <= lv.sources.len(),
                lv == l@,
                0 <= k < picks@.len(),
                plan == plan_of(levels_view(levels@), picks@),
                b0 == old(nb)@,
                apply_plan(b0, o, plan.take(k + 1)) == (match remove_sources(
                    b2,
                    o.for_outcome,
                    lv.sources,
                    m,
                    lv.price,
                ) {
                    Err(_) => Err(MatchingError::MatchingRemainingLiquidityTooSmall),
                    Ok(b3) => Ok(b3),
                }),
                cross_ok(lv, m),
                nb.wf(),
                remove_sources(b2, o.for_outcome, lv.sources.take(j as int), m, lv.price) == Ok::<
                    BookModel,
                    LiquidityError,
                >(nb@),
            decreases lv.sources.len() - j,
        {
            let src = l.sources[j];
            proof {
                assert(src == lv.sources[j as int]);
                assert(lv.sources.take(j + 1).drop_last() =~= lv.sources.take(j as int));
            }
            let cs = match crate::price::calculate_stake_cross(m, l.price, src.price) {
                Some(cs) => cs,
                None => {
                    return Err(MatchingError::MatchingPayoutAmountError);
                },
            };
            match nb.remove_side(o.for_outcome, src.outcome, src.price, 0, cs) {
                Ok(()) => {},
                Err(_) => {
                    proof {
                        lemma_remove_sources_err(b2, o.for_outcome, lv.sources, m, lv.price, j + 1);
                        lemma_apply_plan_err(b0, o, plan, k + 1);
                    }
                    return Err(MatchingError::MatchingRemainingLiquidityTooSmall);
                },
            }
            j = j + 1;
        }
        proof {
            assert(lv.sources.take(j as int) =~= lv.sources);
        }
        k = k + 1;
    }
    assert(plan.take(k as int) =~= plan);
    Ok(())
}

/// What a successful matching pass leaves: the book, the records it queued, the order.
pub struct CreationOutcome {
    pub book: BookModel,
    pub records: Seq<OrderMatch>,
    pub order: Order,
}

/// A matching pass for order `o` (named `key`) against book `b`, with `queued` records
/// already in a matching queue of capacity `capacity`. The first refusal, in this order:
/// a payout or converted stake that overflows, records that do not fit in the queue, a
/// book change that fails.
pub open spec fn order_creation(
    b: BookModel,
    queued: nat,
    capacity: nat,
    key: AccountKey,
    o: Order,
) -> Result<CreationOutcome, MatchingError> {
    let plan = match_plan(b, o);
    match order_after_plan(o, plan) {
        None => Err(MatchingError::MatchingPayoutAmountError),
        Some(o2) => if !plan_cross_ok(plan) {
            Err(MatchingError::MatchingPayoutAmountError)
        } else {
            let records = plan_records(key, o, plan);
            if queued + records.len() > capacity {
                Err(MatchingError::MatchingQueueIsFull)
            } else {
                match apply_plan(b, o, plan) {
                    Err(e) => Err(e),
                    Ok(b2) => match add_residual(b2, o2) {
                        Err(e) => Err(e),
                        Ok(b3) => Ok(CreationOutcome { book: b3, records, order: o2 }),
                    },
                }
            }
        },
    }
}

fn plan_pairs(levels: &Vec<MarketOutcomePriceLiquidity>, picks: &Vec<(usize, u64)>) -> (r: Vec<
    (u64, u64),
>)
    requires
        forall|k: int| 0 <= k < picks@.len() ==> (#[trigger] picks@[k]).0 < levels@.len(),
    ensures
        r@ == plan_result(plan_of(levels_view(levels@), picks@)),
{
    let ghost want = plan_result(plan_of(levels_view(levels@), picks@));
    let mut r: Vec<(u64, u64)> = Vec::new();
    let mut k: usize = 0;
    while k < picks.len()
        invariant
            0 <= k <= picks@.len(),
            want == plan_result(plan_of(levels_view(levels@), picks@)),
            forall|k: int| 0 <= k < picks@.len() ==> (#[trigger] picks@[k]).0 < levels@.len(),
            r@ == want.take(k as int),
        decreases picks@.len() - k,
    {
        let (i, m) = picks[k];
        proof {
            assert(levels_view(levels@)[i as int] == levels@[i as int]@);
        }
        r.push((m, levels[i].price));
        k = k + 1;
        assert(r@ =~= want.take(k as int));
    }
    assert(want.take(k as int) =~= want);
    r
}

/// Matches an incoming order against the opposite ladder of its outcome, best price
/// first: queues a maker record per direct level, or per source of a cross level, and a
/// taker record per level; takes the matched stake from the book, its cross-converted
/// stake from each source level, and adds it to the matched total; lowers the order's
/// unmatched stake and raises its payout; and leaves what is left of the order resting
/// on its own side at its expected price. Returns (stake, price) of each match. On any
/// refusal the book, the queue and the order are left as they were.
pub fn on_order_creation(
    market_liquidities: &mut MarketLiquidities,
    market_matching_queue: &mut MatchingQueue,
    order_key: &AccountKey,
    order: &mut Order,
) -> (r: Result<Vec<(u64, u64)>, MatchingError>)
    requires
        old(market_liquidities).wf(),
        old(market_matching_queue).wf(),
    ensures
        final(market_liquidities).wf(),
        final(market_matching_queue).wf(),
        final(market_matching_queue).cap() == old(market_matching_queue).cap(),
        match order_creation(
            old(market_liquidities)@,
            old(market_matching_queue).items().len(),
            old(market_matching_queue).cap(),
            *order_key,
            *old(order),
        ) {
            Ok(c) => r matches Ok(v) && v@ == plan_result(
                match_plan(old(market_liquidities)@, *old(order)),
            ) && final(market_liquidities)@ == c.book && final(market_matching_queue).items()
                == old(market_matching_queue).items() + c.records && *final(order) == c.order,
            Err(e) => r == Err::<Vec<(u64, u64)>, MatchingError>(e) && final(market_liquidities)@
                == old(market_liquidities)@ && final(market_matching_queue).items() == old(
                market_matching_queue,
            ).items() && *final(order) == *old(order),
        },
{
    let o = *order;
    let ghost b0 = market_liquidities@;
    let ladder = if o.for_outcome {
        &market_liquidities.liquidities_against
    } else {
        &market_liquidities.liquidities_for
    };
    assert(levels_view(ladder@) == side_levels(b0, !o.for_outcome));
    let picks = scan_ladder(
        ladder,
        o.market_outcome_index,
        o.for_outcome,
        o.expected_price,
        o.stake_unmatched,
    );
    let ghost plan = plan_of(levels_view(ladder@), picks@);
    assert(plan == match_plan(b0, o));
    let o2 = match order_after_matches(o, ladder, &picks) {
        Some(x) => x,
        None => {
            return Err(MatchingError::MatchingPayoutAmountError);
        },
    };
    let records = match build_records(*order_key, o, ladder, &picks) {
        Some(v) => v,
        None => {
            return Err(MatchingError::MatchingPayoutAmountError);
        },
    };
    if records.len() > market_matching_queue.capacity() - market_matching_queue.len() {
        return Err(MatchingError::MatchingQueueIsFull);
    }
    let mut nb = market_liquidities.copy();
    match apply_matches(&mut nb, o, ladder, &picks) {
        Ok(()) => {},
        Err(e) => {
            return Err(e);
        },
    }
    if o2.stake_unmatched > 0 {
        let res = if o2.for_outcome {
            nb.add_liquidity_for(o2.market_outcome_index, o2.expected_price, o2.stake_unmatched)
        } else {
            nb.add_liquidity_against(o2.market_outcome_index, o2.expected_price, o2.stake_unmatched)
        };
        match res {
            Ok(()) => {},
            Err(LiquidityError::MarketLiquiditiesIsFull) => {
                return Err(MatchingError::MarketLiquiditiesIsFull);
            },
            Err(LiquidityError::MarketLiquiditiesUpdateError) => {
                return Err(MatchingError::MarketLiquiditiesUpdateError);
            },
        }
    }
    let result = plan_pairs(ladder, &picks);
    let ghost q0 = market_matching_queue.items();
    let mut t: usize = 0;
    while t < records.len()
        invariant
            0 <= t <= records@.len(),
            market_matching_queue.wf(),
            market_matching_queue.cap() == old(market_matching_queue).cap(),
            q0 == old(market_matching_queue).items(),
            q0.len() + records@.len() <= market_matching_queue.cap(),
            market_matching_queue.items() == q0 + records@.take(t as int),
        decreases records@.len() - t,
    {
        let ok = market_matching_queue.enqueue(records[t]);
        t = t + 1;
        assert(market_matching_queue.items() =~= q0 + records@.take(t as int));
    }
    assert(records@.take(t as int) =~= records@);
    *order = o2;
    *market_liquidities = nb;
    Ok(result)
}

} // verus!
