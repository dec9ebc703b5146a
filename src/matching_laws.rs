use vstd::prelude::*;

use crate::book_laws::lemma_add_then_remove_restores;
use crate::liquidity::{
    book_add, book_add_matched, book_remove, book_wf, insert_pos, key_index, lemma_insert_pos,
    side_levels, sources_ord_spec, BookModel, LiquidityKey, PriceLevel,
};
use crate::matching::{
    apply_level, apply_plan, match_plan, order_after_plan, order_creation,
    remove_sources, scan, MatchingError, MATCH_CAPACITY,
};
use crate::order::Order;
use crate::queue::AccountKey;

verus! {

/// The stake matched over a plan.
pub open spec fn plan_stake(plan: Seq<(PriceLevel, u64)>) -> int
    decreases plan.len(),
{
    if plan.len() == 0 {
        0
    } else {
        plan_stake(plan.drop_last()) + plan.last().1
    }
}

proof fn lemma_plan_stake_cons(x: (PriceLevel, u64), rest: Seq<(PriceLevel, u64)>)
    ensures
        plan_stake(seq![x] + rest) == x.1 + plan_stake(rest),
    decreases rest.len(),
{
    let whole = seq![x] + rest;
    if rest.len() == 0 {
        assert(whole.drop_last() =~= Seq::<(PriceLevel, u64)>::empty());
        assert(whole.last() == x);
        assert(plan_stake(Seq::<(PriceLevel, u64)>::empty()) == 0);
    } else {
        assert(whole.drop_last() =~= seq![x] + rest.drop_last());
        assert(whole.last() == rest.last());
        lemma_plan_stake_cons(x, rest.drop_last());
    }
}

/// A walk matches at most `slots` levels and at most the stake it starts with.
pub proof fn lemma_scan_bounds(
    levels: Seq<PriceLevel>,
    outcome: u16,
    for_order: bool,
    expected: u64,
    remaining: u64,
    slots: nat,
)
    ensures
        scan(levels, outcome, for_order, expected, remaining, slots).len() <= slots,
        plan_stake(scan(levels, outcome, for_order, expected, remaining, slots)) <= remaining,
    decreases levels.len(),
{
    let r = scan(levels, outcome, for_order, expected, remaining, slots);
    if levels.len() == 0 || remaining == 0 || slots == 0 {
    } else if levels[0].outcome != outcome {
        lemma_scan_bounds(levels.drop_first(), outcome, for_order, expected, remaining, slots);
    } else if !crate::matching::price_acceptable(for_order, levels[0].price, expected) {
    } else {
        let s = if levels[0].liquidity < remaining {
            levels[0].liquidity
        } else {
            remaining
        };
        lemma_scan_bounds(
            levels.drop_first(),
            outcome,
            for_order,
            expected,
            (remaining - s) as u64,
            (slots - 1) as nat,
        );
        lemma_plan_stake_cons(
            (levels[0], s),
            scan(levels.drop_first(), outcome, for_order, expected, (remaining - s) as u64, (slots - 1) as nat),
        );
    }
}

proof fn lemma_order_after_plan_stake(o: Order, plan: Seq<(PriceLevel, u64)>)
    requires
        order_after_plan(o, plan) is Some,
    ensures
        ({
            let o2 = order_after_plan(o, plan)->Some_0;
            &&& o2.stake_unmatched == o.stake_unmatched - plan_stake(plan)
            &&& o2.market_outcome_index == o.market_outcome_index
            &&& o2.for_outcome == o.for_outcome
            &&& o2.expected_price == o.expected_price
        }),
    decreases plan.len(),
{
    if plan.len() > 0 {
        lemma_order_after_plan_stake(o, plan.drop_last());
    }
}

proof fn lemma_remove_sources_total(
    b: BookModel,
    for_side: bool,
    sources: Seq<LiquidityKey>,
    stake: u64,
    price: u64,
)
    requires
        remove_sources(b, for_side, sources, stake, price) is Ok,
    ensures
        remove_sources(b, for_side, sources, stake, price)->Ok_0.stake_matched_total
            == b.stake_matched_total,
    decreases sources.len(),
{
    if sources.len() > 0 {
        lemma_remove_sources_total(b, for_side, sources.drop_last(), stake, price);
    }
}

proof fn lemma_apply_plan_total(b: BookModel, o: Order, plan: Seq<(PriceLevel, u64)>)
    requires
        apply_plan(b, o, plan) is Ok,
    ensures
        apply_plan(b, o, plan)->Ok_0.stake_matched_total == b.stake_matched_total + plan_stake(
            plan,
        ),
    decreases plan.len(),
{
    if plan.len() > 0 {
        lemma_apply_plan_total(b, o, plan.drop_last());
        let b1 = apply_plan(b, o, plan.drop_last())->Ok_0;
        let l = plan.last().0;
        let s = plan.last().1;
        let b2 = book_remove(
            b1,
            !o.for_outcome,
            o.market_outcome_index,
            l.price,
            sources_ord_spec(l.sources),
            s,
        )->Ok_0;
        let b3 = book_add_matched(b2, s)->Ok_0;
        lemma_remove_sources_total(b3, o.for_outcome, l.sources, s, l.price);
    }
}

/// A matching pass matches at most `MATCH_CAPACITY` levels and at most the order's stake;
/// the order keeps unmatched exactly what was not matched, and the book's matched total
/// rises by exactly the stake matched, whatever rests afterwards.
pub proof fn lemma_creation_accounting(
    b: BookModel,
    queued: nat,
    capacity: nat,
    key: AccountKey,
    o: Order,
)
    requires
        order_creation(b, queued, capacity, key, o) is Ok,
    ensures
        ({
            let plan = match_plan(b, o);
            let c = order_creation(b, queued, capacity, key, o)->Ok_0;
            &&& plan.len() <= MATCH_CAPACITY
            &&& plan_stake(plan) <= o.stake_unmatched
            &&& c.order.stake_unmatched == o.stake_unmatched - plan_stake(plan)
            &&& c.book.stake_matched_total == b.stake_matched_total + plan_stake(plan)
        }),
{
    let plan = match_plan(b, o);
    lemma_scan_bounds(
        side_levels(b, !o.for_outcome),
        o.market_outcome_index,
        o.for_outcome,
        o.expected_price,
        o.stake_unmatched,
        MATCH_CAPACITY as nat,
    );
    lemma_order_after_plan_stake(o, plan);
    lemma_apply_plan_total(b, o, plan);
}

/// The walk over a ladder whose only level of the order's outcome holds exactly the
/// order's stake, at a price the order accepts, matches that level in full.
proof fn lemma_scan_single(
    levels: Seq<PriceLevel>,
    outcome: u16,
    for_order: bool,
    expected: u64,
    p: int,
    slots: nat,
)
    requires
        0 <= p < levels.len(),
        slots >= 1,
        levels[p].outcome == outcome,
        levels[p].liquidity > 0,
        crate::matching::price_acceptable(for_order, levels[p].price, expected),
        forall|j: int| 0 <= j < levels.len() && j != p ==> (#[trigger] levels[j]).outcome != outcome,
    ensures
        scan(levels, outcome, for_order, expected, levels[p].liquidity, slots) == seq![
            (levels[p], levels[p].liquidity),
        ],
    decreases levels.len(),
{
    if p > 0 {
        let rest = levels.drop_first();
        assert(levels[0].outcome != outcome);
        assert forall|j: int| 0 <= j < rest.len() && j != p - 1 implies (#[trigger] rest[j]).outcome
            != outcome by {
            assert(rest[j] == levels[j + 1]);
        }
        assert(rest[p - 1] == levels[p]);
        lemma_scan_single(rest, outcome, for_order, expected, p - 1, slots);
    } else {
        let rest = levels.drop_first();
        assert(scan(rest, outcome, for_order, expected, 0, (slots - 1) as nat) == Seq::<
            (PriceLevel, u64),
        >::empty());
        assert(seq![(levels[0], levels[0].liquidity)] + Seq::<(PriceLevel, u64)>::empty() =~= seq![
            (levels[0], levels[0].liquidity),
        ]);
    }
}

/// Direct liquidity added on an outcome where that side of the book held none, then
/// taken in full by an opposite order at that price for exactly that stake, leaves the
/// book as it was before the addition, with the matched total raised by the stake.
pub proof fn lemma_add_then_match_restores(
    b: BookModel,
    for_side: bool,
    outcome: u16,
    price: u64,
    amount: u64,
    queued: nat,
    capacity: nat,
    key: AccountKey,
    o: Order,
)
    requires
        book_wf(b),
        amount > 0,
        forall|j: int|
            0 <= j < side_levels(b, for_side).len() ==> (#[trigger] side_levels(
                b,
                for_side,
            )[j]).outcome != outcome,
        book_add(b, for_side, outcome, price, Seq::empty(), amount) is Ok,
        o.for_outcome == !for_side,
        o.market_outcome_index == outcome,
        o.expected_price == price,
        o.stake_unmatched == amount,
        order_creation(
            book_add(b, for_side, outcome, price, Seq::empty(), amount)->Ok_0,
            queued,
            capacity,
            key,
            o,
        ) is Ok,
    ensures
        order_creation(
            book_add(b, for_side, outcome, price, Seq::empty(), amount)->Ok_0,
            queued,
            capacity,
            key,
            o,
        )->Ok_0.book == (BookModel {
            stake_matched_total: (b.stake_matched_total + amount) as u64,
            ..b
        }),
{
    let empty = Seq::<LiquidityKey>::empty();
    let k = (outcome as int, price as int, sources_ord_spec(empty));
    let s = side_levels(b, for_side);
    assert(sources_ord_spec(empty) == 0);
    assert(key_index(for_side, s, k) < 0) by {
        lemma_insert_pos(for_side, s, k);
        let i = insert_pos(for_side, s, k);
        if i < s.len() {
            assert(s[i].outcome != outcome);
        }
    }
    let b1 = book_add(b, for_side, outcome, price, empty, amount)->Ok_0;
    let t = side_levels(b1, for_side);
    let l = PriceLevel { outcome, price, liquidity: amount, sources: empty };
    lemma_insert_pos(for_side, s, k);
    let p = insert_pos(for_side, s, k);
    assert(t == s.insert(p, l));
    assert(t[p] == l);
    assert forall|j: int| 0 <= j < t.len() && j != p implies (#[trigger] t[j]).outcome != outcome by {
        if j < p {
            assert(t[j] == s[j]);
        } else {
            assert(t[j] == s[j - 1]);
        }
    }
    assert(side_levels(b1, !o.for_outcome) == t);
    lemma_scan_single(t, outcome, o.for_outcome, price, p, MATCH_CAPACITY as nat);
    let plan = match_plan(b1, o);
    assert(plan == seq![(l, amount)]);
    lemma_add_then_remove_restores(b, for_side, outcome, price, empty, amount);
    assert(plan.drop_last() =~= Seq::<(PriceLevel, u64)>::empty());
    assert(book_remove(b1, for_side, outcome, price, 0, amount) == Ok::<
        BookModel,
        crate::liquidity::LiquidityError,
    >(b));
    assert(plan.last() == (l, amount));
    assert(apply_plan(b1, o, plan.drop_last()) == Ok::<BookModel, MatchingError>(b1));
    assert(apply_plan(b1, o, plan) == apply_level(b1, o, l, amount));
    assert(remove_sources(
        book_add_matched(b, amount)->Ok_0,
        o.for_outcome,
        empty,
        amount,
        price,
    ) == Ok::<BookModel, crate::liquidity::LiquidityError>(book_add_matched(b, amount)->Ok_0));
    assert(order_after_plan(o, plan.drop_last()) == Some(o));
}

} // verus!
