use vstd::prelude::*;

use crate::cross_price::{cross_price_spec, product, CrossPriceCalculator, CrossPriceError};
use crate::liquidity::{
    book_set, liquidity_at, side_levels, BookModel, LiquidityKey, MarketLiquidities,
};
use crate::price::{calculate_stake_cross, stake_cross_spec, PRICE_SCALE};

verus! {

/// Why cross liquidity was not updated; the book is left as it was.
#[derive(Clone, Copy, Debug, PartialEq, Eq, Structural)]
pub enum CrossLiquidityError {
    /// No cross price follows from the source prices: no sources, a zero price, products
    /// too large, or a quotient that is not a whole number of thousandths.
    CrossPriceUnavailable,
    /// The cross price given is not the one the source prices imply.
    CrossPriceMismatch,
    /// A converted source stake does not fit in `u64`.
    StakeOverflow,
    /// The cross level is new and the book is full.
    MarketLiquiditiesIsFull,
}

/// The prices of the sources, in order.
pub open spec fn source_prices(sources: Seq<LiquidityKey>) -> Seq<u64> {
    sources.map_values(|k: LiquidityKey| k.price)
}

/// The cross price the source prices imply, or `None`.
pub open spec fn implied_cross_price(sources: Seq<LiquidityKey>) -> Option<u64> {
    let prices = source_prices(sources);
    if sources.len() == 0 || exists|j: int| 0 <= j < prices.len() && prices[j] == 0 {
        None
    } else if product(prices) * PRICE_SCALE > u128::MAX {
        None
    } else {
        cross_price_spec((sources.len() + 1) as nat, prices)
    }
}

/// The stake a source level supports at the cross price: its direct liquidity (zero
/// where it has none) converted from its price to the cross price.
pub open spec fn source_stake(
    b: BookModel,
    source_for: bool,
    src: LiquidityKey,
    cross_price: u64,
) -> int {
    stake_cross_spec(
        liquidity_at(
            source_for,
            side_levels(b, source_for),
            (src.outcome as int, src.price as int, 0),
        ) as u64,
        src.price,
        cross_price,
    )
}

/// The smallest stake the sources support; `u64::MAX` for no sources.
pub open spec fn min_source_stake(
    b: BookModel,
    source_for: bool,
    sources: Seq<LiquidityKey>,
    cross_price: u64,
) -> int
    decreases sources.len(),
{
    if sources.len() == 0 {
        u64::MAX as int
    } else {
        let rest = min_source_stake(b, source_for, sources.drop_last(), cross_price);
        let s = source_stake(b, source_for, sources.last(), cross_price);
        if s < rest {
            s
        } else {
            rest
        }
    }
}

/// The book after setting the cross level derived from `sources` on the `source_for`
/// side: the level on the other side at `cross`, with the sources as its provenance and
/// the smallest converted source stake as its liquidity.
pub open spec fn cross_liquidity_update(
    b: BookModel,
    source_for: bool,
    sources: Seq<LiquidityKey>,
    cross: LiquidityKey,
) -> Result<BookModel, CrossLiquidityError> {
    match implied_cross_price(sources) {
        None => Err(CrossLiquidityError::CrossPriceUnavailable),
        Some(p) => if p != cross.price {
            Err(CrossLiquidityError::CrossPriceMismatch)
        } else if exists|j: int|
            0 <= j < sources.len() && source_stake(b, source_for, #[trigger] sources[j], p)
                > u64::MAX {
            Err(CrossLiquidityError::StakeOverflow)
        } else {
            match book_set(
                b,
                !source_for,
                cross.outcome,
                cross.price,
                sources,
                min_source_stake(b, source_for, sources, p) as u64,
            ) {
                Ok(c) => Ok(c),
                Err(_) => Err(CrossLiquidityError::MarketLiquiditiesIsFull),
            }
        },
    }
}

proof fn lemma_product_prefix_le(prices: Seq<u64>, i: int)
    requires
        0 <= i <= prices.len(),
        forall|j: int| 0 <= j < prices.len() ==> prices[j] >= 1,
    ensures
        1 <= product(prices.take(i)) <= product(prices),
    decreases prices.len() - i,
{
    if i < prices.len() {
        lemma_product_prefix_le(prices, i + 1);
        assert(prices.take(i + 1).drop_last() =~= prices.take(i));
        let a = product(prices.take(i));
        let m = prices[i] as int;
        assert(a <= a * m && a * m >= 1 ==> a >= 1 || a <= 0) by (nonlinear_arith);
        assert(a >= 1 || a <= 0);
        lemma_product_pos(prices.take(i));
        assert(a <= a * m) by (nonlinear_arith)
            requires
                a >= 1,
                m >= 1,
        ;
    } else {
        assert(prices.take(i) =~= prices);
        lemma_product_pos(prices);
    }
}

proof fn lemma_product_pos(prices: Seq<u64>)
    requires
        forall|j: int| 0 <= j < prices.len() ==> prices[j] >= 1,
    ensures
        product(prices) >= 1,
    decreases prices.len(),
{
    if prices.len() > 0 {
        lemma_product_pos(prices.drop_last());
        let a = product(prices.drop_last());
        let m = prices.last() as int;
        assert(a * m >= 1) by (nonlinear_arith)
            requires
                a >= 1,
                m >= 1,
        ;
    }
}

/// The smallest stake the sources on the `source_for` side support at `cross_price`;
/// refused when one does not fit in `u64`.
fn min_stake_of_sources(
    market_liquidities: &MarketLiquidities,
    source_for: bool,
    sources: &Vec<LiquidityKey>,
    cross_price: u64,
) -> (r: Result<u64, CrossLiquidityError>)
    requires
        market_liquidities.wf(),
        cross_price >= 1,
    ensures
        ({
            let b = market_liquidities@;
            let over = exists|j: int|
                0 <= j < sources@.len() && source_stake(b, source_for, #[trigger] sources@[j], cross_price)
                    > u64::MAX;
            if over {
                r == Err::<u64, CrossLiquidityError>(CrossLiquidityError::StakeOverflow)
            } else {
                r == Ok::<u64, CrossLiquidityError>(
                    min_source_stake(b, source_for, sources@, cross_price) as u64,
                )
            }
        }),
{
    let ghost b = market_liquidities@;
    let n = sources.len();
    let mut stake: u64 = u64::MAX;
    let mut j: usize = 0;
    assert(sources@.take(0) =~= Seq::<LiquidityKey>::empty());
    while j < n
        invariant
            n == sources@.len(),
            b == market_liquidities@,
            market_liquidities.wf(),
            cross_price >= 1,
            0 <= j <= n,
            stake == min_source_stake(b, source_for, sources@.take(j as int), cross_price),
            forall|t: int|
                0 <= t < j ==> source_stake(b, source_for, #[trigger] sources@[t], cross_price)
                    <= u64::MAX,
        decreases n - j,
    {
        let src = sources[j];
        let found = if source_for {
            market_liquidities.get_liquidity_for(src.outcome, src.price)
        } else {
            market_liquidities.get_liquidity_against(src.outcome, src.price)
        };
        let available: u64 = match found {
            Some(l) => l.liquidity,
            None => 0,
        };
        assert(available == liquidity_at(
            source_for,
            side_levels(b, source_for),
            (src.outcome as int, src.price as int, 0),
        ));
        proof {
            assert(sources@.take(j + 1).drop_last() =~= sources@.take(j as int));
            assert(sources@[j as int] == src);
        }
        let s = match calculate_stake_cross(available, src.price, cross_price) {
            Some(s) => s,
            None => {
                proof {
                    assert(source_stake(b, source_for, sources@[j as int], cross_price) > u64::MAX);
                }
                return Err(CrossLiquidityError::StakeOverflow);
            },
        };
        if s < stake {
            stake = s;
        }
        j = j + 1;
    }
    proof {
        assert(sources@.take(n as int) =~= sources@);
    }
    Ok(stake)
}

/// Sets the cross level at (`outcome`, `price`, `sources`) on the `cross_for` side to the
/// smallest stake its sources, on the other side, support at `price`.
pub open spec fn cross_recompute(
    b: BookModel,
    cross_for: bool,
    outcome: u16,
    price: u64,
    sources: Seq<LiquidityKey>,
) -> Result<BookModel, CrossLiquidityError> {
    if price == 0 {
        Err(CrossLiquidityError::CrossPriceUnavailable)
    } else if exists|j: int|
        0 <= j < sources.len() && source_stake(b, !cross_for, #[trigger] sources[j], price)
            > u64::MAX {
        Err(CrossLiquidityError::StakeOverflow)
    } else {
        match book_set(
            b,
            cross_for,
            outcome,
            price,
            sources,
            min_source_stake(b, !cross_for, sources, price) as u64,
        ) {
            Ok(c) => Ok(c),
            Err(_) => Err(CrossLiquidityError::MarketLiquiditiesIsFull),
        }
    }
}

fn recompute_cross(
    market_liquidities: &mut MarketLiquidities,
    cross_for: bool,
    outcome: u16,
    price: u64,
    sources: Vec<LiquidityKey>,
) -> (r: Result<(), CrossLiquidityError>)
    requires
        old(market_liquidities).wf(),
    ensures
        final(market_liquidities).wf(),
        match cross_recompute(old(market_liquidities)@, cross_for, outcome, price, sources@) {
            Ok(c) => r is Ok && final(market_liquidities)@ == c,
            Err(e) => r == Err::<(), CrossLiquidityError>(e) && final(market_liquidities)@ == old(
                market_liquidities,
            )@,
        },
{
    if price == 0 {
        return Err(CrossLiquidityError::CrossPriceUnavailable);
    }
    let stake = match min_stake_of_sources(market_liquidities, !cross_for, &sources, price) {
        Ok(v) => v,
        Err(e) => {
            return Err(e);
        },
    };
    let res = if cross_for {
        market_liquidities.set_liquidity_for(outcome, price, stake, sources)
    } else {
        market_liquidities.set_liquidity_against(outcome, price, stake, sources)
    };
    match res {
        Ok(()) => Ok(()),
        Err(_) => Err(CrossLiquidityError::MarketLiquiditiesIsFull),
    }
}

impl MarketLiquidities {
    /// Recomputes the "for" cross level at (`outcome`, `price`) derived from `sources`
    /// on the "against" side: its liquidity becomes the smallest source liquidity
    /// converted to `price`, a missing source counting as none.
    pub fn update_cross_liquidity_for(
        &mut self,
        outcome: u16,
        price: u64,
        sources: Vec<LiquidityKey>,
    ) -> (r: Result<(), CrossLiquidityError>)
        requires
            old(self).wf(),
        ensures
            final(self).wf(),
            match cross_recompute(old(self)@, true, outcome, price, sources@) {
                Ok(c) => r is Ok && final(self)@ == c,
                Err(e) => r == Err::<(), CrossLiquidityError>(e) && final(self)@ == old(self)@,
            },
    {
        recompute_cross(self, true, outcome, price, sources)
    }

    /// Recomputes the "against" cross level at (`outcome`, `price`) derived from
    /// `sources` on the "for" side.
    pub fn update_cross_liquidity_against(
        &mut self,
        outcome: u16,
        price: u64,
        sources: Vec<LiquidityKey>,
    ) -> (r: Result<(), CrossLiquidityError>)
        requires
            old(self).wf(),
        ensures
            final(self).wf(),
            match cross_recompute(old(self)@, false, outcome, price, sources@) {
                Ok(c) => r is Ok && final(self)@ == c,
                Err(e) => r == Err::<(), CrossLiquidityError>(e) && final(self)@ == old(self)@,
            },
    {
        recompute_cross(self, false, outcome, price, sources)
    }
}

/// Sets the cross liquidity on the side opposite the sources: the cross price implied by
/// the source prices must be exactly `cross_liquidity.price`; the level's liquidity is the
/// smallest source liquidity converted to the cross price. A cross price that cannot be
/// derived, or that differs from the one given, is refused, as is a new level on a full
/// book; a refusal leaves the book as it was.
pub fn update_market_liquidities_with_cross_liquidity(
    market_liquidities: &mut MarketLiquidities,
    source_for_outcome: bool,
    source_liquidities: Vec<LiquidityKey>,
    cross_liquidity: LiquidityKey,
) -> (r: Result<(), CrossLiquidityError>)
    requires
        old(market_liquidities).wf(),
        source_liquidities@.len() < usize::MAX,
    ensures
        final(market_liquidities).wf(),
        match cross_liquidity_update(
            old(market_liquidities)@,
            source_for_outcome,
            source_liquidities@,
            cross_liquidity,
        ) {
            Ok(c) => r is Ok && final(market_liquidities)@ == c,
            Err(e) => r == Err::<(), CrossLiquidityError>(e) && final(market_liquidities)@ == old(
                market_liquidities,
            )@,
        },
{
    let ghost sources = source_liquidities@;
    let ghost prices = source_prices(sources);
    let n = source_liquidities.len();
    if n == 0 {
        return Err(CrossLiquidityError::CrossPriceUnavailable);
    }
    let mut calc = CrossPriceCalculator::new(n + 1);
    assert(prices.take(0) =~= Seq::<u64>::empty());
    let mut i: usize = 0;
    while i < n
        invariant
            n == source_liquidities@.len(),
            sources == source_liquidities@,
            prices == source_prices(sources),
            0 <= i <= n,
            calc.wf(),
            calc.size() == n + 1,
            market_liquidities.wf(),
            market_liquidities@ == old(market_liquidities)@,
            calc.prices() == prices.take(i as int),
            forall|j: int| 0 <= j < i ==> prices[j] >= 1,
            product(prices.take(i as int)) * PRICE_SCALE <= u128::MAX,
        decreases n - i,
    {
        let p = source_liquidities[i];
        match calc.add(p.price) {
            Ok(()) => {},
            Err(e) => {
                proof {
                    assert(prices[i as int] == p.price);
                    assert(calc.prices().len() == i);
                    if e == CrossPriceError::TooManyPrices {
                        assert(false);
                    } else if e == CrossPriceError::InvalidPrice {
                        assert(prices[i as int] == 0);
                        assert(implied_cross_price(sources) is None);
                    } else {
                        assert(product(prices.take(i as int)) * p.price * PRICE_SCALE > u128::MAX);
                        if forall|j: int| 0 <= j < prices.len() ==> prices[j] >= 1 {
                            lemma_product_prefix_le(prices, i + 1);
                            assert(prices.take(i + 1).drop_last() =~= prices.take(i as int));
                            let a = product(prices.take(i + 1));
                            let f = product(prices);
                            assert(a == product(prices.take(i as int)) * p.price);
                            assert(f * PRICE_SCALE >= a * PRICE_SCALE) by (nonlinear_arith)
                                requires
                                    f >= a,
                            ;
                            assert(f * PRICE_SCALE > u128::MAX);
                        }
                        assert(implied_cross_price(sources) is None);
                    }
                }
                return Err(CrossLiquidityError::CrossPriceUnavailable);
            },
        }
        proof {
            assert(prices.take(i + 1) =~= prices.take(i as int).push(p.price));
            assert(prices[i as int] == p.price);
        }
        i = i + 1;
    }
    proof {
        assert(prices.take(n as int) =~= prices);
        lemma_product_pos(prices);
    }
    let cross_price = match calc.result() {
        Some(p) => p,
        None => {
            return Err(CrossLiquidityError::CrossPriceUnavailable);
        },
    };
    if cross_price != cross_liquidity.price {
        return Err(CrossLiquidityError::CrossPriceMismatch);
    }
    let stake = match min_stake_of_sources(
        market_liquidities,
        source_for_outcome,
        &source_liquidities,
        cross_price,
    ) {
        Ok(v) => v,
        Err(e) => {
            return Err(e);
        },
    };
    match if source_for_outcome {
        market_liquidities.set_liquidity_against(
            cross_liquidity.outcome,
            cross_liquidity.price,
            stake,
            source_liquidities,
        )
    } else {
        market_liquidities.set_liquidity_for(
            cross_liquidity.outcome,
            cross_liquidity.price,
            stake,
            source_liquidities,
        )
    } {
        Ok(()) => Ok(()),
        Err(_) => Err(CrossLiquidityError::MarketLiquiditiesIsFull),
    }
}

} // verus!
