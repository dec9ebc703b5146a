use monaco_protocol::cross_liquidity::{
    update_market_liquidities_with_cross_liquidity, CrossLiquidityError,
};
use monaco_protocol::cross_price::{CrossPriceCalculator, CrossPriceError};
use monaco_protocol::liquidity::{LiquidityKey, MarketLiquidities, MarketOutcomePriceLiquidity};

fn liquidities(levels: &Vec<MarketOutcomePriceLiquidity>) -> Vec<(u16, u64, u64)> {
    levels
        .iter()
        .map(|v| (v.outcome, v.price, v.liquidity))
        .collect::<Vec<(u16, u64, u64)>>()
}

#[test]
fn test_cross_price_2way() {
    let market_outcomes_count = 2;
    let mut cross_price = CrossPriceCalculator::new(market_outcomes_count);

    cross_price.add(3000).unwrap();
    assert_eq!(1500, cross_price.result().unwrap());
}

#[test]
fn test_cross_price_3way() {
    let market_outcomes_count = 3;
    let mut cross_price = CrossPriceCalculator::new(market_outcomes_count);

    cross_price.add(2000).unwrap();
    cross_price.add(3000).unwrap();
    assert_eq!(6000, cross_price.result().unwrap());
}

#[test]
fn test_cross_price_4way() {
    let market_outcomes_count = 4;

    let mut cross_price1 = CrossPriceCalculator::new(market_outcomes_count);
    cross_price1.add(4000).unwrap();
    cross_price1.add(4000).unwrap();
    cross_price1.add(4000).unwrap();
    assert_eq!(4000, cross_price1.result().unwrap());

    let mut cross_price2 = CrossPriceCalculator::new(market_outcomes_count);
    cross_price2.add(4000).unwrap();
    cross_price2.add(4000).unwrap();
    cross_price2.add(5000).unwrap();
    assert_eq!(None, cross_price2.result());
}

#[test]
fn cross_price_rejects_extra_price() {
    let mut calc = CrossPriceCalculator::new(2);
    calc.add(3000).unwrap();
    assert_eq!(Err(CrossPriceError::TooManyPrices), calc.add(3000));
    assert_eq!(Some(1500), calc.result());
}

#[test]
fn cross_price_rejects_zero_price() {
    let mut calc = CrossPriceCalculator::new(3);
    assert_eq!(Err(CrossPriceError::InvalidPrice), calc.add(0));
}

#[test]
fn cross_price_rejects_overflow() {
    let mut calc = CrossPriceCalculator::new(10);
    let mut result = Ok(());
    for _ in 0..9 {
        result = calc.add(u64::MAX);
        if result.is_err() {
            break;
        }
    }
    assert_eq!(Err(CrossPriceError::Overflow), result);
}

#[test]
fn cross_price_without_valid_denominator() {
    // 1.5 and 1.5 in a three-way market imply more than certainty: no price.
    let mut calc = CrossPriceCalculator::new(3);
    calc.add(1500).unwrap();
    calc.add(1500).unwrap();
    assert_eq!(None, calc.result());
    // Nothing added yet: no price either.
    assert_eq!(None, CrossPriceCalculator::new(2).result());
}

#[test]
fn test_2_way_market() {
    let mut market_liquidities = MarketLiquidities::new(true);
    market_liquidities.add_liquidity_for(0, 3000, 100).unwrap();
    market_liquidities.add_liquidity_for(0, 3500, 100).unwrap();
    market_liquidities.add_liquidity_for(0, 4125, 100).unwrap();

    assert_eq!(
        vec![(0, 3000, 100), (0, 3500, 100), (0, 4125, 100)],
        liquidities(&market_liquidities.liquidities_for)
    );

    update_market_liquidities_with_cross_liquidity(
        &mut market_liquidities,
        true,
        vec![LiquidityKey::new(0, 3000)],
        LiquidityKey::new(1, 1500),
    )
    .expect("update_market_liquidities_with_cross_liquidity failed");

    update_market_liquidities_with_cross_liquidity(
        &mut market_liquidities,
        true,
        vec![LiquidityKey::new(0, 3500)],
        LiquidityKey::new(1, 1400),
    )
    .expect("update_market_liquidities_with_cross_liquidity failed");

    update_market_liquidities_with_cross_liquidity(
        &mut market_liquidities,
        true,
        vec![LiquidityKey::new(0, 4125)],
        LiquidityKey::new(1, 1320),
    )
    .expect("update_market_liquidities_with_cross_liquidity failed");

    assert_eq!(
        vec![(1, 1500, 200), (1, 1400, 250), (1, 1320, 312)],
        liquidities(&market_liquidities.liquidities_against)
    );
}

#[test]
fn test_3_way_market() {
    let mut market_liquidities = MarketLiquidities::new(true);
    market_liquidities.add_liquidity_for(0, 2000, 100).unwrap();
    market_liquidities.add_liquidity_for(0, 2100, 100).unwrap();
    market_liquidities.add_liquidity_for(1, 3000, 100).unwrap();

    assert_eq!(
        vec![(0, 2000, 100), (0, 2100, 100), (1, 3000, 100)],
        liquidities(&market_liquidities.liquidities_for)
    );

    update_market_liquidities_with_cross_liquidity(
        &mut market_liquidities,
        true,
        vec![LiquidityKey::new(0, 2100), LiquidityKey::new(1, 3000)],
        LiquidityKey::new(2, 5250),
    )
    .expect("update_market_liquidities_with_cross_liquidity failed");
    update_market_liquidities_with_cross_liquidity(
        &mut market_liquidities,
        true,
        vec![LiquidityKey::new(0, 2000), LiquidityKey::new(1, 3000)],
        LiquidityKey::new(2, 6000),
    )
    .expect("update_market_liquidities_with_cross_liquidity failed");

    assert_eq!(
        vec![(2, 6000, 33), (2, 5250, 40)],
        liquidities(&market_liquidities.liquidities_against)
    );
}

#[test]
fn cross_liquidity_price_mismatch_is_refused() {
    let mut market_liquidities = MarketLiquidities::new(true);
    market_liquidities.add_liquidity_for(0, 3000, 100).unwrap();
    let result = update_market_liquidities_with_cross_liquidity(
        &mut market_liquidities,
        true,
        vec![LiquidityKey::new(0, 3000)],
        LiquidityKey::new(1, 1600),
    );
    assert_eq!(Err(CrossLiquidityError::CrossPriceMismatch), result);
    assert!(market_liquidities.liquidities_against.is_empty());
}

#[test]
fn cross_liquidity_without_price_is_refused() {
    let mut market_liquidities = MarketLiquidities::new(true);
    let result = update_market_liquidities_with_cross_liquidity(
        &mut market_liquidities,
        true,
        vec![LiquidityKey::new(0, 4000), LiquidityKey::new(1, 4000), LiquidityKey::new(2, 5000)],
        LiquidityKey::new(3, 4000),
    );
    assert_eq!(Err(CrossLiquidityError::CrossPriceUnavailable), result);
    let result = update_market_liquidities_with_cross_liquidity(
        &mut market_liquidities,
        true,
        vec![],
        LiquidityKey::new(3, 4000),
    );
    assert_eq!(Err(CrossLiquidityError::CrossPriceUnavailable), result);
}

#[test]
fn cross_liquidity_missing_source_gives_zero() {
    let mut market_liquidities = MarketLiquidities::new(true);
    market_liquidities.add_liquidity_for(0, 2000, 100).unwrap();
    update_market_liquidities_with_cross_liquidity(
        &mut market_liquidities,
        true,
        vec![LiquidityKey::new(0, 2000), LiquidityKey::new(1, 3000)],
        LiquidityKey::new(2, 6000),
    )
    .unwrap();
    assert_eq!(
        vec![(2, 6000, 0)],
        liquidities(&market_liquidities.liquidities_against)
    );
    assert_eq!(
        vec![LiquidityKey::new(0, 2000), LiquidityKey::new(1, 3000)],
        market_liquidities.liquidities_against[0].sources
    );
}
