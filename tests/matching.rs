use monaco_protocol::cross_liquidity::update_market_liquidities_with_cross_liquidity;
use monaco_protocol::liquidity::{LiquidityKey, MarketLiquidities, MarketOutcomePriceLiquidity};
use monaco_protocol::matching::{on_order_creation, MatchingError, MatchingQueue};
use monaco_protocol::order::Order;
use monaco_protocol::queue::AccountKey;

fn mock_order(outcome: u16, for_outcome: bool, price: u64, stake: u64) -> Order {
    Order::new(AccountKey::new(0, 7), outcome, for_outcome, price, stake, 0)
}

fn order_key() -> AccountKey {
    AccountKey::new(1, 2)
}

fn liquidities(levels: &Vec<MarketOutcomePriceLiquidity>) -> Vec<(u64, u64)> {
    levels
        .iter()
        .map(|v| (v.price, v.liquidity))
        .collect::<Vec<(u64, u64)>>()
}

fn liquidities2(levels: &Vec<MarketOutcomePriceLiquidity>) -> Vec<(u64, u128, u64)> {
    levels
        .iter()
        .map(|v| {
            (
                v.price,
                MarketLiquidities::sources_ord(&v.sources),
                v.liquidity,
            )
        })
        .collect::<Vec<(u64, u128, u64)>>()
}

fn matches(queue: &MatchingQueue) -> Vec<(bool, u64, u64)> {
    queue
        .to_vec()
        .iter()
        .map(|v| (v.for_outcome, v.price, v.stake))
        .collect::<Vec<(bool, u64, u64)>>()
}

fn run(book: &mut MarketLiquidities, queue: &mut MatchingQueue, order: &mut Order) {
    on_order_creation(book, queue, &order_key(), order).expect("match");
}

#[test]
fn on_order_creation_straight_match() {
    let mut order = mock_order(1, true, 2800, 100);

    let mut market_liquidities = MarketLiquidities::new(true);
    market_liquidities.add_liquidity_against(1, 2800, 125).unwrap();
    market_liquidities.add_liquidity_against(2, 2800, 125).unwrap();
    update_market_liquidities_with_cross_liquidity(
        &mut market_liquidities,
        false,
        vec![LiquidityKey::new(1, 2800), LiquidityKey::new(2, 2800)],
        LiquidityKey::new(0, 3500),
    )
    .unwrap();

    let mut queue = MatchingQueue::new(10);
    let result = on_order_creation(&mut market_liquidities, &mut queue, &order_key(), &mut order)
        .expect("match_for_order");

    assert_eq!(vec![(100, 2800)], result);
    assert_eq!(
        vec![(3500, 100)],
        liquidities(&market_liquidities.liquidities_for)
    );
    assert_eq!(
        vec![(2800, 25), (2800, 125)],
        liquidities(&market_liquidities.liquidities_against)
    );
    assert_eq!(vec![(false, 2800, 100), (true, 2800, 100)], matches(&queue));
    let records = queue.to_vec();
    assert_eq!(None, records[0].order);
    assert_eq!(Some(order_key()), records[1].order);
    assert_eq!(100, market_liquidities.stake_matched_total);

    assert_eq!(0_u64, order.stake_unmatched);
    assert_eq!(280_u64, order.payout);
}

#[test]
fn on_order_creation_cross_match_3way() {
    let mut order = mock_order(0, true, 3500, 80);

    let mut market_liquidities = MarketLiquidities::new(true);
    market_liquidities.add_liquidity_for(1, 2800, 125).unwrap();
    market_liquidities.add_liquidity_for(2, 2800, 125).unwrap();
    update_market_liquidities_with_cross_liquidity(
        &mut market_liquidities,
        true,
        vec![LiquidityKey::new(1, 2800), LiquidityKey::new(2, 2800)],
        LiquidityKey::new(0, 3500),
    )
    .unwrap();

    let mut queue = MatchingQueue::new(10);
    run(&mut market_liquidities, &mut queue, &mut order);

    assert_eq!(
        vec![(2800, 25), (2800, 25)],
        liquidities(&market_liquidities.liquidities_for)
    );
    assert_eq!(
        vec![(3500, 3, 20)],
        liquidities2(&market_liquidities.liquidities_against)
    );
    assert_eq!(
        vec![(true, 2800, 100), (true, 2800, 100), (true, 3500, 80)],
        matches(&queue)
    );

    assert_eq!(0_u64, order.stake_unmatched);
    assert_eq!(280_u64, order.payout);
}

#[test]
fn cross_match_4way() {
    let mut order = mock_order(0, true, 3000, 120);

    let mut market_liquidities = MarketLiquidities::new(true);
    market_liquidities.add_liquidity_for(1, 3600, 200).unwrap();
    market_liquidities.add_liquidity_for(2, 4000, 180).unwrap();
    market_liquidities.add_liquidity_for(3, 7200, 100).unwrap();
    update_market_liquidities_with_cross_liquidity(
        &mut market_liquidities,
        true,
        vec![
            LiquidityKey::new(1, 3600),
            LiquidityKey::new(2, 4000),
            LiquidityKey::new(3, 7200),
        ],
        LiquidityKey::new(0, 3000),
    )
    .unwrap();

    let mut queue = MatchingQueue::new(10);
    run(&mut market_liquidities, &mut queue, &mut order);

    assert_eq!(
        vec![(3600, 100), (4000, 90), (7200, 50)],
        liquidities(&market_liquidities.liquidities_for)
    );
    assert_eq!(
        vec![(3000, 120)],
        liquidities(&market_liquidities.liquidities_against)
    );
    assert_eq!(
        vec![
            (true, 3600, 100),
            (true, 4000, 90),
            (true, 7200, 50),
            (true, 3000, 120)
        ],
        matches(&queue)
    );

    assert_eq!(0_u64, order.stake_unmatched);
    assert_eq!(360_u64, order.payout);
}

#[test]
fn straight_match() {
    let mut order = mock_order(1, false, 2800, 100);

    let mut market_liquidities = MarketLiquidities::new(true);
    market_liquidities.add_liquidity_for(1, 2800, 125).unwrap();
    market_liquidities.add_liquidity_for(2, 2800, 125).unwrap();
    update_market_liquidities_with_cross_liquidity(
        &mut market_liquidities,
        true,
        vec![LiquidityKey::new(1, 2800), LiquidityKey::new(2, 2800)],
        LiquidityKey::new(0, 3500),
    )
    .unwrap();

    let mut queue = MatchingQueue::new(10);
    run(&mut market_liquidities, &mut queue, &mut order);

    assert_eq!(
        vec![(2800, 25), (2800, 125)],
        liquidities(&market_liquidities.liquidities_for)
    );
    assert_eq!(
        vec![(3500, 100)],
        liquidities(&market_liquidities.liquidities_against)
    );
    assert_eq!(vec![(true, 2800, 100), (false, 2800, 100)], matches(&queue));

    assert_eq!(0_u64, order.stake_unmatched);
    assert_eq!(280_u64, order.payout);
}

#[test]
fn cross_match_3way() {
    let mut order = mock_order(0, false, 3500, 80);

    let mut market_liquidities = MarketLiquidities::new(true);
    market_liquidities.add_liquidity_against(1, 2800, 125).unwrap();
    market_liquidities.add_liquidity_against(2, 2800, 125).unwrap();
    update_market_liquidities_with_cross_liquidity(
        &mut market_liquidities,
        false,
        vec![LiquidityKey::new(1, 2800), LiquidityKey::new(2, 2800)],
        LiquidityKey::new(0, 3500),
    )
    .unwrap();

    let mut queue = MatchingQueue::new(10);
    run(&mut market_liquidities, &mut queue, &mut order);

    assert_eq!(
        vec![(3500, 20)],
        liquidities(&market_liquidities.liquidities_for)
    );
    // the consumed source liquidity is taken from the sources' ladder
    assert_eq!(
        vec![(2800, 25), (2800, 25)],
        liquidities(&market_liquidities.liquidities_against)
    );
    assert_eq!(
        vec![(false, 2800, 100), (false, 2800, 100), (false, 3500, 80)],
        matches(&queue)
    );

    assert_eq!(0_u64, order.stake_unmatched);
    assert_eq!(280_u64, order.payout);
}

#[test]
fn match_against_order_stop_after_fully_matched() {
    let market_outcome_index = 1;
    let market_price_ladder: Vec<u64> = vec![1200, 1300, 1400];

    let mut order = mock_order(market_outcome_index, false, 1500, 10);

    let mut market_liquidities = MarketLiquidities::new(true);
    for price in market_price_ladder.iter() {
        market_liquidities
            .add_liquidity_for(market_outcome_index, *price, 10)
            .unwrap();
    }

    let mut queue = MatchingQueue::new(10);

    let on_order_creation_result =
        on_order_creation(&mut market_liquidities, &mut queue, &order_key(), &mut order);

    assert!(on_order_creation_result.is_ok());

    assert_eq!(
        vec![(1300, 10), (1400, 10)],
        liquidities(&market_liquidities.liquidities_for)
    );
    assert_eq!(
        Vec::<(u64, u64)>::new(),
        liquidities(&market_liquidities.liquidities_against)
    );
    assert_eq!(
        vec![(true, 1200, 10), (false, 1200, 10)],
        matches(&queue)
    );

    assert_eq!(0_u64, order.stake_unmatched);
    assert_eq!(12_u64, order.payout);
}

#[test]
fn match_against_order_with_more_matches_than_alloc() {
    let market_outcome_index = 1;
    let market_price_ladder: Vec<u64> = vec![1200, 1250, 1300, 1350, 1400, 1450, 1500, 1550, 1600, 1650, 1700, 1750];

    let mut order = mock_order(market_outcome_index, false, 1800, 120);

    let mut market_liquidities = MarketLiquidities::new(true);
    for price in market_price_ladder.iter() {
        market_liquidities
            .add_liquidity_for(market_outcome_index, *price, 10)
            .unwrap();
    }

    let mut queue = MatchingQueue::new(30);

    let on_order_creation_result =
        on_order_creation(&mut market_liquidities, &mut queue, &order_key(), &mut order);

    assert!(on_order_creation_result.is_ok());

    assert_eq!(
        vec![(1700, 10), (1750, 10)],
        liquidities(&market_liquidities.liquidities_for)
    );
    assert_eq!(
        vec![(1800, 20)],
        liquidities(&market_liquidities.liquidities_against)
    );
    assert_eq!(100_u64, market_liquidities.stake_matched_total);
    assert_eq!(
        vec![(true, 1200, 10), (false, 1200, 10), (true, 1250, 10), (false, 1250, 10), (true, 1300, 10), (false, 1300, 10), (true, 1350, 10), (false, 1350, 10), (true, 1400, 10), (false, 1400, 10), (true, 1450, 10), (false, 1450, 10), (true, 1500, 10), (false, 1500, 10), (true, 1550, 10), (false, 1550, 10), (true, 1600, 10), (false, 1600, 10), (true, 1650, 10), (false, 1650, 10)],
        matches(&queue)
    );

    assert_eq!(20_u64, order.stake_unmatched);
    assert_eq!(140_u64, order.payout);
}

#[test]
fn match_against_order_with_price_1_1() {
    let market_outcome_index = 1;
    let market_price_ladder: Vec<u64> = vec![1200, 1300, 1400];

    let mut order = mock_order(market_outcome_index, false, 1100, 100);

    let mut market_liquidities = MarketLiquidities::new(true);
    for price in market_price_ladder.iter() {
        market_liquidities
            .add_liquidity_for(market_outcome_index, *price, 10)
            .unwrap();
    }

    let mut queue = MatchingQueue::new(10);

    let on_order_creation_result =
        on_order_creation(&mut market_liquidities, &mut queue, &order_key(), &mut order);

    assert!(on_order_creation_result.is_ok());

    assert_eq!(
        vec![(1200, 10), (1300, 10), (1400, 10)],
        liquidities(&market_liquidities.liquidities_for)
    );
    assert_eq!(
        vec![(1100, 100)],
        liquidities(&market_liquidities.liquidities_against)
    );
    assert_eq!(0_u64, market_liquidities.stake_matched_total);
    assert_eq!(
        Vec::<(bool, u64, u64)>::new(),
        matches(&queue)
    );

    assert_eq!(100_u64, order.stake_unmatched);
    assert_eq!(0_u64, order.payout);
}

#[test]
fn match_against_order_with_price_1_2() {
    let market_outcome_index = 1;
    let market_price_ladder: Vec<u64> = vec![1200, 1300, 1400];

    let mut order = mock_order(market_outcome_index, false, 1200, 100);

    let mut market_liquidities = MarketLiquidities::new(true);
    for price in market_price_ladder.iter() {
        market_liquidities
            .add_liquidity_for(market_outcome_index, *price, 10)
            .unwrap();
    }

    let mut queue = MatchingQueue::new(10);

    let on_order_creation_result =
        on_order_creation(&mut market_liquidities, &mut queue, &order_key(), &mut order);

    assert!(on_order_creation_result.is_ok());

    assert_eq!(
        vec![(1300, 10), (1400, 10)],
        liquidities(&market_liquidities.liquidities_for)
    );
    assert_eq!(
        vec![(1200, 90)],
        liquidities(&market_liquidities.liquidities_against)
    );
    assert_eq!(
        vec![(true, 1200, 10), (false, 1200, 10)],
        matches(&queue)
    );

    assert_eq!(90_u64, order.stake_unmatched);
    assert_eq!(12_u64, order.payout);
}

#[test]
fn match_against_order_with_price_1_3() {
    let market_outcome_index = 1;
    let market_price_ladder: Vec<u64> = vec![1200, 1300, 1400];

    let mut order = mock_order(market_outcome_index, false, 1300, 100);

    let mut market_liquidities = MarketLiquidities::new(true);
    for price in market_price_ladder.iter() {
        market_liquidities
            .add_liquidity_for(market_outcome_index, *price, 10)
            .unwrap();
    }

    let mut queue = MatchingQueue::new(10);

    let on_order_creation_result =
        on_order_creation(&mut market_liquidities, &mut queue, &order_key(), &mut order);

    assert!(on_order_creation_result.is_ok());

    assert_eq!(
        vec![(1400, 10)],
        liquidities(&market_liquidities.liquidities_for)
    );
    assert_eq!(
        vec![(1300, 80)],
        liquidities(&market_liquidities.liquidities_against)
    );
    assert_eq!(20_u64, market_liquidities.stake_matched_total);
    assert_eq!(
        vec![(true, 1200, 10), (false, 1200, 10), (true, 1300, 10), (false, 1300, 10)],
        matches(&queue)
    );

    assert_eq!(80_u64, order.stake_unmatched);
    assert_eq!(25_u64, order.payout);
}

#[test]
fn match_against_order_with_price_1_4() {
    let market_outcome_index = 1;
    let market_price_ladder: Vec<u64> = vec![1200, 1300, 1400];

    let mut order = mock_order(market_outcome_index, false, 1400, 100);

    let mut market_liquidities = MarketLiquidities::new(true);
    for price in market_price_ladder.iter() {
        market_liquidities
            .add_liquidity_for(market_outcome_index, *price, 10)
            .unwrap();
    }

    let mut queue = MatchingQueue::new(10);

    let on_order_creation_result =
        on_order_creation(&mut market_liquidities, &mut queue, &order_key(), &mut order);

    assert!(on_order_creation_result.is_ok());

    assert_eq!(
        Vec::<(u64, u64)>::new(),
        liquidities(&market_liquidities.liquidities_for)
    );
    assert_eq!(
        vec![(1400, 70)],
        liquidities(&market_liquidities.liquidities_against)
    );
    assert_eq!(30_u64, market_liquidities.stake_matched_total);
    assert_eq!(
        vec![(true, 1200, 10), (false, 1200, 10), (true, 1300, 10), (false, 1300, 10), (true, 1400, 10), (false, 1400, 10)],
        matches(&queue)
    );

    assert_eq!(70_u64, order.stake_unmatched);
    assert_eq!(39_u64, order.payout);
}

#[test]
fn match_against_order_with_price_1_5() {
    let market_outcome_index = 1;
    let market_price_ladder: Vec<u64> = vec![1200, 1300, 1400];

    let mut order = mock_order(market_outcome_index, false, 1500, 100);

    let mut market_liquidities = MarketLiquidities::new(true);
    for price in market_price_ladder.iter() {
        market_liquidities
            .add_liquidity_for(market_outcome_index, *price, 10)
            .unwrap();
    }

    let mut queue = MatchingQueue::new(10);

    let on_order_creation_result =
        on_order_creation(&mut market_liquidities, &mut queue, &order_key(), &mut order);

    assert!(on_order_creation_result.is_ok());

    assert_eq!(
        Vec::<(u64, u64)>::new(),
        liquidities(&market_liquidities.liquidities_for)
    );
    assert_eq!(
        vec![(1500, 70)],
        liquidities(&market_liquidities.liquidities_against)
    );
    assert_eq!(30_u64, market_liquidities.stake_matched_total);
    assert_eq!(
        vec![(true, 1200, 10), (false, 1200, 10), (true, 1300, 10), (false, 1300, 10), (true, 1400, 10), (false, 1400, 10)],
        matches(&queue)
    );

    assert_eq!(70_u64, order.stake_unmatched);
    assert_eq!(39_u64, order.payout);
}

#[test]
fn match_for_order_stop_after_fully_matched() {
    let market_outcome_index = 1;
    let market_price_ladder: Vec<u64> = vec![1200, 1300, 1400];

    let mut order = mock_order(market_outcome_index, true, 1100, 10);

    let mut market_liquidities = MarketLiquidities::new(true);
    for price in market_price_ladder.iter() {
        market_liquidities
            .add_liquidity_against(market_outcome_index, *price, 10)
            .unwrap();
    }

    let mut queue = MatchingQueue::new(10);

    let on_order_creation_result =
        on_order_creation(&mut market_liquidities, &mut queue, &order_key(), &mut order);

    assert!(on_order_creation_result.is_ok());

    assert_eq!(
        Vec::<(u64, u64)>::new(),
        liquidities(&market_liquidities.liquidities_for)
    );
    assert_eq!(
        vec![(1300, 10), (1200, 10)],
        liquidities(&market_liquidities.liquidities_against)
    );
    assert_eq!(
        vec![(false, 1400, 10), (true, 1400, 10)],
        matches(&queue)
    );

    assert_eq!(0_u64, order.stake_unmatched);
    assert_eq!(14_u64, order.payout);
}

#[test]
fn match_for_order_with_more_matches_than_alloc() {
    let market_outcome_index = 1;
    let market_price_ladder: Vec<u64> = vec![1200, 1300, 1400, 1500, 1600, 1700];

    let mut order = mock_order(market_outcome_index, true, 1100, 100);

    let mut market_liquidities = MarketLiquidities::new(true);
    for price in market_price_ladder.iter() {
        market_liquidities
            .add_liquidity_against(market_outcome_index, *price, 10)
            .unwrap();
    }

    let mut queue = MatchingQueue::new(30);

    let on_order_creation_result =
        on_order_creation(&mut market_liquidities, &mut queue, &order_key(), &mut order);

    assert!(on_order_creation_result.is_ok());

    assert_eq!(
        vec![(1100, 40)],
        liquidities(&market_liquidities.liquidities_for)
    );
    assert_eq!(
        Vec::<(u64, u64)>::new(),
        liquidities(&market_liquidities.liquidities_against)
    );
    assert_eq!(60_u64, market_liquidities.stake_matched_total);
    assert_eq!(
        vec![(false, 1700, 10), (true, 1700, 10), (false, 1600, 10), (true, 1600, 10), (false, 1500, 10), (true, 1500, 10), (false, 1400, 10), (true, 1400, 10), (false, 1300, 10), (true, 1300, 10), (false, 1200, 10), (true, 1200, 10)],
        matches(&queue)
    );

    assert_eq!(40_u64, order.stake_unmatched);
    assert_eq!(87_u64, order.payout);
}

#[test]
fn match_for_order_with_price_1_1() {
    let market_outcome_index = 1;
    let market_price_ladder: Vec<u64> = vec![1200, 1300, 1400];

    let mut order = mock_order(market_outcome_index, true, 1100, 100);

    let mut market_liquidities = MarketLiquidities::new(true);
    for price in market_price_ladder.iter() {
        market_liquidities
            .add_liquidity_against(market_outcome_index, *price, 10)
            .unwrap();
    }

    let mut queue = MatchingQueue::new(10);

    let on_order_creation_result =
        on_order_creation(&mut market_liquidities, &mut queue, &order_key(), &mut order);

    assert!(on_order_creation_result.is_ok());

    assert_eq!(
        vec![(1100, 70)],
        liquidities(&market_liquidities.liquidities_for)
    );
    assert_eq!(
        Vec::<(u64, u64)>::new(),
        liquidities(&market_liquidities.liquidities_against)
    );
    assert_eq!(30_u64, market_liquidities.stake_matched_total);
    assert_eq!(
        vec![(false, 1400, 10), (true, 1400, 10), (false, 1300, 10), (true, 1300, 10), (false, 1200, 10), (true, 1200, 10)],
        matches(&queue)
    );

    assert_eq!(70_u64, order.stake_unmatched);
    assert_eq!(39_u64, order.payout);
}

#[test]
fn match_for_order_with_price_1_2() {
    let market_outcome_index = 1;
    let market_price_ladder: Vec<u64> = vec![1200, 1300, 1400];

    let mut order = mock_order(market_outcome_index, true, 1200, 100);

    let mut market_liquidities = MarketLiquidities::new(true);
    for price in market_price_ladder.iter() {
        market_liquidities
            .add_liquidity_against(market_outcome_index, *price, 10)
            .unwrap();
    }

    let mut queue = MatchingQueue::new(10);

    let on_order_creation_result =
        on_order_creation(&mut market_liquidities, &mut queue, &order_key(), &mut order);

    assert!(on_order_creation_result.is_ok());

    assert_eq!(
        vec![(1200, 70)],
        liquidities(&market_liquidities.liquidities_for)
    );
    assert_eq!(
        Vec::<(u64, u64)>::new(),
        liquidities(&market_liquidities.liquidities_against)
    );
    assert_eq!(30_u64, market_liquidities.stake_matched_total);
    assert_eq!(
        vec![(false, 1400, 10), (true, 1400, 10), (false, 1300, 10), (true, 1300, 10), (false, 1200, 10), (true, 1200, 10)],
        matches(&queue)
    );

    assert_eq!(70_u64, order.stake_unmatched);
    assert_eq!(39_u64, order.payout);
}

#[test]
fn match_for_order_with_price_1_3() {
    let market_outcome_index = 1;
    let market_price_ladder: Vec<u64> = vec![1200, 1300, 1400];

    let mut order = mock_order(market_outcome_index, true, 1300, 100);

    let mut market_liquidities = MarketLiquidities::new(true);
    for price in market_price_ladder.iter() {
        market_liquidities
            .add_liquidity_against(market_outcome_index, *price, 10)
            .unwrap();
    }

    let mut queue = MatchingQueue::new(10);

    let on_order_creation_result =
        on_order_creation(&mut market_liquidities, &mut queue, &order_key(), &mut order);

    assert!(on_order_creation_result.is_ok());

    assert_eq!(
        vec![(1300, 80)],
        liquidities(&market_liquidities.liquidities_for)
    );
    assert_eq!(
        vec![(1200, 10)],
        liquidities(&market_liquidities.liquidities_against)
    );
    assert_eq!(20_u64, market_liquidities.stake_matched_total);
    assert_eq!(
        vec![(false, 1400, 10), (true, 1400, 10), (false, 1300, 10), (true, 1300, 10)],
        matches(&queue)
    );

    assert_eq!(80_u64, order.stake_unmatched);
    assert_eq!(27_u64, order.payout);
}

#[test]
fn match_for_order_with_price_1_4() {
    let market_outcome_index = 1;
    let market_price_ladder: Vec<u64> = vec![1200, 1300, 1400];

    let mut order = mock_order(market_outcome_index, true, 1400, 100);

    let mut market_liquidities = MarketLiquidities::new(true);
    for price in market_price_ladder.iter() {
        market_liquidities
            .add_liquidity_against(market_outcome_index, *price, 10)
            .unwrap();
    }

    let mut queue = MatchingQueue::new(10);

    let on_order_creation_result =
        on_order_creation(&mut market_liquidities, &mut queue, &order_key(), &mut order);

    assert!(on_order_creation_result.is_ok());

    assert_eq!(
        vec![(1400, 90)],
        liquidities(&market_liquidities.liquidities_for)
    );
    assert_eq!(
        vec![(1300, 10), (1200, 10)],
        liquidities(&market_liquidities.liquidities_against)
    );
    assert_eq!(
        vec![(false, 1400, 10), (true, 1400, 10)],
        matches(&queue)
    );

    assert_eq!(90_u64, order.stake_unmatched);
    assert_eq!(14_u64, order.payout);
}

#[test]
fn match_for_order_with_price_1_5() {
    let market_outcome_index = 1;
    let market_price_ladder: Vec<u64> = vec![1200, 1300, 1400];

    let mut order = mock_order(market_outcome_index, true, 1500, 100);

    let mut market_liquidities = MarketLiquidities::new(true);
    for price in market_price_ladder.iter() {
        market_liquidities
            .add_liquidity_against(market_outcome_index, *price, 10)
            .unwrap();
    }

    let mut queue = MatchingQueue::new(10);

    let on_order_creation_result =
        on_order_creation(&mut market_liquidities, &mut queue, &order_key(), &mut order);

    assert!(on_order_creation_result.is_ok());

    assert_eq!(
        vec![(1500, 100)],
        liquidities(&market_liquidities.liquidities_for)
    );
    assert_eq!(
        vec![(1400, 10), (1300, 10), (1200, 10)],
        liquidities(&market_liquidities.liquidities_against)
    );
    assert_eq!(0_u64, market_liquidities.stake_matched_total);
    assert_eq!(
        Vec::<(bool, u64, u64)>::new(),
        matches(&queue)
    );

    assert_eq!(100_u64, order.stake_unmatched);
    assert_eq!(0_u64, order.payout);
}

#[test]
fn straight_match_scenario_exact() {
    let mut order = mock_order(1, true, 2800, 100);
    let mut market_liquidities = MarketLiquidities::new(true);
    market_liquidities.add_liquidity_against(1, 2800, 125).unwrap();
    let mut queue = MatchingQueue::new(10);
    let result = on_order_creation(&mut market_liquidities, &mut queue, &order_key(), &mut order)
        .unwrap();
    assert_eq!(vec![(100, 2800)], result);
    assert_eq!(0, order.stake_unmatched);
    assert_eq!(280, order.payout);
    assert_eq!(vec![(false, 2800, 100), (true, 2800, 100)], matches(&queue));
    assert_eq!(
        25,
        market_liquidities
            .get_liquidity_against(1, 2800)
            .unwrap()
            .liquidity
    );
    assert!(market_liquidities.liquidities_for.is_empty());
}

#[test]
fn capacity_limit_rests_remainder() {
    let mut market_liquidities = MarketLiquidities::new(true);
    for i in 0..12_u64 {
        market_liquidities
            .add_liquidity_against(4, 3000 - i * 100, 5)
            .unwrap();
    }
    let mut order = mock_order(4, true, 1000, 100);
    let mut queue = MatchingQueue::new(40);
    let result = on_order_creation(&mut market_liquidities, &mut queue, &order_key(), &mut order)
        .unwrap();
    assert_eq!(10, result.len());
    assert_eq!(50, market_liquidities.stake_matched_total);
    assert_eq!(50, order.stake_unmatched);
    assert_eq!(
        50,
        market_liquidities.get_liquidity_for(4, 1000).unwrap().liquidity
    );
    assert_eq!(
        vec![(2000, 5), (1900, 5)],
        liquidities(&market_liquidities.liquidities_against)
    );
    assert_eq!(20, queue.len());
}

#[test]
fn queue_full_refusal_changes_nothing() {
    let mut market_liquidities = MarketLiquidities::new(true);
    market_liquidities.add_liquidity_against(1, 2800, 125).unwrap();
    let mut order = mock_order(1, true, 2800, 100);
    let before_order = order;
    let mut queue = MatchingQueue::new(1);
    let result = on_order_creation(&mut market_liquidities, &mut queue, &order_key(), &mut order);
    assert_eq!(Err(MatchingError::MatchingQueueIsFull), result);
    assert_eq!(before_order, order);
    assert!(queue.is_empty());
    assert_eq!(vec![(2800, 125)], liquidities(&market_liquidities.liquidities_against));
    assert_eq!(0, market_liquidities.stake_matched_total);
}

#[test]
fn missing_cross_source_refusal_changes_nothing() {
    let mut market_liquidities = MarketLiquidities::new(true);
    market_liquidities.add_liquidity_for(1, 2800, 125).unwrap();
    market_liquidities.add_liquidity_for(2, 2800, 125).unwrap();
    update_market_liquidities_with_cross_liquidity(
        &mut market_liquidities,
        true,
        vec![LiquidityKey::new(1, 2800), LiquidityKey::new(2, 2800)],
        LiquidityKey::new(0, 3500),
    )
    .unwrap();
    // a source level disappears without the cross level being recomputed
    market_liquidities.remove_liquidity_for(2, 2800, &[], 125).unwrap();
    let mut order = mock_order(0, true, 3500, 80);
    let mut queue = MatchingQueue::new(10);
    let result = on_order_creation(&mut market_liquidities, &mut queue, &order_key(), &mut order);
    assert_eq!(Err(MatchingError::MatchingRemainingLiquidityTooSmall), result);
    assert_eq!(80, order.stake_unmatched);
    assert!(queue.is_empty());
    assert_eq!(vec![(2800, 125)], liquidities(&market_liquidities.liquidities_for));
    assert_eq!(vec![(3500, 100)], liquidities(&market_liquidities.liquidities_against));

    // once recomputed, the cross level holds nothing and nothing matches
    market_liquidities
        .update_cross_liquidity_against(
            0,
            3500,
            vec![LiquidityKey::new(1, 2800), LiquidityKey::new(2, 2800)],
        )
        .unwrap();
    assert_eq!(vec![(3500, 0)], liquidities(&market_liquidities.liquidities_against));
}

#[test]
fn add_then_match_restores_book() {
    let mut market_liquidities = MarketLiquidities::new(true);
    market_liquidities.add_liquidity_for(0, 2000, 30).unwrap();
    market_liquidities.add_liquidity_against(2, 1500, 20).unwrap();
    let for_before = market_liquidities.liquidities_for.clone();
    let against_before = market_liquidities.liquidities_against.clone();

    market_liquidities.add_liquidity_against(1, 2400, 70).unwrap();
    let mut order = mock_order(1, true, 2400, 70);
    let mut queue = MatchingQueue::new(10);
    on_order_creation(&mut market_liquidities, &mut queue, &order_key(), &mut order).unwrap();

    assert_eq!(for_before, market_liquidities.liquidities_for);
    assert_eq!(against_before, market_liquidities.liquidities_against);
    assert_eq!(70, market_liquidities.stake_matched_total);
}

#[test]
fn payout_overflow_is_refused() {
    let mut market_liquidities = MarketLiquidities::new(true);
    market_liquidities.add_liquidity_against(0, 5000, u64::MAX).unwrap();
    let mut order = mock_order(0, true, 2000, u64::MAX);
    let mut queue = MatchingQueue::new(10);
    let result = on_order_creation(&mut market_liquidities, &mut queue, &order_key(), &mut order);
    assert_eq!(Err(MatchingError::MatchingPayoutAmountError), result);
    assert_eq!(u64::MAX, order.stake_unmatched);
    assert_eq!(0, order.payout);
}

#[test]
fn residual_on_full_book_is_refused() {
    let mut market_liquidities = MarketLiquidities::new(true);
    for i in 0..60_u64 {
        market_liquidities.add_liquidity_against(1, 5000 + i, 1).unwrap();
    }
    let mut order = mock_order(0, true, 2000, 10);
    let mut queue = MatchingQueue::new(10);
    let result = on_order_creation(&mut market_liquidities, &mut queue, &order_key(), &mut order);
    assert_eq!(Err(MatchingError::MarketLiquiditiesIsFull), result);
    assert_eq!(60, market_liquidities.liquidities_against.len());
    assert_eq!(10, order.stake_unmatched);
}
