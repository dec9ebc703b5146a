pub mod allocator;
pub mod book_laws;
pub mod cross_liquidity;
pub mod cross_price;
pub mod liquidity;
pub mod market;
pub mod matching;
pub mod matching_laws;
pub mod one_to_one;
pub mod order;
pub mod order_request;
pub mod pool;
pub mod price;
pub mod queue;
