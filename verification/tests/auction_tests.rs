use call_auction::auction::AuctionSystem;
use call_auction::imbalance::ImbalanceHandler;
use call_auction::order_book::OrderBook;
use call_auction::orders::{InvalidOrder, Order, OrderSide, OrderType};

fn create_order(
    id: u64,
    price: i64,
    quantity: u64,
    side: OrderSide,
    order_type: OrderType,
    timestamp_offset: u64,
) -> Order {
    let now: u64 = 1_700_000_000;
    Order {
        id,
        price,
        quantity,
        timestamp: now + timestamp_offset,
        order_type,
        side,
    }
}

fn scenario_a_book() -> OrderBook {
    let mut ob = OrderBook::new();
    ob.add_order(create_order(1, 101, 300, OrderSide::Bid, OrderType::MOC, 0))
        .unwrap();
    ob.add_order(create_order(2, 100, 500, OrderSide::Bid, OrderType::LOC, 1))
        .unwrap();
    ob.add_order(create_order(3, 99, 400, OrderSide::Ask, OrderType::MOC, 2))
        .unwrap();
    ob.add_order(create_order(4, 98, 200, OrderSide::Ask, OrderType::LOC, 3))
        .unwrap();
    ob
}

#[test]
fn test_order_book_add_and_clear() {
    let mut ob = OrderBook::new();

    let order1 = create_order(1, 100, 500, OrderSide::Bid, OrderType::MOC, 0);
    let order2 = create_order(2, 99, 400, OrderSide::Ask, OrderType::LOC, 1);

    ob.add_order(order1).unwrap();
    ob.add_order(order2).unwrap();

    assert!(!ob.bids.is_empty());
    assert!(!ob.asks.is_empty());

    ob.clear();

    assert!(ob.bids.is_empty());
    assert!(ob.asks.is_empty());
}

#[test]
fn test_auction_clearing_price() {
    let ob = scenario_a_book();
    let auction = AuctionSystem::new();

    let clearing_price = auction.calculate_auction_price(&ob);

    assert!(clearing_price.is_some());

    let cp = clearing_price.unwrap();

    assert!(cp >= 98 && cp <= 101);
}

#[test]
fn test_imbalance_tracking() {
    let mut handler = ImbalanceHandler::new();

    handler.update(800, 600);

    assert_eq!(handler.get(), 200);
}

#[test]
fn test_scenario_a_exact_result() {
    // At price 99: bid_qty = 800, ask_qty = 600, executable = 600;
    // at price 100 the same pair recurs, so the lower tied price wins.
    let ob = scenario_a_book();
    let mut engine = AuctionSystem::new();

    let outcome = engine.execute_auction(&ob);

    assert_eq!(outcome, Some((99, 600)));
    assert_eq!(engine.last_clearing_price, Some(99));
}

#[test]
fn test_empty_book_yields_no_price() {
    let ob = OrderBook::new();
    let mut engine = AuctionSystem::new();

    assert_eq!(engine.calculate_auction_price(&ob), None);
    assert_eq!(engine.execute_auction(&ob), None);
    assert_eq!(engine.last_clearing_price, None);
}

#[test]
fn test_failed_auction_keeps_last_price() {
    let mut ob = scenario_a_book();
    let mut engine = AuctionSystem::new();

    assert_eq!(engine.execute_auction(&ob), Some((99, 600)));

    ob.clear();

    assert_eq!(engine.execute_auction(&ob), None);
    assert_eq!(engine.last_clearing_price, Some(99));
}

#[test]
fn test_idempotent_clear() {
    let mut ob = scenario_a_book();

    ob.clear();
    assert!(ob.bids.is_empty());
    assert!(ob.asks.is_empty());

    ob.clear();
    assert!(ob.bids.is_empty());
    assert!(ob.asks.is_empty());
}

#[test]
fn test_rejection_zero_quantity() {
    let mut ob = OrderBook::new();

    let r = ob.submit_order(1, Some(100), 0, 0, OrderType::MOC, OrderSide::Bid);

    assert_eq!(r, Err(InvalidOrder));
    assert!(ob.bids.is_empty());
    assert!(ob.asks.is_empty());
}

#[test]
fn test_rejection_non_finite_price() {
    let mut ob = OrderBook::new();

    // Boundary conversion from a display price to ticks: a NaN (or infinite)
    // price has no finite tick representation and is passed as None.
    let display_price = f64::NAN;
    let ticks = if display_price.is_finite() {
        Some((display_price * 100.0) as i64)
    } else {
        None
    };

    let r = ob.submit_order(1, ticks, 500, 0, OrderType::MOC, OrderSide::Bid);

    assert_eq!(r, Err(InvalidOrder));
    assert!(ob.bids.is_empty());
    assert!(ob.asks.is_empty());
}

#[test]
fn test_submit_order_accepts_valid() {
    let mut ob = OrderBook::new();

    let r = ob.submit_order(1, Some(100), 500, 0, OrderType::MOC, OrderSide::Bid);

    assert_eq!(r, Ok(()));
    assert_eq!(ob.bids.len(), 1);
    assert_eq!(ob.total_bid_quantity(), 500);
}

#[test]
fn test_time_priority_within_level() {
    let mut ob = OrderBook::new();

    ob.add_order(create_order(1, 100, 10, OrderSide::Bid, OrderType::MOC, 5))
        .unwrap();
    ob.add_order(create_order(2, 100, 20, OrderSide::Bid, OrderType::LOC, 1))
        .unwrap();
    ob.add_order(create_order(3, 100, 30, OrderSide::Bid, OrderType::IO, 3))
        .unwrap();
    ob.add_order(create_order(4, 100, 40, OrderSide::Bid, OrderType::MOC, 1))
        .unwrap();

    // Ascending by timestamp; among equal timestamps, admission order kept.
    let ids: Vec<u64> = ob.bids.iter().map(|o| o.id).collect();
    assert_eq!(ids, vec![2, 4, 3, 1]);
    for w in ob.bids.windows(2) {
        assert!(w[0].timestamp <= w[1].timestamp);
    }
}

#[test]
fn test_volume_queries_monotonic() {
    let ob = scenario_a_book();

    assert_eq!(ob.total_bid_quantity_at_or_above(98), 800);
    assert_eq!(ob.total_bid_quantity_at_or_above(100), 800);
    assert_eq!(ob.total_bid_quantity_at_or_above(101), 300);
    assert_eq!(ob.total_bid_quantity_at_or_above(102), 0);

    assert_eq!(ob.total_ask_quantity_at_or_below(97), 0);
    assert_eq!(ob.total_ask_quantity_at_or_below(98), 200);
    assert_eq!(ob.total_ask_quantity_at_or_below(99), 600);
    assert_eq!(ob.total_ask_quantity_at_or_below(102), 600);
}

#[test]
fn test_candidate_prices_sorted_distinct() {
    let mut ob = OrderBook::new();
    ob.add_order(create_order(1, 100, 10, OrderSide::Bid, OrderType::MOC, 0))
        .unwrap();
    ob.add_order(create_order(2, 100, 20, OrderSide::Bid, OrderType::MOC, 1))
        .unwrap();
    ob.add_order(create_order(3, 101, 30, OrderSide::Bid, OrderType::MOC, 2))
        .unwrap();
    ob.add_order(create_order(4, 99, 40, OrderSide::Ask, OrderType::MOC, 3))
        .unwrap();
    ob.add_order(create_order(5, 100, 50, OrderSide::Ask, OrderType::MOC, 4))
        .unwrap();

    assert_eq!(ob.candidate_prices(), vec![99, 100, 101]);
}

#[test]
fn test_one_sided_book_degenerate() {
    // A single bid level: its price is the only candidate, the executable
    // volume is zero, and the auction still reports a price.
    let mut ob = OrderBook::new();
    ob.add_order(create_order(1, 100, 500, OrderSide::Bid, OrderType::MOC, 0))
        .unwrap();
    let mut engine = AuctionSystem::new();
    assert_eq!(engine.execute_auction(&ob), Some((100, 0)));

    // With several bid levels, all executable volumes are still zero and the
    // imbalance tie-break selects the price carrying the smallest resting
    // quantity at or above it: the highest level.
    ob.add_order(create_order(2, 101, 300, OrderSide::Bid, OrderType::LOC, 1))
        .unwrap();
    assert_eq!(engine.execute_auction(&ob), Some((101, 0)));
}

#[test]
fn test_imbalance_overwrite_and_sign() {
    let mut handler = ImbalanceHandler::new();
    assert_eq!(handler.get(), 0);

    handler.update(800, 600);
    assert_eq!(handler.get(), 200);

    handler.update(100, 300);
    assert_eq!(handler.get(), -200);
}
