use exchange_rs::matching_engine::{MatchingEngine, MatchingError};
use exchange_rs::order::{Order, OrderStatus, OrderType, Side, TimeInForce};
use exchange_rs::orderbook::OrderBook;

fn new_order(symbol: &str, side: Side, order_type: OrderType, price: u64, quantity: u32, user: u64) -> Order {
    Order::new(symbol.to_string(), side, order_type, price, quantity, user)
}

#[test]
fn test_matching_engine_creation() {
    let engine = MatchingEngine::new();
    assert!(engine.order_books.is_empty());
}

#[test]
fn test_add_symbol() {
    let mut engine = MatchingEngine::new();
    engine.add_symbol("BTCUSD");
    assert!(engine.has_symbol("BTCUSD"));
    engine.add_symbol("BTCUSD");
    assert!(engine.has_symbol("BTCUSD"));
    assert_eq!(engine.order_books.len(), 1);
}

#[test]
fn test_place_order_unknown_symbol() {
    let mut engine = MatchingEngine::new();
    let order = new_order("UNKNOWN", Side::Buy, OrderType::Limit, 100, 1000, 1);
    let result = engine.place_order(order);
    assert!(result.is_err());
    assert!(matches!(result, Err(MatchingError::SymbolNotFound)));
}

#[test]
fn test_place_limit_order_no_match() {
    let mut engine = MatchingEngine::new();
    engine.add_symbol("TESTPAIR");
    let order = new_order("TESTPAIR", Side::Buy, OrderType::Limit, 100, 1000, 1);
    let result = engine.place_order(order).unwrap();
    assert!(result.trades.is_empty());
    assert!(result.remaining_order.is_some());
}

#[test]
fn test_matching_orders() {
    let mut engine = MatchingEngine::new();
    engine.add_symbol("TESTPAIR");
    let buy_order = new_order("TESTPAIR", Side::Buy, OrderType::Limit, 100, 1000, 1);
    let sell_order = new_order("TESTPAIR", Side::Sell, OrderType::Limit, 100, 800, 2);
    engine.place_order(buy_order).unwrap();
    let result = engine.place_order(sell_order).unwrap();
    assert_eq!(result.trades.len(), 1);
    assert_eq!(result.trades[0].quantity, 800);
    assert_eq!(result.trades[0].price, 100);
    assert_eq!(result.trades[0].buy_order_id, 1);
    assert_eq!(result.trades[0].sell_order_id, 2);
    assert!(result.remaining_order.is_none());
}

#[test]
fn test_partial_fill() {
    let mut engine = MatchingEngine::new();
    engine.add_symbol("TESTPAIR");
    let large_buy = new_order("TESTPAIR", Side::Buy, OrderType::Limit, 100, 5000, 1);
    let small_sell = new_order("TESTPAIR", Side::Sell, OrderType::Limit, 100, 2000, 2);
    engine.place_order(large_buy).unwrap();
    let result = engine.place_order(small_sell).unwrap();
    assert_eq!(result.trades.len(), 1);
    assert_eq!(result.trades[0].quantity, 2000);
    assert!(result.remaining_order.is_none());
    let book: &OrderBook = engine.order_book("TESTPAIR").unwrap();
    let resting = book.get_order(1).unwrap();
    assert_eq!(resting.filled_quantity, 2000);
    assert_eq!(resting.remaining_quantity(), 3000);
}

#[test]
fn test_market_order_execution() {
    let mut engine = MatchingEngine::new();
    engine.add_symbol("TESTPAIR");
    let limit_sell = new_order("TESTPAIR", Side::Sell, OrderType::Limit, 105, 1000, 1);
    let market_buy = new_order("TESTPAIR", Side::Buy, OrderType::Market, 0, 800, 2);
    engine.place_order(limit_sell).unwrap();
    let result = engine.place_order(market_buy).unwrap();
    assert_eq!(result.trades.len(), 1);
    assert_eq!(result.trades[0].quantity, 800);
    assert_eq!(result.trades[0].price, 105);
    assert!(result.remaining_order.is_none());
}

#[test]
fn test_order_id_generation() {
    let mut engine = MatchingEngine::new();
    engine.add_symbol("TEST");
    let order1 = new_order("TEST", Side::Buy, OrderType::Limit, 100, 10, 1);
    let order2 = new_order("TEST", Side::Sell, OrderType::Limit, 100, 10, 2);
    let result1 = engine.place_order(order1).unwrap();
    let result2 = engine.place_order(order2).unwrap();
    assert_eq!(result1.trades.len(), 0);
    assert_eq!(result2.trades.len(), 1);
}

#[test]
fn test_trade_id_generation() {
    let mut engine = MatchingEngine::new();
    engine.add_symbol("TEST");
    let buy_order = new_order("TEST", Side::Buy, OrderType::Limit, 100, 10, 1);
    let sell_order = new_order("TEST", Side::Sell, OrderType::Limit, 100, 10, 2);
    engine.place_order(buy_order).unwrap();
    let result = engine.place_order(sell_order).unwrap();
    assert_eq!(result.trades.len(), 1);
    assert!(result.trades[0].id > 0);
}

#[test]
fn test_price_time_priority_across_levels() {
    let mut engine = MatchingEngine::new();
    engine.add_symbol("X");
    engine.place_order(new_order("X", Side::Sell, OrderType::Limit, 102, 5, 1)).unwrap();
    engine.place_order(new_order("X", Side::Sell, OrderType::Limit, 101, 5, 2)).unwrap();
    engine.place_order(new_order("X", Side::Sell, OrderType::Limit, 101, 5, 3)).unwrap();
    let result = engine.place_order(new_order("X", Side::Buy, OrderType::Limit, 102, 12, 4)).unwrap();
    let fills: Vec<(u64, u64, u32)> = result.trades.iter().map(|t| (t.sell_order_id, t.price, t.quantity)).collect();
    assert_eq!(fills, vec![(2, 101, 5), (3, 101, 5), (1, 102, 2)]);
    let ids: Vec<u64> = result.trades.iter().map(|t| t.id).collect();
    assert_eq!(ids, vec![1, 2, 3]);
    assert!(result.remaining_order.is_none());
    let book = engine.order_book("X").unwrap();
    assert_eq!(book.get_best_ask_price(), Some(102));
    assert_eq!(book.get_best_bid_price(), None);
}

#[test]
fn test_limit_price_bounds_trades() {
    let mut engine = MatchingEngine::new();
    engine.add_symbol("X");
    engine.place_order(new_order("X", Side::Sell, OrderType::Limit, 105, 5, 1)).unwrap();
    let result = engine.place_order(new_order("X", Side::Buy, OrderType::Limit, 104, 5, 2)).unwrap();
    assert!(result.trades.is_empty());
    let book = engine.order_book("X").unwrap();
    assert_eq!(book.get_best_bid_price(), Some(104));
    assert_eq!(book.get_best_ask_price(), Some(105));
}

#[test]
fn test_fok_cannot_be_filled() {
    let mut engine = MatchingEngine::new();
    engine.add_symbol("X");
    engine.place_order(new_order("X", Side::Sell, OrderType::Limit, 100, 5, 1)).unwrap();
    let mut fok = new_order("X", Side::Buy, OrderType::Limit, 100, 10, 2);
    fok.time_in_force = TimeInForce::FOK;
    let result = engine.place_order(fok);
    assert!(matches!(result, Err(MatchingError::FOKCannotBeFilled)));
    assert_eq!(engine.order_book("X").unwrap().get_order(1).unwrap().filled_quantity, 0);
}

#[test]
fn test_cancel_order() {
    let mut engine = MatchingEngine::new();
    engine.add_symbol("X");
    engine.place_order(new_order("X", Side::Buy, OrderType::Limit, 100, 5, 1)).unwrap();
    let cancelled = engine.cancel_order("X", 1);
    assert!(cancelled.is_some());
    assert!(engine.cancel_order("X", 1).is_none());
    assert!(engine.order_book("X").unwrap().get_order(1).is_none());
    assert!(engine.cancel_order("Y", 1).is_none());
}

#[test]
fn test_get_best_bid_ask() {
    let mut orderbook = OrderBook::new("TEST");
    assert!(orderbook.get_best_bid_price().is_none());
    assert!(orderbook.get_best_ask_price().is_none());
    let mut id = 0;
    for (side, price, qty) in [(Side::Buy, 100, 1000), (Side::Buy, 95, 2000), (Side::Sell, 110, 1000), (Side::Sell, 115, 2000)] {
        id += 1;
        let mut o = new_order("TEST", side, OrderType::Limit, price, qty, id);
        o.id = id;
        orderbook.add_order(o).unwrap();
    }
    assert_eq!(orderbook.get_best_bid_price().unwrap(), 100);
    assert_eq!(orderbook.get_best_ask_price().unwrap(), 110);
}

#[test]
fn test_remove_order() {
    let mut orderbook = OrderBook::new("TEST");
    let mut order = new_order("TEST", Side::Buy, OrderType::Limit, 100, 1000, 1);
    order.id = 7;
    orderbook.add_order(order).unwrap();
    assert_eq!(orderbook.get_best_bid_price(), Some(100));
    let result = orderbook.remove_order(7);
    assert!(result.is_some());
    assert_eq!(orderbook.get_best_bid_price(), None);
}

#[test]
fn test_remove_nonexistent_order() {
    let mut orderbook = OrderBook::new("TEST");
    let result = orderbook.remove_order(999999);
    assert!(result.is_none());
}

#[test]
fn test_stop_order_triggers_on_trade() {
    let mut engine = MatchingEngine::new();
    engine.add_symbol("X");
    let mut stop = new_order("X", Side::Buy, OrderType::StopLimit, 110, 10, 1);
    stop.stop_price = Some(105);
    let r = engine.place_order(stop).unwrap();
    assert!(r.trades.is_empty());
    engine.place_order(new_order("X", Side::Sell, OrderType::Limit, 105, 5, 2)).unwrap();
    engine.place_order(new_order("X", Side::Buy, OrderType::Limit, 105, 5, 3)).unwrap();
    let book = engine.order_book("X").unwrap();
    // The trade at 105 set off the stop order, which now rests as a bid.
    assert_eq!(book.get_best_bid_price(), Some(110));
    assert!(book.get_order(1).is_some());
}

#[test]
fn test_expire_orders_at_removes_expired_only() {
    let mut engine = MatchingEngine::new();
    engine.add_symbol("EXP");
    let mut gtd = new_order("EXP", Side::Buy, OrderType::Limit, 100, 10, 1);
    gtd.time_in_force = TimeInForce::GTD;
    gtd.expiration_time = 1_000;
    let gtc = new_order("EXP", Side::Buy, OrderType::Limit, 99, 10, 2);
    engine.place_order(gtd).unwrap();
    engine.place_order(gtc).unwrap();
    let expired = engine.expire_orders_at(2_000).unwrap();
    assert_eq!(expired.len(), 1);
    assert_eq!(expired[0].id, 1);
    let book = engine.order_book("EXP").unwrap();
    assert_eq!(book.get_best_bid_price(), Some(99));
    assert!(book.get_order(1).is_none());
    assert!(engine.expire_orders_at(3_000).unwrap().is_empty());
}

#[test]
fn test_price_then_time_priority() {
    let mut engine = MatchingEngine::new();
    engine.add_symbol("PRI");
    engine.place_order(new_order("PRI", Side::Sell, OrderType::Limit, 100, 5, 1)).unwrap();
    engine.place_order(new_order("PRI", Side::Sell, OrderType::Limit, 100, 5, 2)).unwrap();
    engine.place_order(new_order("PRI", Side::Sell, OrderType::Limit, 99, 5, 3)).unwrap();
    let result = engine.place_order(new_order("PRI", Side::Buy, OrderType::Limit, 100, 12, 4)).unwrap();
    let prices: Vec<u64> = result.trades.iter().map(|t| t.price).collect();
    let sellers: Vec<u64> = result.trades.iter().map(|t| t.sell_order_id).collect();
    assert_eq!(prices, vec![99, 100, 100]);
    assert_eq!(sellers, vec![3, 1, 2]);
    assert_eq!(result.trades[2].quantity, 2);
    assert!(result.trades.iter().all(|t| t.buy_order_id == 4));
}

#[test]
fn test_crossing_limit_order_trades_at_resting_price() {
    let mut engine = MatchingEngine::new();
    engine.add_symbol("T");
    engine.place_order(new_order("T", Side::Buy, OrderType::Limit, 105, 10, 1)).unwrap();
    let r = engine.place_order(new_order("T", Side::Sell, OrderType::Limit, 100, 4, 2)).unwrap();
    assert_eq!(r.trades.len(), 1);
    assert_eq!(r.trades[0].price, 105);
    assert_eq!(r.trades[0].quantity, 4);
    assert_eq!(r.trades[0].buy_order_id, 1);
    assert_eq!(r.trades[0].sell_order_id, 2);
    assert!(r.remaining_order.is_none());
    let book = engine.order_book("T").unwrap();
    assert_eq!(book.get_best_bid_price(), Some(105));
    assert_eq!(book.buy_levels[0].orders[0].filled_quantity, 4);
}

#[test]
fn test_remainder_rests_behind_level() {
    let mut engine = MatchingEngine::new();
    engine.add_symbol("T");
    engine.place_order(new_order("T", Side::Sell, OrderType::Limit, 100, 3, 1)).unwrap();
    engine.place_order(new_order("T", Side::Buy, OrderType::Limit, 99, 5, 2)).unwrap();
    let r = engine.place_order(new_order("T", Side::Buy, OrderType::Limit, 100, 10, 3)).unwrap();
    assert_eq!(r.trades.len(), 1);
    assert_eq!(r.trades[0].quantity, 3);
    let rest = r.remaining_order.unwrap();
    assert_eq!(rest.filled_quantity, 3);
    let book = engine.order_book("T").unwrap();
    assert_eq!(book.get_best_ask_price(), None);
    assert_eq!(book.get_best_bid_price(), Some(100));
    assert_eq!(book.get_order(3).unwrap().filled_quantity, 3);
}

#[test]
fn test_expire_orders_at_returns_every_expired_order() {
    let mut engine = MatchingEngine::new();
    engine.add_symbol("A");
    engine.add_symbol("B");
    let mut a = new_order("A", Side::Buy, OrderType::Limit, 100, 10, 1);
    a.time_in_force = TimeInForce::GTD;
    a.expiration_time = 1_000;
    let mut b = new_order("B", Side::Sell, OrderType::Limit, 200, 10, 2);
    b.time_in_force = TimeInForce::GTD;
    b.expiration_time = 1_500;
    engine.place_order(a).unwrap();
    engine.place_order(b).unwrap();
    engine.place_order(new_order("B", Side::Sell, OrderType::Limit, 201, 10, 3)).unwrap();
    let expired = engine.expire_orders_at(2_000).unwrap();
    assert_eq!(expired.len(), 2);
    assert!(engine.order_book("A").unwrap().get_order(1).is_none());
    assert!(engine.order_book("B").unwrap().get_order(2).is_none());
    assert!(engine.order_book("B").unwrap().get_order(3).is_some());
}

#[test]
fn test_sweep_stops_at_limit_and_rests_remainder() {
    let mut engine = MatchingEngine::new();
    engine.add_symbol("S");
    engine.place_order(new_order("S", Side::Sell, OrderType::Limit, 100, 3, 1)).unwrap();
    engine.place_order(new_order("S", Side::Sell, OrderType::Limit, 101, 4, 2)).unwrap();
    engine.place_order(new_order("S", Side::Sell, OrderType::Limit, 102, 5, 3)).unwrap();
    let r = engine.place_order(new_order("S", Side::Buy, OrderType::Limit, 101, 10, 4)).unwrap();
    assert_eq!(r.trades.len(), 2);
    assert_eq!(r.trades[0].price, 100);
    assert_eq!(r.trades[0].quantity, 3);
    assert_eq!(r.trades[1].price, 101);
    assert_eq!(r.trades[1].quantity, 4);
    let rest = r.remaining_order.unwrap();
    assert_eq!(rest.price, 101);
    assert_eq!(rest.filled_quantity, 7);
    let book = engine.order_book("S").unwrap();
    assert_eq!(book.get_best_bid_price(), Some(101));
    assert_eq!(book.get_best_ask_price(), Some(102));
}

#[test]
fn test_cancel_keeps_other_levels() {
    let mut engine = MatchingEngine::new();
    engine.add_symbol("C");
    engine.place_order(new_order("C", Side::Buy, OrderType::Limit, 99, 5, 1)).unwrap();
    engine.place_order(new_order("C", Side::Buy, OrderType::Limit, 98, 5, 2)).unwrap();
    let c = engine.cancel_order("C", 1).unwrap();
    assert_eq!(c.id, 1);
    assert_eq!(c.price, 99);
    assert_eq!(c.quantity, 5);
    let book = engine.order_book("C").unwrap();
    assert_eq!(book.buy_levels.len(), 1);
    assert_eq!(book.get_best_bid_price(), Some(98));
}

#[test]
fn test_sell_sweep_leaves_book_uncrossed() {
    let mut engine = MatchingEngine::new();
    engine.add_symbol("U");
    engine.place_order(new_order("U", Side::Buy, OrderType::Limit, 105, 2, 1)).unwrap();
    engine.place_order(new_order("U", Side::Buy, OrderType::Limit, 103, 2, 2)).unwrap();
    engine.place_order(new_order("U", Side::Buy, OrderType::Limit, 100, 2, 3)).unwrap();
    engine.place_order(new_order("U", Side::Sell, OrderType::Limit, 110, 1, 4)).unwrap();
    let r = engine.place_order(new_order("U", Side::Sell, OrderType::Limit, 102, 9, 5)).unwrap();
    let traded: u32 = r.trades.iter().map(|t| t.quantity).sum();
    assert_eq!(traded, 4);
    assert_eq!(r.trades[0].price, 105);
    assert_eq!(r.trades[1].price, 103);
    let rest = r.remaining_order.unwrap();
    assert_eq!(rest.price, 102);
    assert_eq!(rest.side, Side::Sell);
    assert_eq!(rest.quantity, 9);
    let book = engine.order_book("U").unwrap();
    assert_eq!(book.get_best_bid_price(), Some(100));
    assert_eq!(book.get_best_ask_price(), Some(102));
}

#[test]
fn test_matching_keeps_level_volume_caches() {
    let mut engine = MatchingEngine::new();
    engine.add_symbol("V");
    engine.place_order(new_order("V", Side::Sell, OrderType::Limit, 100, 10, 1)).unwrap();
    engine.place_order(new_order("V", Side::Sell, OrderType::Limit, 100, 5, 2)).unwrap();
    engine.place_order(new_order("V", Side::Sell, OrderType::Limit, 101, 7, 3)).unwrap();
    let r = engine.place_order(new_order("V", Side::Buy, OrderType::Limit, 100, 12, 4)).unwrap();
    assert_eq!(r.trades.len(), 2);
    assert!(r.remaining_order.is_none());
    let book = engine.order_book("V").unwrap();
    assert_eq!(book.sell_levels.len(), 2);
    assert_eq!(book.sell_levels[0].orders.len(), 1);
    assert_eq!(book.sell_levels[0].orders[0].filled_quantity, 2);
    assert_eq!(book.sell_levels[0].total_volume, 15);
    assert_eq!(book.sell_levels[0].visible_volume, 15);
    assert_eq!(book.sell_levels[1].total_volume, 7);
    let first = book.order_map.get(&1).unwrap();
    assert_eq!(first.filled_quantity, 10);
    assert_eq!(first.status, OrderStatus::Filled);
    let second = book.order_map.get(&2).unwrap();
    assert_eq!(second.filled_quantity, 2);
    assert_eq!(second.status, OrderStatus::PartiallyFilled);
    assert_eq!(book.order_map.get(&3).unwrap().filled_quantity, 0);
}
