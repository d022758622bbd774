use exchange_rs::matching_engine::MatchingEngine;
use exchange_rs::order::{Order, OrderStatus, OrderType, Side, TimeInForce};

fn order(side: Side, order_type: OrderType, price: u64, quantity: u32, user: u64) -> Order {
    Order::new("AAPL".to_string(), side, order_type, price, quantity, user)
}

#[test]
fn order_test_remaining_quantity() {
    let mut order = order(Side::Buy, OrderType::Limit, 100, 10, 1);
    assert_eq!(order.remaining_quantity(), 10);
    order.filled_quantity = 5;
    assert_eq!(order.remaining_quantity(), 5);
    order.filled_quantity = 10;
    assert_eq!(order.remaining_quantity(), 0);
}

#[test]
fn test_visible_quantity() {
    let order1 = order(Side::Buy, OrderType::Limit, 100, 10, 1);
    assert_eq!(order1.visible_quantity(), 10);
    let mut iceberg_order = order(Side::Buy, OrderType::Iceberg, 100, 100, 1);
    iceberg_order.display_quantity = Some(10);
    assert_eq!(iceberg_order.visible_quantity(), 10);
    iceberg_order.filled_quantity = 95;
    assert_eq!(iceberg_order.visible_quantity(), 5);
}

#[test]
fn test_is_filled() {
    let mut o = order(Side::Buy, OrderType::Limit, 100, 10, 1);
    assert!(!o.is_filled());
    o.filled_quantity = 5;
    assert!(!o.is_filled());
    o.filled_quantity = 10;
    assert!(o.is_filled());
    assert_eq!(o.status, OrderStatus::New);
    assert_eq!(o.time_in_force, TimeInForce::GTC);
}

#[test]
fn test_is_stop_order() {
    let limit_order = order(Side::Buy, OrderType::Limit, 100, 10, 1);
    assert!(!limit_order.is_stop_order());
    let stop_limit_order = order(Side::Buy, OrderType::StopLimit, 100, 10, 1);
    assert!(stop_limit_order.is_stop_order());
    let stop_market_order = order(Side::Buy, OrderType::StopMarket, 100, 10, 1);
    assert!(stop_market_order.is_stop_order());
}

#[test]
fn test_is_stop_triggered() {
    let mut buy_stop_order = order(Side::Buy, OrderType::StopLimit, 100, 10, 1);
    buy_stop_order.stop_price = Some(105);
    assert!(!buy_stop_order.is_stop_triggered(100));
    assert!(!buy_stop_order.is_stop_triggered(104));
    assert!(buy_stop_order.is_stop_triggered(105));
    assert!(buy_stop_order.is_stop_triggered(106));

    let mut sell_stop_order = order(Side::Sell, OrderType::StopLimit, 100, 10, 1);
    sell_stop_order.stop_price = Some(95);
    assert!(!sell_stop_order.is_stop_triggered(100));
    assert!(!sell_stop_order.is_stop_triggered(96));
    assert!(sell_stop_order.is_stop_triggered(95));
    assert!(sell_stop_order.is_stop_triggered(94));
}

#[test]
fn test_is_expired() {
    let mut gtd_order = order(Side::Buy, OrderType::Limit, 100, 10, 1);
    gtd_order.time_in_force = TimeInForce::GTD;
    let current_time = Order::get_nano_timestamp();
    let one_day_ns: i64 = 86_400_000_000_000;
    gtd_order.expiration_time = current_time + one_day_ns;
    assert!(!gtd_order.is_expired(current_time));
    gtd_order.expiration_time = current_time - 1;
    assert!(gtd_order.is_expired(current_time));

    let mut day_order = order(Side::Buy, OrderType::Limit, 100, 10, 1);
    day_order.time_in_force = TimeInForce::Day;
    let current_time = Order::get_nano_timestamp();
    assert!(!day_order.is_expired(current_time));
    assert!(day_order.is_expired(current_time + one_day_ns));

    let gtc_order = order(Side::Buy, OrderType::Limit, 100, 10, 1);
    assert!(!gtc_order.is_expired(current_time));
    assert!(!gtc_order.is_expired(current_time + one_day_ns * 365));
}

#[test]
fn test_order_types() {
    let market_order = order(Side::Buy, OrderType::Market, 0, 10, 1);
    assert_eq!(market_order.order_type, OrderType::Market);
    let limit_order = order(Side::Buy, OrderType::Limit, 100, 10, 1);
    assert_eq!(limit_order.order_type, OrderType::Limit);
    let mut stop_limit_order = order(Side::Buy, OrderType::StopLimit, 100, 10, 1);
    stop_limit_order.stop_price = Some(105);
    assert_eq!(stop_limit_order.order_type, OrderType::StopLimit);
    assert!(stop_limit_order.is_stop_order());
    assert_eq!(stop_limit_order.stop_price, Some(105));
    let mut stop_market_order = order(Side::Buy, OrderType::StopMarket, 0, 10, 1);
    stop_market_order.stop_price = Some(105);
    assert_eq!(stop_market_order.order_type, OrderType::StopMarket);
    assert!(stop_market_order.is_stop_order());
    assert_eq!(stop_market_order.stop_price, Some(105));
    let mut iceberg_order = order(Side::Buy, OrderType::Iceberg, 100, 100, 1);
    iceberg_order.display_quantity = Some(10);
    assert_eq!(iceberg_order.order_type, OrderType::Iceberg);
    assert_eq!(iceberg_order.display_quantity, Some(10));
    assert_eq!(iceberg_order.visible_quantity(), 10);
}

#[test]
fn test_time_in_force() {
    let gtc_order = order(Side::Buy, OrderType::Limit, 100, 10, 1);
    assert_eq!(gtc_order.time_in_force, TimeInForce::GTC);
    let mut ioc_order = order(Side::Buy, OrderType::Limit, 100, 10, 1);
    ioc_order.time_in_force = TimeInForce::IOC;
    assert_eq!(ioc_order.time_in_force, TimeInForce::IOC);
    let mut fok_order = order(Side::Buy, OrderType::Limit, 100, 10, 1);
    fok_order.time_in_force = TimeInForce::FOK;
    assert_eq!(fok_order.time_in_force, TimeInForce::FOK);
    let mut gtd_order = order(Side::Buy, OrderType::Limit, 100, 10, 1);
    gtd_order.time_in_force = TimeInForce::GTD;
    gtd_order.expiration_time = Order::get_nano_timestamp() + 86_400_000_000_000;
    assert_eq!(gtd_order.time_in_force, TimeInForce::GTD);
    assert!(gtd_order.expiration_time > Order::get_nano_timestamp());
    let mut day_order = order(Side::Buy, OrderType::Limit, 100, 10, 1);
    day_order.time_in_force = TimeInForce::Day;
    assert_eq!(day_order.time_in_force, TimeInForce::Day);
}

fn test_order(symbol: &str, side: Side, order_type: OrderType, price: u64, quantity: u32, user: u64) -> Order {
    Order::new(symbol.to_string(), side, order_type, price, quantity, user)
}

#[test]
fn test_order_creation() {
    let order = test_order("BTCUSD", Side::Buy, OrderType::Limit, 50000000000, 1000, 123);
    assert_eq!(order.symbol, "BTCUSD");
    assert_eq!(order.side, Side::Buy);
    assert_eq!(order.order_type, OrderType::Limit);
    assert_eq!(order.price, 50000000000);
    assert_eq!(order.quantity, 1000);
    assert_eq!(order.user_id, 123);
    assert_eq!(order.filled_quantity, 0);
    assert_eq!(order.status, OrderStatus::New);
    assert!(order.timestamp > 0);
}

#[test]
fn tests_test_order_id_generation() {
    let mut engine = MatchingEngine::new();
    engine.add_symbol("TEST");
    let order1 = test_order("TEST", Side::Buy, OrderType::Limit, 100, 10, 1);
    let order2 = test_order("TEST", Side::Sell, OrderType::Limit, 90, 5, 1);
    engine.place_order(order1).unwrap();
    let result = engine.place_order(order2).unwrap();
    let trade = &result.trades[0];
    assert_ne!(trade.buy_order_id, trade.sell_order_id);
    assert!(trade.sell_order_id > trade.buy_order_id);
}

#[test]
fn tests_test_remaining_quantity() {
    let mut order = test_order("TEST", Side::Buy, OrderType::Limit, 100, 1000, 1);
    assert_eq!(order.remaining_quantity(), 1000);
    order.filled_quantity = 300;
    assert_eq!(order.remaining_quantity(), 700);
    order.filled_quantity = 1000;
    assert_eq!(order.remaining_quantity(), 0);
}

#[test]
fn test_is_fully_filled() {
    let mut order = test_order("TEST", Side::Buy, OrderType::Limit, 100, 1000, 1);
    assert!(!order.is_fully_filled());
    order.filled_quantity = 500;
    assert!(!order.is_fully_filled());
    order.filled_quantity = 1000;
    assert!(order.is_fully_filled());
}

#[test]
fn test_can_match() {
    let buy_order = test_order("TEST", Side::Buy, OrderType::Limit, 100, 1000, 1);
    let sell_order = test_order("TEST", Side::Sell, OrderType::Limit, 100, 1000, 2);
    let higher_sell = test_order("TEST", Side::Sell, OrderType::Limit, 110, 1000, 3);
    assert!(buy_order.can_match(&sell_order));
    assert!(!buy_order.can_match(&higher_sell));
    assert!(sell_order.can_match(&buy_order));
}

#[test]
fn test_stop_order_triggering() {
    let mut stop_buy = test_order("TEST", Side::Buy, OrderType::StopLimit, 110, 1000, 1);
    stop_buy.stop_price = Some(105);
    assert!(!stop_buy.is_stop_triggered(100));
    assert!(!stop_buy.is_stop_triggered(104));
    assert!(stop_buy.is_stop_triggered(105));
    assert!(stop_buy.is_stop_triggered(110));
    let mut stop_sell = test_order("TEST", Side::Sell, OrderType::StopLimit, 90, 1000, 2);
    stop_sell.stop_price = Some(95);
    assert!(!stop_sell.is_stop_triggered(100));
    assert!(!stop_sell.is_stop_triggered(96));
    assert!(stop_sell.is_stop_triggered(95));
    assert!(stop_sell.is_stop_triggered(90));
}

#[test]
fn test_time_in_force_expiration() {
    let current_time = Order::get_nano_timestamp();
    let gtc_order = test_order("TEST", Side::Buy, OrderType::Limit, 100, 1000, 1);
    assert!(!gtc_order.is_expired(current_time + 86400000000000));
    let mut day_order = test_order("TEST", Side::Buy, OrderType::Limit, 100, 1000, 2);
    day_order.time_in_force = TimeInForce::Day;
    assert!(!day_order.is_expired(current_time));
    assert!(day_order.is_expired(current_time + 86400000000000 + 1));
    let mut gtd_order = test_order("TEST", Side::Buy, OrderType::Limit, 100, 1000, 3);
    let expire_time = current_time + 3600000000000;
    gtd_order.time_in_force = TimeInForce::GTD;
    gtd_order.expiration_time = expire_time;
    assert!(!gtd_order.is_expired(current_time));
    assert!(!gtd_order.is_expired(expire_time - 1));
    assert!(gtd_order.is_expired(expire_time + 1));
}

#[test]
fn test_iceberg_order_visibility() {
    let mut iceberg = test_order("TEST", Side::Buy, OrderType::Iceberg, 100, 10000, 1);
    iceberg.display_quantity = Some(2000);
    assert_eq!(iceberg.visible_quantity(), 2000);
    iceberg.filled_quantity = 1000;
    assert_eq!(iceberg.visible_quantity(), 2000);
    iceberg.filled_quantity = 8500;
    assert_eq!(iceberg.visible_quantity(), 1500);
    iceberg.filled_quantity = 9500;
    assert_eq!(iceberg.visible_quantity(), 500);
    iceberg.filled_quantity = 10000;
    assert_eq!(iceberg.visible_quantity(), 0);
}

#[test]
fn test_order_status_transitions() {
    let mut order = test_order("TEST", Side::Buy, OrderType::Limit, 100, 1000, 1);
    assert_eq!(order.status, OrderStatus::New);
    order.status = OrderStatus::PartiallyFilled;
    assert_eq!(order.status, OrderStatus::PartiallyFilled);
    order.status = OrderStatus::Filled;
    assert_eq!(order.status, OrderStatus::Filled);
    order.status = OrderStatus::Canceled;
    assert_eq!(order.status, OrderStatus::Canceled);
}

#[test]
fn test_market_order_price_handling() {
    let market_buy = test_order("TEST", Side::Buy, OrderType::Market, 0, 1000, 1);
    let market_sell = test_order("TEST", Side::Sell, OrderType::Market, 0, 1000, 2);
    assert_eq!(market_buy.price, 0);
    assert_eq!(market_sell.price, 0);
    let limit_buy = test_order("TEST", Side::Buy, OrderType::Limit, 100, 1000, 3);
    let limit_sell = test_order("TEST", Side::Sell, OrderType::Limit, 110, 1000, 4);
    assert!(market_buy.can_match(&limit_sell));
    assert!(market_sell.can_match(&limit_buy));
}

#[test]
fn test_order_validation() {
    let valid_order = test_order("TEST", Side::Buy, OrderType::Limit, 100, 1000, 1);
    assert!(valid_order.quantity > 0);
    assert!(!valid_order.symbol.is_empty());
    let mut invalid_order = test_order("", Side::Buy, OrderType::Limit, 100, 0, 1);
    invalid_order.quantity = 0;
    assert_eq!(invalid_order.quantity, 0);
    assert!(invalid_order.symbol.is_empty());
}

#[test]
fn test_order_clone_and_equality() {
    let order1 = test_order("TEST", Side::Buy, OrderType::Limit, 100, 1000, 1);
    let order2 = order1.clone();
    assert_eq!(order1.id, order2.id);
    assert_eq!(order1.symbol, order2.symbol);
    assert_eq!(order1.side, order2.side);
    assert_eq!(order1.price, order2.price);
    assert_eq!(order1.quantity, order2.quantity);
}

#[test]
fn test_side_opposite() {
    assert_eq!(Side::Buy.opposite(), Side::Sell);
    assert_eq!(Side::Sell.opposite(), Side::Buy);
}

#[test]
fn test_order_type_variants() {
    let limit = OrderType::Limit;
    let market = OrderType::Market;
    let stop_limit = OrderType::StopLimit;
    let stop_market = OrderType::StopMarket;
    let iceberg = OrderType::Iceberg;
    assert_ne!(limit, market);
    assert_ne!(market, stop_limit);
    assert_ne!(stop_limit, stop_market);
    assert_ne!(stop_market, iceberg);
}

#[test]
fn test_time_in_force_variants() {
    let gtc = TimeInForce::GTC;
    let ioc = TimeInForce::IOC;
    let fok = TimeInForce::FOK;
    let day = TimeInForce::Day;
    let gtd = TimeInForce::GTD;
    assert_ne!(gtc, ioc);
    assert_ne!(ioc, fok);
    assert_ne!(fok, day);
    assert_ne!(day, gtd);
    let mut order = test_order("TEST", Side::Buy, OrderType::Limit, 100, 10, 1);
    order.time_in_force = gtd;
    order.expiration_time = 123456789;
    assert_eq!(order.expiration_time, 123456789);
}
