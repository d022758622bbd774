use exchange_rs::optimizations::{CacheAlignedPriceLevel, OrderPool, SPSCQueue};
use exchange_rs::order::{Order, OrderType, Side};

#[test]
fn test_order_pool() {
    let mut pool = OrderPool::new(10);

    let mut orders = Vec::new();
    for i in 0..15 {
        let mut order = pool.acquire();
        order.id = i;
        order.symbol = "AAPL".to_string();
        order.price = 100;
        order.quantity = 10;
        orders.push(order);
    }

    for order in orders {
        pool.release(order);
    }
}

#[test]
fn test_order_pool_reuse() {
    let mut pool = OrderPool::new(5);

    for _ in 0..3 {
        let mut orders = Vec::new();
        for i in 0..5 {
            let mut order = pool.acquire();
            order.id = i;
            order.symbol = "AAPL".to_string();
            order.price = 100;
            order.quantity = 10;
            orders.push(order);
        }

        for order in orders {
            pool.release(order);
        }
    }

    assert_eq!(pool.get_total_allocated(), 5);
}

#[test]
fn test_order_pool_grows_when_empty() {
    let mut pool = OrderPool::new(1);
    let first = pool.acquire();
    assert_eq!(pool.get_total_allocated(), 1);
    let second = pool.acquire();
    assert_eq!(pool.get_total_allocated(), 2);
    assert_eq!(second.quantity, 0);
    pool.release(first);
    pool.release(second);
    let third = pool.acquire();
    assert_eq!(pool.get_total_allocated(), 2);
    assert_eq!(third.id, 0);
}

#[test]
fn test_order_pool_wipes_released_records() {
    let mut pool = OrderPool::new(0);
    let mut order = pool.acquire();
    order.id = 42;
    order.symbol = "AAPL".to_string();
    order.price = 100;
    order.quantity = 10;
    pool.release(order);
    let again = pool.acquire();
    assert_eq!(again.id, 0);
    assert!(again.symbol.is_empty());
    assert_eq!(again.price, 0);
    assert_eq!(again.quantity, 0);
    assert_eq!(pool.get_total_allocated(), 1);
}

#[test]
fn test_spsc_queue() {
    let mut queue = SPSCQueue::new(10);

    for _i in 0..5 {
        let order = Order::new("AAPL".to_string(), Side::Buy, OrderType::Limit, 100, 10, 1);
        queue.enqueue(order).unwrap();
    }

    for _ in 0..5 {
        let order = queue.dequeue();
        assert!(order.is_some());
    }

    assert!(queue.dequeue().is_none());
}

#[test]
fn test_spsc_queue_full() {
    let mut queue = SPSCQueue::new(2);

    for i in 0..2 {
        let order = Order::new("AAPL".to_string(), Side::Buy, OrderType::Limit, 100, 10, i);
        queue.enqueue(order).unwrap();
    }

    let order = Order::new("AAPL".to_string(), Side::Buy, OrderType::Limit, 100, 10, 3);
    let result = queue.enqueue(order);
    assert!(result.is_err());
    assert_eq!(result.unwrap_err(), "Queue is full");
}

#[test]
fn test_spsc_queue_first_in_first_out() {
    let mut queue = SPSCQueue::new(3);
    for user in 1..=3 {
        let order = Order::new("AAPL".to_string(), Side::Sell, OrderType::Limit, 100, 10, user);
        queue.enqueue(order).unwrap();
    }
    assert_eq!(queue.dequeue().unwrap().user_id, 1);
    let order = Order::new("AAPL".to_string(), Side::Sell, OrderType::Limit, 100, 10, 4);
    queue.enqueue(order).unwrap();
    assert_eq!(queue.dequeue().unwrap().user_id, 2);
    assert_eq!(queue.dequeue().unwrap().user_id, 3);
    assert_eq!(queue.dequeue().unwrap().user_id, 4);
    assert!(queue.dequeue().is_none());
}

#[test]
fn test_cache_aligned_price_level() {
    let mut level = CacheAlignedPriceLevel::new(100);

    let mut order = Order::new("AAPL".to_string(), Side::Buy, OrderType::Limit, 100, 10, 1);
    order.id = 1;

    level.add_order(order);

    assert_eq!(level.get_total_volume(), 10);

    let removed = level.remove_order(1);
    assert!(removed.is_some());

    assert_eq!(level.get_total_volume(), 0);
}

#[test]
fn test_cache_aligned_price_level_concurrent() {
    let mut level = CacheAlignedPriceLevel::new(100);
    let num_threads = 10;
    let orders_per_thread = 10;

    for t in 0..num_threads {
        for i in 0..orders_per_thread {
            let id = (t * orders_per_thread + i) as u64;
            let mut order = Order::new("AAPL".to_string(), Side::Buy, OrderType::Limit, 100, 10, id);
            order.id = id;
            level.add_order(order);
        }
    }

    assert_eq!(level.get_total_volume(), (num_threads * orders_per_thread * 10) as u64);
}

#[test]
fn test_cache_aligned_price_level_iceberg_and_missing_id() {
    let mut level = CacheAlignedPriceLevel::new(250);
    assert_eq!(level.get_price(), 250);
    let mut iceberg = Order::new("AAPL".to_string(), Side::Sell, OrderType::Iceberg, 250, 100, 7);
    iceberg.id = 7;
    iceberg.display_quantity = Some(20);
    iceberg.filled_quantity = 10;
    level.add_order(iceberg);
    assert_eq!(level.get_total_volume(), 90);
    assert_eq!(level.get_visible_volume(), 20);
    assert!(level.remove_order(8).is_none());
    assert_eq!(level.get_total_volume(), 90);
    let removed = level.remove_order(7).unwrap();
    assert_eq!(removed.id, 7);
    assert_eq!(level.get_total_volume(), 0);
    assert_eq!(level.get_visible_volume(), 0);
}
