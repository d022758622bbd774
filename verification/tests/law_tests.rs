use exchange_rs::fix::decimal::FixDecimal;
use exchange_rs::fix::error::{BusinessError, ValidationError};
use exchange_rs::fix::parser::field_parser::{debug_text, FieldValue};
use exchange_rs::fix::validation::{FieldValidator, MessageValidator};
use exchange_rs::fix::messages::execution_report::{ExecType, OrdStatus};
use exchange_rs::fix::messages::new_order_single::{OrdType, Side as FixSide, TimeInForce as FixTimeInForce};
use exchange_rs::fix::messages::{MessageType, NewOrderSingle, StandardHeader, Trailer};
use exchange_rs::fix::parser::raw_parser::RawParser;
use exchange_rs::fix::validation::BusinessValidator;
use exchange_rs::order::{Order, OrderType, Side};
use exchange_rs::orderbook::OrderBook;

#[test]
fn test_message_type_codes_read_back() {
    let all = [
        MessageType::Heartbeat,
        MessageType::Logon,
        MessageType::NewOrderSingle,
        MessageType::ExecutionReport,
        MessageType::OrderCancelRequest,
        MessageType::MarketDataSnapshotFullRefresh,
        MessageType::BusinessMessageReject,
        MessageType::ListStrikePrice,
    ];
    for t in all {
        assert_eq!(MessageType::from_str(t.as_str()), Some(t));
    }
    assert_eq!(MessageType::from_str("~"), None);
    assert_eq!(MessageType::from_str("AB"), None);
}

#[test]
fn test_codes_read_back() {
    for s in [FixSide::Buy, FixSide::Sell] {
        assert_eq!(FixSide::from_char(s.to_char()), Some(s));
    }
    for t in [OrdType::Market, OrdType::Limit, OrdType::Stop, OrdType::StopLimit] {
        assert_eq!(OrdType::from_char(t.to_char()), Some(t));
    }
    for t in [
        FixTimeInForce::Day,
        FixTimeInForce::GoodTillCancel,
        FixTimeInForce::ImmediateOrCancel,
        FixTimeInForce::FillOrKill,
    ] {
        assert_eq!(FixTimeInForce::from_char(t.to_char()), Some(t));
    }
    for t in [ExecType::New, ExecType::PartialFill, ExecType::Fill, ExecType::Canceled, ExecType::Trade] {
        assert_eq!(ExecType::from_char(t.to_char()), Some(t));
    }
    for t in [OrdStatus::New, OrdStatus::PartiallyFilled, OrdStatus::Filled, OrdStatus::Rejected] {
        assert_eq!(OrdStatus::from_char(t.to_char()), Some(t));
    }
}

#[test]
fn test_opposite_twice_is_same_side() {
    for s in [Side::Buy, Side::Sell] {
        assert_eq!(s.opposite().opposite(), s);
        assert_ne!(s.opposite(), s);
    }
}

#[test]
fn test_best_prices_are_extremes() {
    let mut book = OrderBook::new("TEST");
    for (i, p) in [95u64, 100, 97].iter().enumerate() {
        let mut o = Order::new("TEST".to_string(), Side::Buy, OrderType::Limit, *p, 10, 1);
        o.id = i as u64 + 1;
        book.add_order(o).unwrap();
    }
    for (i, p) in [120u64, 110, 115].iter().enumerate() {
        let mut o = Order::new("TEST".to_string(), Side::Sell, OrderType::Limit, *p, 10, 1);
        o.id = i as u64 + 10;
        book.add_order(o).unwrap();
    }
    assert_eq!(book.get_best_bid_price(), Some(100));
    assert_eq!(book.get_best_ask_price(), Some(110));
}

#[test]
fn test_added_order_can_be_removed() {
    let mut book = OrderBook::new("TEST");
    let mut o = Order::new("TEST".to_string(), Side::Sell, OrderType::Limit, 105, 7, 3);
    o.id = 42;
    book.add_order(o).unwrap();
    let removed = book.remove_order(42).unwrap();
    assert_eq!(removed.id, 42);
    assert_eq!(removed.quantity, 7);
    assert!(book.get_best_ask_price().is_none());
    assert!(book.remove_order(42).is_none());
}

fn new_order(cl_ord_id: &str) -> NewOrderSingle {
    NewOrderSingle {
        header: StandardHeader {
            begin_string: "FIX.4.4".to_string(),
            body_length: 100,
            msg_type: MessageType::NewOrderSingle,
            sender_comp_id: "CLIENT1".to_string(),
            target_comp_id: "EXCHANGE".to_string(),
            msg_seq_num: 1,
            sending_time: "20240101-12:00:00".to_string(),
            poss_dup_flag: None,
            poss_resend: None,
            secure_data_len: None,
            secure_data: None,
        },
        cl_ord_id: cl_ord_id.to_string(),
        account: None,
        handl_inst: '1',
        symbol: "AAPL".to_string(),
        side: '1',
        transact_time: "20240101-12:00:00".to_string(),
        order_qty: 100,
        ord_type: '2',
        price: Some(FixDecimal { mantissa: 1505, scale: 1 }),
        stop_px: None,
        time_in_force: Some('1'),
        exec_inst: None,
        trailer: Trailer { checksum: 0 },
    }
}

#[test]
fn test_resent_order_is_duplicate() {
    let mut validator = BusinessValidator::new();
    let order = new_order("ORD-1");
    assert!(validator.validate_new_order(&order).is_ok());
    match validator.validate_new_order(&order) {
        Err(BusinessError::DuplicateClOrdId { cl_ord_id }) => assert_eq!(cl_ord_id, "ORD-1"),
        other => panic!("expected a duplicate, got {:?}", other),
    }
    assert!(validator.validate_new_order(&new_order("ORD-2")).is_ok());
}

#[test]
fn test_framed_message_passes_checksum() {
    let parser = RawParser::new();
    let body = b"8=FIX.4.4\x019=5\x0135=0\x0149=A\x0156=B\x01".to_vec();
    let sum = parser.calculate_checksum(&body);
    let mut message = body.clone();
    message.extend_from_slice(format!("10={:03}\x01", sum).as_bytes());
    assert!(parser.validate_checksum(&message).is_ok());
    let mut wrong = body;
    wrong.extend_from_slice(format!("10={:03}\x01", sum.wrapping_add(1)).as_bytes());
    assert!(parser.validate_checksum(&wrong).is_err());
}

#[test]
fn test_field_rules_report_values() {
    let v = FieldValidator::new();
    match v.validate_field(9, &FieldValue::String("abc".to_string())) {
        Err(ValidationError::InvalidFieldValue { tag, value }) => {
            assert_eq!(tag, 9);
            assert_eq!(value, "String(\"abc\")");
        }
        other => panic!("unexpected {:?}", other),
    }
    match v.validate_field(9, &FieldValue::Int(0)) {
        Err(ValidationError::InvalidFieldValue { tag, value }) => {
            assert_eq!(tag, 9);
            assert_eq!(value, "0");
        }
        other => panic!("unexpected {:?}", other),
    }
    assert!(v.validate_field(35, &FieldValue::String("D".to_string())).is_ok());
    assert!(v.validate_field(35, &FieldValue::String("!".to_string())).is_err());
    assert!(v.validate_field(55, &FieldValue::String("BRK.B".to_string())).is_ok());
    assert!(v.validate_field(55, &FieldValue::String("BRK B".to_string())).is_err());
    assert!(v.validate_field(1234, &FieldValue::Int(-5)).is_ok());
}

#[test]
fn test_fired_stop_orders_rest_as_plain_orders() {
    let mut book = OrderBook::new("STOPS");
    let mut bid = Order::new("STOPS".to_string(), Side::Buy, OrderType::Limit, 98, 10, 1);
    bid.id = 1;
    book.add_order(bid).unwrap();
    let mut stop_market = Order::new("STOPS".to_string(), Side::Sell, OrderType::StopMarket, 0, 5, 2);
    stop_market.id = 2;
    stop_market.stop_price = Some(100);
    book.add_stop_order(stop_market).unwrap();
    let mut stop_limit = Order::new("STOPS".to_string(), Side::Buy, OrderType::StopLimit, 97, 5, 3);
    stop_limit.id = 3;
    stop_limit.stop_price = Some(120);
    book.add_stop_order(stop_limit).unwrap();

    book.update_last_trade_price(100).unwrap();

    assert_eq!(book.last_trade_price, Some(100));
    let fired = book.get_order(2).unwrap();
    assert_eq!(fired.order_type, OrderType::Market);
    assert_eq!(fired.price, 98);
    assert!(book.get_order(3).is_none());
    assert!(book.stop_order_book.order_map.get(&2).is_none());
    assert!(book.stop_order_book.order_map.get(&3).is_some());
    assert_eq!(book.get_best_bid_price(), Some(98));
    assert_eq!(book.get_best_ask_price(), Some(98));

    book.update_last_trade_price(125).unwrap();
    let limit = book.get_order(3).unwrap();
    assert_eq!(limit.order_type, OrderType::Limit);
    assert_eq!(limit.price, 97);
    assert!(book.stop_order_book.order_map.is_empty());
}

#[test]
fn test_remove_after_add_restores_book() {
    let mut book = OrderBook::new("RESTORE");
    let mut resting = Order::new("RESTORE".to_string(), Side::Sell, OrderType::Limit, 101, 7, 1);
    resting.id = 10;
    book.add_order(resting).unwrap();
    let volume_before = book.sell_levels[0].total_volume;
    let mut order = Order::new("RESTORE".to_string(), Side::Sell, OrderType::Limit, 101, 4, 2);
    order.id = 11;
    book.add_order(order.clone()).unwrap();
    let removed = book.remove_order(11).unwrap();
    assert_eq!(removed.id, 11);
    assert_eq!(removed.quantity, 4);
    assert_eq!(book.sell_levels.len(), 1);
    assert_eq!(book.sell_levels[0].orders.len(), 1);
    assert_eq!(book.sell_levels[0].orders[0].id, 10);
    assert_eq!(book.sell_levels[0].total_volume, volume_before);
    assert!(book.get_order(11).is_none());

    let mut lone = Order::new("RESTORE".to_string(), Side::Buy, OrderType::Limit, 90, 3, 3);
    lone.id = 12;
    book.add_order(lone).unwrap();
    assert!(book.remove_order(12).is_some());
    assert!(book.buy_levels.is_empty());
    assert_eq!(book.get_best_bid_price(), None);
}

#[test]
fn test_field_value_debug_texts() {
    assert_eq!(debug_text(&FieldValue::Int(-5)), "Int(-5)");
    assert_eq!(debug_text(&FieldValue::Bool(true)), "Bool(true)");
    assert_eq!(debug_text(&FieldValue::Char('1')), "Char('1')");
    assert_eq!(debug_text(&FieldValue::Char('\'')), "Char('\\'')");
    assert_eq!(debug_text(&FieldValue::String("a\"b\n".to_string())), "String(\"a\\\"b\\n\")");
    assert_eq!(debug_text(&FieldValue::String("x\u{1}".to_string())), "String(\"x\\u{1}\")");
    assert_eq!(debug_text(&FieldValue::Data(vec![1, 20, 255])), "Data([1, 20, 255])");
    assert_eq!(debug_text(&FieldValue::Data(vec![])), "Data([])");
    assert_eq!(
        debug_text(&FieldValue::Float(FixDecimal { mantissa: 15, scale: 1 })),
        "Float(1.5)"
    );
    assert_eq!(
        debug_text(&FieldValue::UTCTimestamp("20240101-12:00:00".to_string())),
        "UTCTimestamp(\"20240101-12:00:00\")"
    );
}

#[test]
fn test_parsed_fields_write_back_to_the_message() {
    let parser = RawParser::new();
    let message = b"8=FIX.4.4\x0135=D\x0155=AB=C\x01".to_vec();
    let fields = parser.parse(&message).unwrap();
    assert_eq!(fields.len(), 3);
    assert_eq!(fields[2].tag, b"55");
    assert_eq!(fields[2].value, b"AB=C");
    let mut written: Vec<u8> = Vec::new();
    for f in &fields {
        written.extend_from_slice(f.tag);
        written.push(b'=');
        written.extend_from_slice(f.value);
        written.push(1u8);
    }
    assert_eq!(written, message);
    assert!(parser.parse(b"").is_err());
    assert!(parser.parse(b"8=FIX.4.4").is_err());
    assert!(parser.parse(b"8=FIX.4.4\x01junk").is_err());
}

#[test]
fn test_required_fields_are_allowed() {
    let v = MessageValidator::new();
    let types = [
        MessageType::NewOrderSingle,
        MessageType::ExecutionReport,
        MessageType::OrderCancelRequest,
        MessageType::Heartbeat,
        MessageType::Logon,
        MessageType::Reject,
    ];
    for t in types.iter() {
        for tag in v.get_required_fields(t) {
            assert!(v.validate_field_presence(t, tag).is_ok());
        }
    }
    assert!(v.validate_field_presence(&MessageType::Heartbeat, 11).is_err());
}

#[test]
fn test_latency_average_is_sum_over_count() {
    let mut m = exchange_rs::metrics::LatencyMetrics::new();
    let empty = m.get_metrics();
    assert_eq!(empty.avg_order_processing_time, 0);
    assert_eq!(empty.order_processing_count, 0);
    m.record_order_processing_time(std::time::Duration::from_nanos(10));
    m.record_order_processing_time(std::time::Duration::from_nanos(20));
    m.record_order_processing_time(std::time::Duration::from_nanos(31));
    m.record_matching_time(std::time::Duration::from_micros(2));
    let s = m.get_metrics();
    assert_eq!(s.order_processing_count, 3);
    assert_eq!(s.avg_order_processing_time, 20);
    assert_eq!(s.matching_count, 1);
    assert_eq!(s.avg_matching_time, 2000);
}
