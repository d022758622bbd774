use exchange_rs::fix::bridge::FixOrderConverter;
use exchange_rs::fix::decimal::FixDecimal;
use exchange_rs::fix::error::{FixError, ParseError, SessionError};
use exchange_rs::fix::messages::{FixMessage, Heartbeat, MessageType, NewOrderSingle, StandardHeader, Trailer};
use exchange_rs::fix::session::{FixSession, MessageStore, SessionStatus};
use exchange_rs::order::{OrderType, Side, TimeInForce};

fn header(sender: &str, seq: u32) -> StandardHeader {
    StandardHeader {
        begin_string: "FIX.4.4".to_string(),
        body_length: 100,
        msg_type: MessageType::NewOrderSingle,
        sender_comp_id: sender.to_string(),
        target_comp_id: "EXCHANGE".to_string(),
        msg_seq_num: seq,
        sending_time: "20240101-12:00:00".to_string(),
        poss_dup_flag: None,
        poss_resend: None,
        secure_data_len: None,
        secure_data: None,
    }
}

#[test]
fn test_convert_limit_buy_order() {
    let converter = FixOrderConverter::new();

    let header = header("CLIENT123", 1);
    let trailer = Trailer { checksum: 123 };

    let fix_order = NewOrderSingle {
        header,
        cl_ord_id: "ORDER123".to_string(),
        account: None,
        handl_inst: '1',
        symbol: "AAPL".to_string(),
        side: '1',
        transact_time: "20240101-12:00:00".to_string(),
        order_qty: 100,
        ord_type: '2',
        price: Some(FixDecimal { mantissa: 15050, scale: 2 }),
        stop_px: None,
        time_in_force: Some('1'),
        exec_inst: None,
        trailer,
    };

    let order = converter.convert_new_order_single(fix_order).unwrap();

    assert_eq!(order.symbol, "AAPL");
    assert_eq!(order.side, Side::Buy);
    assert_eq!(order.order_type, OrderType::Limit);
    assert_eq!(order.quantity, 100);
    assert_eq!(order.price, 1505000);
    assert_eq!(order.time_in_force, TimeInForce::GTC);
    assert_eq!(order.stop_price, None);
}

#[test]
fn test_convert_stop_limit_sell_order() {
    let converter = FixOrderConverter::new();

    let header = header("CLIENT456", 2);
    let trailer = Trailer { checksum: 124 };

    let fix_order = NewOrderSingle {
        header,
        cl_ord_id: "ORDER456".to_string(),
        account: None,
        handl_inst: '1',
        symbol: "TSLA".to_string(),
        side: '2',
        transact_time: "20240101-12:00:00".to_string(),
        order_qty: 50,
        ord_type: '4',
        price: Some(FixDecimal { mantissa: 20000, scale: 2 }),
        stop_px: Some(FixDecimal { mantissa: 19500, scale: 2 }),
        time_in_force: Some('4'),
        exec_inst: None,
        trailer,
    };

    let order = converter.convert_new_order_single(fix_order).unwrap();

    assert_eq!(order.symbol, "TSLA");
    assert_eq!(order.side, Side::Sell);
    assert_eq!(order.order_type, OrderType::StopLimit);
    assert_eq!(order.quantity, 50);
    assert_eq!(order.price, 2000000);
    assert_eq!(order.stop_price, Some(1950000));
    assert_eq!(order.time_in_force, TimeInForce::FOK);
}

fn heartbeat(seq: u32) -> FixMessage {
    let mut h = header("CLIENT", seq);
    h.msg_type = MessageType::Heartbeat;
    FixMessage::Heartbeat(Heartbeat { header: h, test_req_id: None, trailer: Trailer { checksum: 0 } })
}

fn seq_of(m: &FixMessage) -> u32 {
    match m {
        FixMessage::Heartbeat(h) => h.header.msg_seq_num,
        _ => 0,
    }
}

#[test]
fn test_message_store_keeps_by_sequence_number() {
    let mut store = MessageStore::new();
    for seq in [3, 1, 2] {
        store.store_outgoing_message(&heartbeat(seq)).unwrap();
    }
    store.store_incoming_message(&heartbeat(9)).unwrap();
    assert_eq!(seq_of(store.get_outgoing_message(2).unwrap()), 2);
    assert!(store.get_outgoing_message(9).is_none());
    assert_eq!(seq_of(store.get_incoming_message(9).unwrap()), 9);
    let range = store.get_outgoing_messages_from(2, 5);
    assert_eq!(range.iter().map(|m| seq_of(m)).collect::<Vec<_>>(), vec![2, 3]);
    assert!(store.get_outgoing_messages_from(5, 2).is_empty());
}

#[test]
fn test_message_store_clear_keeps_newest() {
    let mut store = MessageStore::new();
    for seq in [5, 1, 4, 2, 3] {
        store.store_outgoing_message(&heartbeat(seq)).unwrap();
        store.store_incoming_message(&heartbeat(seq + 10)).unwrap();
    }
    store.clear_old_messages(2);
    assert!(store.get_outgoing_message(3).is_none());
    assert!(store.get_outgoing_message(4).is_some());
    assert!(store.get_outgoing_message(5).is_some());
    assert_eq!(store.get_outgoing_messages_from(0, 100).len(), 2);
    assert!(store.get_incoming_message(13).is_none());
    assert!(store.get_incoming_message(14).is_some());
    store.clear_old_messages(10);
    assert_eq!(store.get_outgoing_messages_from(0, 100).len(), 2);
    store.clear_old_messages(0);
    assert!(store.get_outgoing_messages_from(0, 100).is_empty());
}

const LOGON: &[u8] = b"8=FIX.4.4\x019=70\x0135=A\x0149=CLIENT\x0156=EXCHANGE\x0134=1\x0152=20240101-12:00:00\x0198=0\x01108=45\x0110=036\x01";

fn with_checksum(body: &[u8]) -> Vec<u8> {
    let sum: u32 = body.iter().map(|b| *b as u32).sum();
    let mut v = body.to_vec();
    v.extend_from_slice(format!("10={:03}\x01", sum % 256).as_bytes());
    v
}

#[test]
fn test_session_starts_disconnected() {
    let session = FixSession::new("EXCHANGE".to_string(), "CLIENT".to_string());
    assert_eq!(session.get_session_status(), SessionStatus::Disconnected);
    assert_eq!(session.get_outgoing_seq_num(), 1);
    assert_eq!(session.get_incoming_seq_num(), 1);
    let logon = session.create_logon().unwrap();
    assert_eq!(logon.heart_bt_int, 30);
    assert_eq!(logon.encrypt_method, '0');
    assert_eq!(logon.header.msg_type, MessageType::Logon);
    assert_eq!(logon.header.sender_comp_id, "EXCHANGE");
    let hb = session.create_heartbeat(Some("T1".to_string())).unwrap();
    assert_eq!(hb.header.msg_seq_num, 1);
    assert_eq!(hb.test_req_id, Some("T1".to_string()));
}

#[test]
fn test_session_rejects_bad_checksum() {
    let mut session = FixSession::new("EXCHANGE".to_string(), "CLIENT".to_string());
    let data = b"8=FIX.4.4\x019=40\x0135=0\x0149=A\x0156=B\x0110=000\x01";
    let r = session.process_incoming_message(data);
    assert!(matches!(r, Err(FixError::Parse(ParseError::InvalidChecksum { .. }))));
    assert_eq!(session.get_incoming_seq_num(), 1);
}

#[test]
fn test_session_heartbeat_timing() {
    let session = FixSession::new("EXCHANGE".to_string(), "CLIENT".to_string());
    assert!(!session.heartbeat_due(29_999_999_999));
    assert!(session.heartbeat_due(30_000_000_000));
    assert!(session.check_heartbeat_timeout(60_000_000_000).is_ok());
    assert!(matches!(session.check_heartbeat_timeout(60_000_000_001), Err(SessionError::HeartbeatTimeout)));
}

#[test]
fn test_session_records_sent_messages() {
    let mut session = FixSession::new("EXCHANGE".to_string(), "CLIENT".to_string());
    let logon = session.create_logon().unwrap();
    let message = FixMessage::Logon(logon);
    assert!(session.serialize_message(&message).unwrap().is_empty());
    session.message_sent(&message).unwrap();
    session.set_session_status(SessionStatus::LoggedOn);
    assert_eq!(session.get_outgoing_seq_num(), 2);
    assert_eq!(session.get_session_status(), SessionStatus::LoggedOn);
    let hb = session.create_heartbeat(None).unwrap();
    assert_eq!(hb.header.msg_seq_num, 2);
}

#[test]
fn test_session_parse_failure_leaves_state() {
    let mut session = FixSession::new("EXCHANGE".to_string(), "CLIENT".to_string());
    let data = with_checksum(&LOGON[..LOGON.len() - 7]);
    assert_eq!(data, LOGON.to_vec());
    let r = session.process_incoming_message(&data);
    assert!(r.is_err());
    assert_eq!(session.get_incoming_seq_num(), 1);
    assert_eq!(session.get_session_status(), SessionStatus::Disconnected);
}
