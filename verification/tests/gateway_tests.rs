use exchange_rs::fix::bridge::FixOrderBridge;
use exchange_rs::fix::error::{BusinessError, FixError, ParseError, SessionError};
use exchange_rs::fix::parser::FixParser;
use exchange_rs::fix_gateway::{create_reject_message, find_message_boundary, process_fix_message};
use exchange_rs::matching_engine::{MatchingEngine, MatchingError};

#[test]
fn test_message_boundary_found_after_checksum_field() {
    let data = b"8=FIX.4.4\x019=5\x0135=0\x0110=123\x018=FIX";
    let end = find_message_boundary(data).unwrap();
    assert_eq!(data[end], 0x01);
    assert_eq!(&data[end - 6..end - 3], b"10=");
    assert_eq!(end, 25);
}

#[test]
fn test_message_boundary_absent() {
    assert_eq!(find_message_boundary(b"8=FIX.4.4\x019=5\x01"), None);
    assert_eq!(find_message_boundary(b"10=12"), None);
    assert_eq!(find_message_boundary(b""), None);
}

#[test]
fn test_reject_message_carries_text() {
    let bytes = create_reject_message("Invalid message format");
    let text = String::from_utf8(bytes).unwrap();
    assert!(text.starts_with("8=FIX.4.4\x019=100\x0135=3\x01"));
    assert!(text.contains("\x0158=Invalid message format\x0110=123\x01"));
}

#[test]
fn test_gateway_rejects_bad_checksum() {
    let mut parser = FixParser::new();
    let mut bridge = FixOrderBridge::new();
    let mut engine = MatchingEngine::new();
    let mut counter = 1u64;
    let data = b"8=FIX.4.4\x019=40\x0135=D\x0149=SENDER\x0156=TARGET\x0110=000\x01";
    let r = process_fix_message(&mut parser, &mut bridge, data, &mut engine, &mut counter);
    assert!(matches!(r, Err(FixError::Parse(ParseError::InvalidChecksum { .. }))));
    assert_eq!(counter, 1);
}

#[test]
fn test_matching_errors_are_reported() {
    match FixError::from(MatchingError::SymbolNotFound) {
        FixError::Business(BusinessError::InvalidSymbol { symbol }) => assert_eq!(symbol, "Unknown"),
        _ => panic!("wrong report"),
    }
    assert!(matches!(
        FixError::from(MatchingError::NoLiquidity),
        FixError::Business(BusinessError::InvalidQuantity { quantity: 0 })
    ));
    assert!(matches!(
        FixError::from(MatchingError::InternalError("x".to_string())),
        FixError::Session(SessionError::InvalidSessionState)
    ));
}
