use exchange_rs::fix::decimal::FixDecimal;
use exchange_rs::fix::error::{FixError, ParseError, ValidationError};
use exchange_rs::fix::messages::{FixMessage, MessageType};
use exchange_rs::fix::parser::advanced_parser::AdvancedFixParser;
use exchange_rs::fix::parser::error_recovery::{ErrorRecovery, RecoveringParser};
use exchange_rs::fix::parser::field_parser::{FieldParser, FieldValue};
use exchange_rs::fix::parser::group_parser::GroupParser;
use exchange_rs::fix::parser::raw_parser::{RawField, RawParser};
use exchange_rs::fix::parser::FixParser;
use exchange_rs::fix::parser::field_parser::FixField;
use exchange_rs::fix::parser::MessageBuilder;
use std::collections::HashMap;

#[test]
fn test_parse_simple_message() {
    let parser = RawParser::new();
    let data = b"8=FIX.4.4\x019=40\x0135=D\x0149=SENDER\x0156=TARGET\x0110=161\x01";
    let fields = parser.parse(data).unwrap();
    assert_eq!(fields.len(), 6);
    assert_eq!(fields[0].tag, b"8");
    assert_eq!(fields[0].value, b"FIX.4.4");
    assert_eq!(fields[1].tag, b"9");
    assert_eq!(fields[1].value, b"40");
}

#[test]
fn test_checksum_validation() {
    let parser = RawParser::new();
    let data = b"8=FIX.4.4\x019=40\x0135=D\x0149=SENDER\x0156=TARGET\x0110=194\x01";
    assert!(parser.validate_checksum(data).is_ok());
}

#[test]
fn test_checksum_mismatch_reports_both_values() {
    let parser = RawParser::new();
    let data = b"8=FIX.4.4\x019=40\x0135=D\x0149=SENDER\x0156=TARGET\x0110=161\x01";
    match parser.validate_checksum(data) {
        Err(ParseError::InvalidChecksum { expected, actual }) => {
            assert_eq!(expected, 161);
            assert_eq!(actual, 194);
        }
        other => panic!("unexpected {:?}", other),
    }
}

#[test]
fn test_checksum_short_message_is_malformed() {
    let parser = RawParser::new();
    assert!(matches!(parser.validate_checksum(b"8=F\x01"), Err(ParseError::InvalidFormat)));
}

#[test]
fn test_raw_parse_errors() {
    let parser = RawParser::new();
    assert!(matches!(parser.parse(b""), Err(ParseError::InvalidFormat)));
    assert!(matches!(parser.parse(b"8FIX"), Err(ParseError::InvalidFormat)));
    assert!(matches!(parser.parse(b"8=FIX"), Err(ParseError::MissingSoh)));
}

#[test]
fn test_body_length() {
    let parser = RawParser::new();
    // Body between the two leading fields and the seven-byte trailer.
    let body = b"35=0\x01";
    let mut data = b"8=FIX.4.4\x019=5\x01".to_vec();
    data.extend_from_slice(body);
    data.extend_from_slice(b"10=000\x01");
    assert!(parser.validate_body_length(&data).is_ok());
    let mut wrong = b"8=FIX.4.4\x019=7\x01".to_vec();
    wrong.extend_from_slice(body);
    wrong.extend_from_slice(b"10=000\x01");
    match parser.validate_body_length(&wrong) {
        Err(ParseError::InvalidBodyLength { expected, actual }) => {
            assert_eq!(expected, 7);
            assert_eq!(actual, 5);
        }
        other => panic!("unexpected {:?}", other),
    }
}

#[test]
fn test_parse_string_field() {
    let parser = FieldParser::new();
    let raw_field = RawField { tag: b"8", value: b"FIX.4.4" };
    let field = parser.parse_field(raw_field).unwrap();
    assert_eq!(field.tag, 8);
    assert_eq!(field.as_string(), Some("FIX.4.4"));
}

#[test]
fn test_parse_int_field() {
    let parser = FieldParser::new();
    let raw_field = RawField { tag: b"9", value: b"178" };
    let field = parser.parse_field(raw_field).unwrap();
    assert_eq!(field.tag, 9);
    assert_eq!(field.as_int(), Some(178));
}

#[test]
fn test_parse_float_field() {
    let parser = FieldParser::new();
    let raw_field = RawField { tag: b"44", value: b"15.75" };
    let field = parser.parse_field(raw_field).unwrap();
    assert_eq!(field.tag, 44);
    let d = field.as_float().unwrap();
    assert_eq!(d, FixDecimal { mantissa: 1575, scale: 2 });
    assert_eq!(d.mantissa as f64 / 100.0, 15.75);
}

#[test]
fn test_parse_field_kinds_and_errors() {
    let parser = FieldParser::new();
    let f = parser.parse_field(RawField { tag: b"43", value: b"Y" }).unwrap();
    assert_eq!(f.as_bool(), Some(true));
    let f = parser.parse_field(RawField { tag: b"54", value: b"1" }).unwrap();
    assert_eq!(f.as_char(), Some('1'));
    let f = parser.parse_field(RawField { tag: b"91", value: b"\x00\x01" }).unwrap();
    assert_eq!(f.as_data(), Some(&b"\x00\x01"[..]));
    let f = parser.parse_field(RawField { tag: b"52", value: b"20240101-12:30:45.123" }).unwrap();
    assert_eq!(f.as_utc_timestamp(), Some("20240101-12:30:45.123"));
    let f = parser.parse_field(RawField { tag: b"64", value: b"20240229" }).unwrap();
    assert_eq!(f.as_utc_date_only(), Some("20240229"));
    let f = parser.parse_field(RawField { tag: b"271", value: b"23:59:59" }).unwrap();
    assert_eq!(f.as_utc_time_only(), Some("23:59:59"));
    assert!(matches!(parser.parse_field(RawField { tag: b"x", value: b"1" }), Err(ParseError::InvalidTag { .. })));
    match parser.parse_field(RawField { tag: b"9", value: b"12a" }) {
        Err(ParseError::InvalidFieldValue { tag, value }) => {
            assert_eq!(tag, 9);
            assert_eq!(value, "12a");
        }
        other => panic!("unexpected {:?}", other),
    }
    assert!(parser.parse_field(RawField { tag: b"43", value: b"X" }).is_err());
    assert!(parser.parse_field(RawField { tag: b"54", value: b"12" }).is_err());
    assert!(parser.parse_field(RawField { tag: b"52", value: b"20241301-12:30:45" }).is_err());
    assert!(parser.parse_field(RawField { tag: b"52", value: b"20240101-24:30:45" }).is_err());
    assert!(parser.parse_field(RawField { tag: b"271", value: b"12:30:45.1234" }).is_err());
    assert!(parser.parse_field(RawField { tag: b"44", value: b"1.2.3" }).is_err());
    let f = parser.parse_field(RawField { tag: b"44", value: b"-0.5" }).unwrap();
    assert_eq!(f.as_float(), Some(FixDecimal { mantissa: -5, scale: 1 }));
    let f = parser.parse_field(RawField { tag: b"34", value: b"-9223372036854775808" }).unwrap();
    assert_eq!(f.as_int(), Some(i64::MIN));
    assert!(parser.parse_field(RawField { tag: b"34", value: b"9223372036854775808" }).is_err());
}

#[test]
fn test_parse_simple_repeating_group() {
    let group_parser = GroupParser::new();
    let raw_parser = RawParser::new();
    let data = b"8=FIX.4.4\x019=50\x01453=2\x01448=PARTY1\x01447=D\x01448=PARTY2\x01447=D\x0110=123\x01";
    let raw_fields = raw_parser.parse(data).unwrap();
    let group = group_parser.parse_repeating_group(&raw_fields, 453, 448, &[448, 447]).unwrap();
    assert!(group.is_some());
    let group = group.unwrap();
    assert_eq!(group.count, 2);
    assert_eq!(group.instances.len(), 2);
    assert_eq!(group.instances[1].get(&448).unwrap().as_string(), Some("PARTY2"));
}

#[test]
fn test_group_missing_delimiter_and_absent_count() {
    let group_parser = GroupParser::new();
    let raw_parser = RawParser::new();
    let data = b"453=3\x01448=A\x01448=B\x01";
    let raw_fields = raw_parser.parse(data).unwrap();
    assert!(matches!(
        group_parser.parse_repeating_group(&raw_fields, 453, 448, &[448]),
        Err(FixError::Parse(ParseError::InvalidFormat))
    ));
    assert!(group_parser.parse_repeating_group(&raw_fields, 268, 269, &[269]).unwrap().is_none());
    let zero = raw_parser.parse(b"453=0\x01").unwrap();
    let g = group_parser.parse_repeating_group(&zero, 453, 448, &[448]).unwrap().unwrap();
    assert_eq!(g.count, 0);
    assert!(g.instances.is_empty());
}

fn heartbeat_fields() -> Vec<(u32, FieldValue)> {
    vec![
        (8, FieldValue::String("FIX.4.4".to_string())),
        (9, FieldValue::Int(40)),
        (35, FieldValue::String("0".to_string())),
        (49, FieldValue::String("SENDER".to_string())),
        (56, FieldValue::String("TARGET".to_string())),
        (34, FieldValue::Int(7)),
        (52, FieldValue::String("20240101-12:00:00".to_string())),
        (10, FieldValue::Int(12)),
    ]
}

#[test]
fn test_message_builder_heartbeat() {
    let mut fields = HashMap::new();
    for (tag, value) in heartbeat_fields() {
        fields.insert(tag, FixField { tag, value });
    }
    let builder = MessageBuilder::new();
    match builder.build_message(fields.clone()).unwrap() {
        FixMessage::Heartbeat(h) => {
            assert_eq!(h.header.msg_seq_num, 7);
            assert_eq!(h.header.msg_type, MessageType::Heartbeat);
            assert_eq!(h.trailer.checksum, 12);
        }
        other => panic!("unexpected {:?}", other),
    }
    fields.insert(34, FixField { tag: 34, value: FieldValue::Int(0) });
    assert!(matches!(
        builder.build_message(fields.clone()),
        Err(FixError::Validation(ValidationError::MissingRequiredField { tag: 34 }))
    ));
    fields.remove(&35);
    assert!(matches!(
        builder.build_message(fields),
        Err(FixError::Validation(ValidationError::MissingRequiredField { tag: 35 }))
    ));
}

#[test]
fn test_full_parse_reports_sending_time_kind() {
    // Tag 52 is typed as a timestamp, which the header does not read as text.
    let mut parser = FixParser::new();
    let data = b"8=FIX.4.4\x019=40\x0135=0\x0149=S\x0156=T\x0134=1\x0152=20240101-12:00:00\x0110=000\x01";
    assert!(matches!(
        parser.parse(data),
        Err(FixError::Validation(ValidationError::MissingRequiredField { tag: 52 }))
    ));
}

#[test]
fn test_advanced_parser_creation() {
    let parser = AdvancedFixParser::new().with_performance_mode(true).with_strict_validation(false);
    let stats = parser.get_performance_stats();
    assert!(stats.performance_mode_enabled);
    assert!(!stats.strict_validation_enabled);
    assert_eq!(stats.supported_versions, vec!["FIX.4.2".to_string(), "FIX.4.4".to_string(), "FIX.5.0".to_string()]);
}

#[test]
fn test_quick_validate() {
    let parser = AdvancedFixParser::new().with_performance_mode(true);
    let valid_msg = b"8=FIX.4.4\x019=50\x0135=D\x0149=SENDER\x0156=TARGET\x0110=161\x01";
    assert!(parser.quick_validate(valid_msg).is_ok());
    let invalid_msg = b"invalid message";
    assert!(parser.quick_validate(invalid_msg).is_err());
}

#[test]
fn test_quick_validate_errors() {
    let parser = AdvancedFixParser::new();
    assert!(matches!(
        parser.quick_validate(b"8=FIX.4.4\x019=50\x0135=D\x0149=SENDER10=161"),
        Err(FixError::Parse(ParseError::MissingSoh))
    ));
    assert!(matches!(
        parser.quick_validate(b"9=FIX.4.4\x019=50\x0135=D\x0149=SENDER\x01"),
        Err(FixError::Parse(ParseError::InvalidFormat))
    ));
    assert!(matches!(
        parser.quick_validate(b"8=FIX.4.4\x019=50\x0135=D\x0110=1\x01"),
        Err(FixError::Parse(ParseError::InvalidFormat))
    ));
}

#[test]
fn test_recovery_config() {
    let config = ErrorRecovery::default();
    assert!(config.allow_partial_parse);
    assert!(config.skip_invalid_fields);
    assert_eq!(config.max_recovery_attempts, 3);
}

#[test]
fn test_recovering_parser_creation() {
    let config = ErrorRecovery::default();
    let parser = RecoveringParser::new(config);
    assert_eq!(parser.recovery_config.max_recovery_attempts, 3);
}

#[test]
fn test_recovery_after_failed_parse() {
    let mut parser = RecoveringParser::new(ErrorRecovery::default());
    let result = parser.parse_with_recovery(b"8=FIX.4.4");
    assert_eq!(result.errors.len(), 1);
    assert!(matches!(result.errors[0], FixError::Parse(ParseError::MissingSoh)));
    assert!(result.message.is_none());
    assert_eq!(result.recovery_attempts, 0);
    assert_eq!(result.warnings[0], "Attempting to reconstruct SOH delimiters");

    let mut strict = RecoveringParser::new(ErrorRecovery {
        allow_partial_parse: false,
        skip_invalid_fields: true,
        max_recovery_attempts: 3,
        recover_from_checksum_errors: false,
    });
    let result = strict.parse_with_recovery(b"8=FIX.4.4");
    assert_eq!(result.errors.len(), 1);
    assert!(result.warnings.is_empty());
}

#[test]
fn test_parse_error_texts() {
    assert_eq!(ParseError::InvalidFormat.to_text(), "Invalid message format");
    assert_eq!(
        ParseError::InvalidChecksum { expected: 12, actual: 200 }.to_text(),
        "Invalid checksum: expected 12, got 200"
    );
    assert_eq!(
        ParseError::InvalidCharacter { position: 3, byte: 0xab }.to_text(),
        "Invalid character at position 3: 0xab"
    );
    assert_eq!(
        ParseError::InvalidFieldValue { tag: 44, value: "x".to_string() }.to_text(),
        "Invalid field value for tag 44: x"
    );
}

#[test]
fn test_fix_parser_checksum_agrees_with_raw_parser() {
    let fix = FixParser::new();
    let raw = RawParser::new();
    let cases: [&[u8]; 4] = [
        b"8=FIX.4.4\x019=40\x0135=D\x0149=SENDER\x0156=TARGET\x0110=194\x01",
        b"8=FIX.4.4\x019=40\x0135=D\x0149=SENDER\x0156=TARGET\x0110=161\x01",
        b"8=F\x01",
        b"8=FIX.4.4\x019=40\x0135=D\x0110=xyz\x01",
    ];
    for data in cases.iter() {
        let a = format!("{:?}", fix.validate_checksum(data));
        let b = format!("{:?}", raw.validate_checksum(data));
        assert_eq!(a, b);
    }
    assert!(fix.validate_checksum(cases[0]).is_ok());
}
