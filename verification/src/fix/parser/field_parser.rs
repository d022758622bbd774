//! Typing the value of one `tag=value` field: which tags carry which kind of
//! value, and how each kind is read from its bytes.

use crate::fix::decimal::{decimal_display, decimal_text_value, decimal_to_string, parse_decimal, FixDecimal};
use crate::fix::error::ParseError;
use crate::fix::parser::raw_parser::RawField;
use crate::text::{
    concat_text, decimal_text, find_byte, find_byte_from, parse_i64, parse_unsigned, push_char,
    push_decimal, signed_i64_text, signed_string, signed_text, string_from_utf8_lossy, text_of,
    unsigned_within,
};
use vstd::prelude::*;
use vstd::utf8::*;

verus! {

/// A field with its tag and typed value.
#[derive(Debug, Clone)]
pub struct FixField {
    pub tag: u32,
    pub value: FieldValue,
}

/// A typed field value. Decimal fields are kept exact.
#[derive(Debug, Clone)]
pub enum FieldValue {
    String(String),
    Int(i64),
    Float(FixDecimal),
    Bool(bool),
    Char(char),
    Data(Vec<u8>),
    UTCTimestamp(String),
    UTCDateOnly(String),
    UTCTimeOnly(String),
}

/// The kind of value that a tag carries.
#[derive(Debug, Clone, Copy, PartialEq, Eq, Structural)]
pub enum FieldType {
    String,
    Int,
    Float,
    Bool,
    Char,
    Data,
    UTCTimestamp,
    UTCDateOnly,
    UTCTimeOnly,
}

pub struct FieldParser;

/// The kind of value of each tag; tags not listed carry text.
pub open spec fn field_type_of(tag: u32) -> FieldType {
    if tag == 8 || tag == 35 || tag == 49 || tag == 56 || tag == 11 || tag == 55 || tag == 1
        || tag == 15 || tag == 22 || tag == 48 || tag == 57 || tag == 142 || tag == 37 || tag
        == 17 || tag == 20 || tag == 39 {
        FieldType::String
    } else if tag == 9 || tag == 34 || tag == 38 || tag == 90 || tag == 95 || tag == 96 || tag
        == 123 || tag == 36 || tag == 151 || tag == 14 || tag == 6 || tag == 16 {
        FieldType::Int
    } else if tag == 44 || tag == 31 || tag == 32 || tag == 99 || tag == 423 || tag == 424 {
        FieldType::Float
    } else if tag == 40 || tag == 54 || tag == 21 || tag == 59 || tag == 18 || tag == 98 || tag
        == 103 || tag == 114 || tag == 139 || tag == 47 {
        FieldType::Char
    } else if tag == 43 || tag == 97 || tag == 141 || tag == 89 {
        FieldType::Bool
    } else if tag == 91 || tag == 212 || tag == 213 {
        FieldType::Data
    } else if tag == 52 || tag == 60 || tag == 122 || tag == 273 {
        FieldType::UTCTimestamp
    } else if tag == 64 || tag == 126 {
        FieldType::UTCDateOnly
    } else if tag == 271 {
        FieldType::UTCTimeOnly
    } else {
        FieldType::String
    }
}

/// `s[a..b]` read as an unsigned integer the way `str::parse::<u32>` reads
/// it.
pub open spec fn u32_at(s: Seq<u8>, a: int, b: int) -> Option<nat> {
    unsigned_within(s.subrange(a, b), u32::MAX as nat)
}

/// `s[a..b]` is an unsigned integer no larger than `max`.
pub open spec fn u32_at_most(s: Seq<u8>, a: int, b: int, max: nat) -> bool {
    u32_at(s, a, b) is Some && u32_at(s, a, b)->0 <= max
}

/// A UTC date `YYYYMMDD`: eight bytes, a year from 1900 to 2100, a month from
/// 1 to 12 and a day from 1 to 31.
pub open spec fn is_utc_date(s: Seq<u8>) -> bool {
    &&& s.len() == 8
    &&& u32_at(s, 0, 4) is Some
    &&& 1900 <= u32_at(s, 0, 4)->0 <= 2100
    &&& u32_at(s, 4, 6) is Some
    &&& 1 <= u32_at(s, 4, 6)->0 <= 12
    &&& u32_at(s, 6, 8) is Some
    &&& 1 <= u32_at(s, 6, 8)->0 <= 31
}

/// The seconds part of a UTC time: seconds up to 59, optionally followed by
/// a `.` and at most three digits of fraction.
pub open spec fn is_utc_seconds(s: Seq<u8>) -> bool {
    let dot = find_byte(s, 46);
    if dot < s.len() {
        &&& u32_at_most(s, 0, dot, 59)
        &&& s.len() - dot - 1 <= 3
        &&& u32_at(s, dot + 1, s.len() as int) is Some
    } else {
        u32_at_most(s, 0, s.len() as int, 59)
    }
}

/// A UTC time `HH:MM:SS[.sss]`: eight to twelve bytes in exactly three parts
/// separated by `:`, hours up to 23 and minutes up to 59.
pub open spec fn is_utc_time(s: Seq<u8>) -> bool {
    let k1 = find_byte(s, 58);
    let rest1 = s.subrange(k1 + 1, s.len() as int);
    let k2 = k1 + 1 + find_byte(rest1, 58);
    let rest2 = s.subrange(k2 + 1, s.len() as int);
    &&& 8 <= s.len() <= 12
    &&& k1 < s.len()
    &&& k2 < s.len()
    &&& find_byte(rest2, 58) == rest2.len()
    &&& u32_at_most(s, 0, k1, 23)
    &&& u32_at_most(s, k1 + 1, k2, 59)
    &&& is_utc_seconds(rest2)
}

/// A UTC timestamp `YYYYMMDD-HH:MM:SS[.sss]`: seventeen to twenty-one bytes,
/// exactly one `-`, a date before it and a time after it.
pub open spec fn is_utc_timestamp(s: Seq<u8>) -> bool {
    let k = find_byte(s, 45);
    let rest = s.subrange(k + 1, s.len() as int);
    &&& 17 <= s.len() <= 21
    &&& k < s.len()
    &&& find_byte(rest, 45) == rest.len()
    &&& is_utc_date(s.subrange(0, k))
    &&& is_utc_time(rest)
}

/// Whether the bytes of a field with this tag are accepted as its value.
pub open spec fn value_accepted(tag: u32, b: Seq<u8>) -> bool {
    valid_utf8(b) && match field_type_of(tag) {
        FieldType::String => true,
        FieldType::Int => signed_i64_text(b) is Some,
        FieldType::Float => decimal_text_value(b) is Some,
        FieldType::Bool => b == seq![89u8] || b == seq![121u8] || b == seq![78u8] || b == seq![
            110u8,
        ],
        FieldType::Char => b.len() == 1,
        FieldType::Data => true,
        FieldType::UTCTimestamp => is_utc_timestamp(b),
        FieldType::UTCDateOnly => is_utc_date(b),
        FieldType::UTCTimeOnly => is_utc_time(b),
    }
}

/// `v` is the value that the bytes `b` give a field with this tag.
pub open spec fn value_matches(tag: u32, b: Seq<u8>, v: FieldValue) -> bool {
    let t = decode_utf8(b);
    match field_type_of(tag) {
        FieldType::String => v matches FieldValue::String(s) && s@ == t,
        FieldType::Int => v == FieldValue::Int(signed_i64_text(b)->0 as i64),
        FieldType::Float => v == FieldValue::Float(decimal_text_value(b)->0),
        FieldType::Bool => v == FieldValue::Bool(b == seq![89u8] || b == seq![121u8]),
        FieldType::Char => v == FieldValue::Char(b[0] as char),
        FieldType::Data => v matches FieldValue::Data(d) && d@ == b,
        FieldType::UTCTimestamp => v matches FieldValue::UTCTimestamp(s) && s@ == t,
        FieldType::UTCDateOnly => v matches FieldValue::UTCDateOnly(s) && s@ == t,
        FieldType::UTCTimeOnly => v matches FieldValue::UTCTimeOnly(s) && s@ == t,
    }
}

/// The tag that the bytes `b` spell, the way `str::parse::<u32>` reads it.
pub open spec fn tag_value(b: Seq<u8>) -> Option<nat> {
    unsigned_within(b, u32::MAX as nat)
}

/// `e` reports the tag bytes `b` as not a tag, with their text.
pub open spec fn is_tag_error(e: ParseError, b: Seq<u8>) -> bool {
    match e {
        ParseError::InvalidTag { tag } => valid_utf8(b) ==> tag@ == decode_utf8(b),
        _ => false,
    }
}

/// `e` reports the value bytes `b` of the field `tag` as not a value of its
/// kind, with their text.
pub open spec fn is_value_error(e: ParseError, tag: u32, b: Seq<u8>) -> bool {
    match e {
        ParseError::InvalidFieldValue { tag: t, value } => t == tag && (valid_utf8(b)
            ==> value@ == decode_utf8(b)),
        _ => false,
    }
}

/// `s[a..b]` read as a `u32`.
fn u32_in(s: &[u8], a: usize, b: usize) -> (r: Option<u32>)
    requires
        a <= b <= s@.len(),
    ensures
        r == (match u32_at(s@, a as int, b as int) {
            Some(v) => Some(v as u32),
            None => None::<u32>,
        }),
{
    match parse_unsigned(&s[a..b], 0xffff_ffffu64) {
        Some(v) => Some(v as u32),
        None => None,
    }
}

impl FieldParser {
    pub fn new() -> (r: Self) {
        FieldParser
    }

    /// Types a raw field: its tag must be a `u32` and its value must fit the
    /// kind of value that the tag carries.
    pub fn parse_field(&self, raw_field: RawField<'_>) -> (r: Result<FixField, ParseError>)
        ensures
            r is Ok <==> tag_value(raw_field.tag@) is Some && value_accepted(
                tag_value(raw_field.tag@)->0 as u32,
                raw_field.value@,
            ),
            r matches Ok(f) ==> f.tag == tag_value(raw_field.tag@)->0 && value_matches(
                f.tag,
                raw_field.value@,
                f.value,
            ),
            r matches Err(e) ==> (if tag_value(raw_field.tag@) is None {
                is_tag_error(e, raw_field.tag@)
            } else {
                is_value_error(e, tag_value(raw_field.tag@)->0 as u32, raw_field.value@)
            }),
    {
        let tag = self.parse_tag(raw_field.tag)?;
        let value = self.parse_value(tag, raw_field.value)?;
        Ok(FixField { tag, value })
    }

    /// Reads a tag number.
    pub fn parse_tag(&self, tag_bytes: &[u8]) -> (r: Result<u32, ParseError>)
        ensures
            r matches Ok(t) ==> tag_value(tag_bytes@) == Some(t as nat),
            r is Err ==> tag_value(tag_bytes@) is None,
            r matches Err(e) ==> is_tag_error(e, tag_bytes@),
    {
        match parse_unsigned(tag_bytes, 0xffff_ffffu64) {
            Some(v) => Ok(v as u32),
            None => Err(ParseError::InvalidTag { tag: string_from_utf8_lossy(tag_bytes) }),
        }
    }

    /// The kind of value that `tag` carries.
    pub fn get_field_type(&self, tag: u32) -> (r: FieldType)
        ensures
            r == field_type_of(tag),
    {
        match tag {
            8 | 35 | 49 | 56 | 11 | 55 | 1 | 15 | 22 | 48 | 57 | 142 | 37 | 17 | 20 | 39 => {
                FieldType::String
            },
            9 | 34 | 38 | 90 | 95 | 96 | 123 | 36 | 151 | 14 | 6 | 16 => FieldType::Int,
            44 | 31 | 32 | 99 | 423 | 424 => FieldType::Float,
            40 | 54 | 21 | 59 | 18 | 98 | 103 | 114 | 139 | 47 => FieldType::Char,
            43 | 97 | 141 | 89 => FieldType::Bool,
            91 | 212 | 213 => FieldType::Data,
            52 | 60 | 122 | 273 => FieldType::UTCTimestamp,
            64 | 126 => FieldType::UTCDateOnly,
            271 => FieldType::UTCTimeOnly,
            _ => FieldType::String,
        }
    }

    /// Reads the value of a field with this tag from its bytes. A decimal
    /// field (a price or a quantity in `Float` form) is read exactly, as FIX
    /// writes decimals: an optional sign and digits with at most one decimal
    /// point (see `decimal_text_value`). Exponents (`1e5`), `inf`, `NaN` and
    /// mantissas beyond 64 bits, which a floating-point read would take, are
    /// refused with `InvalidFieldValue`.
    pub fn parse_value(&self, tag: u32, value_bytes: &[u8]) -> (r: Result<FieldValue, ParseError>)
        ensures
            r is Ok <==> value_accepted(tag, value_bytes@),
            r matches Ok(v) ==> value_matches(tag, value_bytes@, v),
            r matches Err(e) ==> is_value_error(e, tag, value_bytes@),
    {
        let text = match text_of(value_bytes) {
            Some(t) => t,
            None => {
                return Err(
                    ParseError::InvalidFieldValue {
                        tag,
                        value: string_from_utf8_lossy(value_bytes),
                    },
                );
            },
        };
        match self.get_field_type(tag) {
            FieldType::String => Ok(FieldValue::String(text)),
            FieldType::Int => match parse_i64(value_bytes) {
                Some(i) => Ok(FieldValue::Int(i)),
                None => Err(ParseError::InvalidFieldValue { tag, value: text }),
            },
            FieldType::Float => match parse_decimal(value_bytes) {
                Some(d) => Ok(FieldValue::Float(d)),
                None => Err(ParseError::InvalidFieldValue { tag, value: text }),
            },
            FieldType::Bool => {
                if value_bytes.len() == 1 && (value_bytes[0] == 89 || value_bytes[0] == 121) {
                    assert(value_bytes@ == seq![89u8] || value_bytes@ == seq![121u8]);
                    Ok(FieldValue::Bool(true))
                } else if value_bytes.len() == 1 && (value_bytes[0] == 78 || value_bytes[0]
                    == 110) {
                    assert(value_bytes@ == seq![78u8] || value_bytes@ == seq![110u8]);
                    Ok(FieldValue::Bool(false))
                } else {
                    Err(ParseError::InvalidFieldValue { tag, value: text })
                }
            },
            FieldType::Char => {
                if value_bytes.len() != 1 {
                    Err(ParseError::InvalidFieldValue { tag, value: text })
                } else {
                    Ok(FieldValue::Char(value_bytes[0] as char))
                }
            },
            FieldType::Data => Ok(FieldValue::Data(vstd::slice::slice_to_vec(value_bytes))),
            FieldType::UTCTimestamp => {
                if self.validate_utc_timestamp(value_bytes) {
                    Ok(FieldValue::UTCTimestamp(text))
                } else {
                    Err(ParseError::InvalidFieldValue { tag, value: text })
                }
            },
            FieldType::UTCDateOnly => {
                if self.validate_utc_date_only(value_bytes) {
                    Ok(FieldValue::UTCDateOnly(text))
                } else {
                    Err(ParseError::InvalidFieldValue { tag, value: text })
                }
            },
            FieldType::UTCTimeOnly => {
                if self.validate_utc_time_only(value_bytes) {
                    Ok(FieldValue::UTCTimeOnly(text))
                } else {
                    Err(ParseError::InvalidFieldValue { tag, value: text })
                }
            },
        }
    }

    /// Whether `value` is a UTC timestamp `YYYYMMDD-HH:MM:SS[.sss]`.
    pub fn validate_utc_timestamp(&self, value: &[u8]) -> (r: bool)
        ensures
            r == is_utc_timestamp(value@),
    {
        if value.len() < 17 || value.len() > 21 {
            return false;
        }
        let k = find_byte_from(value, 0, 45);
        assert(value@.subrange(0, value@.len() as int) =~= value@);
        if k >= value.len() {
            return false;
        }
        let k2 = find_byte_from(value, k + 1, 45);
        if k2 < value.len() {
            return false;
        }
        if !self.validate_utc_date_only(&value[0..k]) {
            return false;
        }
        self.validate_utc_time_only(&value[k + 1..value.len()])
    }

    /// Whether `value` is a UTC date `YYYYMMDD`.
    pub fn validate_utc_date_only(&self, value: &[u8]) -> (r: bool)
        ensures
            r == is_utc_date(value@),
    {
        if value.len() != 8 {
            return false;
        }
        match u32_in(value, 0, 4) {
            Some(year) => match u32_in(value, 4, 6) {
                Some(month) => match u32_in(value, 6, 8) {
                    Some(day) => 1900 <= year && year <= 2100 && 1 <= month && month <= 12 && 1
                        <= day && day <= 31,
                    None => false,
                },
                None => false,
            },
            None => false,
        }
    }

    /// Whether `value` is a UTC time `HH:MM:SS[.sss]`.
    pub fn validate_utc_time_only(&self, value: &[u8]) -> (r: bool)
        ensures
            r == is_utc_time(value@),
    {
        if value.len() < 8 || value.len() > 12 {
            return false;
        }
        let k1 = find_byte_from(value, 0, 58);
        assert(value@.subrange(0, value@.len() as int) =~= value@);
        if k1 >= value.len() {
            return false;
        }
        let k2 = find_byte_from(value, k1 + 1, 58);
        if k2 >= value.len() {
            return false;
        }
        let k3 = find_byte_from(value, k2 + 1, 58);
        if k3 < value.len() {
            return false;
        }
        match u32_in(value, 0, k1) {
            Some(hours) => {
                if hours > 23 {
                    return false;
                }
            },
            None => {
                return false;
            },
        }
        match u32_in(value, k1 + 1, k2) {
            Some(minutes) => {
                if minutes > 59 {
                    return false;
                }
            },
            None => {
                return false;
            },
        }
        let seconds_part = &value[k2 + 1..value.len()];
        let ghost rest1 = value@.subrange(k1 + 1, value@.len() as int);
        assert(rest1.subrange(k2 - k1, rest1.len() as int) =~= seconds_part@);
        assert(seconds_part@.subrange(0, seconds_part@.len() as int) =~= seconds_part@);
        let dot = find_byte_from(seconds_part, 0, 46);
        if dot < seconds_part.len() {
            match u32_in(seconds_part, 0, dot) {
                Some(seconds) => {
                    if seconds > 59 {
                        return false;
                    }
                },
                None => {
                    return false;
                },
            }
            if seconds_part.len() - dot - 1 > 3 {
                return false;
            }
            u32_in(seconds_part, dot + 1, seconds_part.len()).is_some()
        } else {
            match u32_in(seconds_part, 0, seconds_part.len()) {
                Some(seconds) => seconds <= 59,
                None => false,
            }
        }
    }
}

impl FixField {
    /// The text of a text field.
    pub fn as_string(&self) -> (r: Option<&str>)
        ensures
            match self.value {
                FieldValue::String(s) => r matches Some(x) && x@ == s@,
                _ => r is None,
            },
    {
        match &self.value {
            FieldValue::String(s) => Some(s.as_str()),
            _ => None,
        }
    }

    /// The value of an integer field.
    pub fn as_int(&self) -> (r: Option<i64>)
        ensures
            r == (match self.value {
                FieldValue::Int(i) => Some(i),
                _ => None,
            }),
    {
        match &self.value {
            FieldValue::Int(i) => Some(*i),
            _ => None,
        }
    }

    /// The value of a decimal field.
    pub fn as_float(&self) -> (r: Option<FixDecimal>)
        ensures
            r == (match self.value {
                FieldValue::Float(d) => Some(d),
                _ => None,
            }),
    {
        match &self.value {
            FieldValue::Float(d) => Some(*d),
            _ => None,
        }
    }

    /// The value of a one-character field.
    pub fn as_char(&self) -> (r: Option<char>)
        ensures
            r == (match self.value {
                FieldValue::Char(c) => Some(c),
                _ => None,
            }),
    {
        match &self.value {
            FieldValue::Char(c) => Some(*c),
            _ => None,
        }
    }

    /// The value of a yes/no field.
    pub fn as_bool(&self) -> (r: Option<bool>)
        ensures
            r == (match self.value {
                FieldValue::Bool(b) => Some(b),
                _ => None,
            }),
    {
        match &self.value {
            FieldValue::Bool(b) => Some(*b),
            _ => None,
        }
    }

    /// The text of a timestamp field.
    pub fn as_utc_timestamp(&self) -> (r: Option<&str>)
        ensures
            match self.value {
                FieldValue::UTCTimestamp(s) => r matches Some(x) && x@ == s@,
                _ => r is None,
            },
    {
        match &self.value {
            FieldValue::UTCTimestamp(s) => Some(s.as_str()),
            _ => None,
        }
    }

    /// The text of a date field.
    pub fn as_utc_date_only(&self) -> (r: Option<&str>)
        ensures
            match self.value {
                FieldValue::UTCDateOnly(s) => r matches Some(x) && x@ == s@,
                _ => r is None,
            },
    {
        match &self.value {
            FieldValue::UTCDateOnly(s) => Some(s.as_str()),
            _ => None,
        }
    }

    /// The text of a time field.
    pub fn as_utc_time_only(&self) -> (r: Option<&str>)
        ensures
            match self.value {
                FieldValue::UTCTimeOnly(s) => r matches Some(x) && x@ == s@,
                _ => r is None,
            },
    {
        match &self.value {
            FieldValue::UTCTimeOnly(s) => Some(s.as_str()),
            _ => None,
        }
    }

    /// The bytes of a data field.
    pub fn as_data(&self) -> (r: Option<&[u8]>)
        ensures
            match self.value {
                FieldValue::Data(d) => r matches Some(x) && x@ == d@,
                _ => r is None,
            },
    {
        match &self.value {
            FieldValue::Data(d) => Some(d.as_slice()),
            _ => None,
        }
    }
}

/// The hexadecimal digit of `d` (below 16), in lower case.
pub open spec fn hex_digit(d: nat) -> char {
    if d == 0 {
        '0'
    } else if d == 1 {
        '1'
    } else if d == 2 {
        '2'
    } else if d == 3 {
        '3'
    } else if d == 4 {
        '4'
    } else if d == 5 {
        '5'
    } else if d == 6 {
        '6'
    } else if d == 7 {
        '7'
    } else if d == 8 {
        '8'
    } else if d == 9 {
        '9'
    } else if d == 10 {
        'a'
    } else if d == 11 {
        'b'
    } else if d == 12 {
        'c'
    } else if d == 13 {
        'd'
    } else if d == 14 {
        'e'
    } else {
        'f'
    }
}

/// The hexadecimal text of `n` (below 256), without leading zeros.
pub open spec fn hex_text(n: nat) -> Seq<char> {
    if n < 16 {
        seq![hex_digit(n)]
    } else {
        seq![hex_digit(n / 16), hex_digit(n % 16)]
    }
}

/// How a character is written in the debug text of a string (`in_str`) or
/// of a character: a backslash, newline, carriage return, tab and NUL by
/// their escapes, the quote that closes the text escaped, other ASCII
/// control characters as `\u{..}` with their hexadecimal code, and any
/// other character as itself.
pub open spec fn escaped_char(c: char, in_str: bool) -> Seq<char> {
    if c == '\\' {
        seq!['\\', '\\']
    } else if c == '\n' {
        seq!['\\', 'n']
    } else if c == '\r' {
        seq!['\\', 'r']
    } else if c == '\t' {
        seq!['\\', 't']
    } else if c == '\0' {
        seq!['\\', '0']
    } else if in_str && c == '"' {
        seq!['\\', '"']
    } else if !in_str && c == '\'' {
        seq!['\\', '\'']
    } else if (c as nat) < 32 || (c as nat) == 127 {
        seq!['\\', 'u', '{'] + hex_text(c as nat) + seq!['}']
    } else {
        seq![c]
    }
}

/// The characters of a string, each written as in its debug text.
pub open spec fn escaped_text(s: Seq<char>) -> Seq<char>
    decreases s.len(),
{
    if s.len() == 0 {
        Seq::empty()
    } else {
        escaped_text(s.drop_last()) + escaped_char(s.last(), true)
    }
}

/// A string's debug text: its escaped characters between double quotes.
pub open spec fn quoted(s: Seq<char>) -> Seq<char> {
    seq!['"'] + escaped_text(s) + seq!['"']
}

/// The bytes in decimal, separated by `, `.
pub open spec fn byte_list(b: Seq<u8>) -> Seq<char>
    decreases b.len(),
{
    if b.len() == 0 {
        Seq::empty()
    } else if b.len() == 1 {
        decimal_text(b[0] as nat)
    } else {
        byte_list(b.drop_last()) + ", "@ + decimal_text(b.last() as nat)
    }
}

/// The debug text of a field value, used in error messages: the kind of
/// value, then the value in brackets (text quoted and escaped, a character
/// between single quotes, a decimal in its exact digits, data as a list of
/// bytes).
pub open spec fn value_debug_text(v: FieldValue) -> Seq<char> {
    match v {
        FieldValue::String(s) => "String("@ + quoted(s@) + ")"@,
        FieldValue::Int(n) => "Int("@ + signed_text(n as int) + ")"@,
        FieldValue::Float(d) => "Float("@ + decimal_display(d) + ")"@,
        FieldValue::Bool(b) => if b {
            "Bool(true)"@
        } else {
            "Bool(false)"@
        },
        FieldValue::Char(c) => "Char('"@ + escaped_char(c, false) + "')"@,
        FieldValue::Data(d) => "Data(["@ + byte_list(d@) + "])"@,
        FieldValue::UTCTimestamp(s) => "UTCTimestamp("@ + quoted(s@) + ")"@,
        FieldValue::UTCDateOnly(s) => "UTCDateOnly("@ + quoted(s@) + ")"@,
        FieldValue::UTCTimeOnly(s) => "UTCTimeOnly("@ + quoted(s@) + ")"@,
    }
}

/// The hexadecimal digit of `d`.
fn hex_char(d: u32) -> (r: char)
    requires
        d < 16,
    ensures
        r == hex_digit(d as nat),
{
    if d == 0 {
        '0'
    } else if d == 1 {
        '1'
    } else if d == 2 {
        '2'
    } else if d == 3 {
        '3'
    } else if d == 4 {
        '4'
    } else if d == 5 {
        '5'
    } else if d == 6 {
        '6'
    } else if d == 7 {
        '7'
    } else if d == 8 {
        '8'
    } else if d == 9 {
        '9'
    } else if d == 10 {
        'a'
    } else if d == 11 {
        'b'
    } else if d == 12 {
        'c'
    } else if d == 13 {
        'd'
    } else if d == 14 {
        'e'
    } else {
        'f'
    }
}

/// Appends a character as it is written in a debug text.
fn push_escaped(s: &mut String, c: char, in_str: bool)
    ensures
        final(s)@ == old(s)@ + escaped_char(c, in_str),
{
    let code = c as u32;
    if c == '\\' {
        push_char(s, '\\');
        push_char(s, '\\');
    } else if c == '\n' {
        push_char(s, '\\');
        push_char(s, 'n');
    } else if c == '\r' {
        push_char(s, '\\');
        push_char(s, 'r');
    } else if c == '\t' {
        push_char(s, '\\');
        push_char(s, 't');
    } else if c == '\0' {
        push_char(s, '\\');
        push_char(s, '0');
    } else if in_str && c == '"' {
        push_char(s, '\\');
        push_char(s, '"');
    } else if !in_str && c == '\'' {
        push_char(s, '\\');
        push_char(s, '\'');
    } else if code < 32 || code == 127 {
        push_char(s, '\\');
        push_char(s, 'u');
        push_char(s, '{');
        if code < 16 {
            push_char(s, hex_char(code));
        } else {
            push_char(s, hex_char(code / 16));
            push_char(s, hex_char(code % 16));
        }
        push_char(s, '}');
    } else {
        push_char(s, c);
    }
    proof {
        assert(s@ =~= old(s)@ + escaped_char(c, in_str));
    }
}

/// Appends a string's debug text.
fn push_quoted(s: &mut String, t: &str)
    ensures
        final(s)@ == old(s)@ + quoted(t@),
{
    push_char(s, '"');
    let ghost start = s@;
    let n = t.unicode_len();
    let mut i: usize = 0;
    while i < n
        invariant
            n == t@.len(),
            i <= n,
            s@ == start + escaped_text(t@.take(i as int)),
        decreases n - i,
    {
        let c = t.get_char(i);
        push_escaped(s, c, true);
        proof {
            assert(t@.take(i + 1).drop_last() =~= t@.take(i as int));
        }
        i += 1;
    }
    push_char(s, '"');
    proof {
        assert(t@.take(n as int) =~= t@);
        assert(s@ =~= old(s)@ + quoted(t@));
    }
}

/// Appends bytes in decimal, separated by `, `.
fn push_byte_list(s: &mut String, b: &Vec<u8>)
    ensures
        final(s)@ == old(s)@ + byte_list(b@),
{
    let ghost start = s@;
    let mut i: usize = 0;
    while i < b.len()
        invariant
            i <= b@.len(),
            s@ == start + byte_list(b@.take(i as int)),
        decreases b.len() - i,
    {
        let ghost before = s@;
        if i > 0 {
            push_char(s, ',');
            push_char(s, ' ');
        }
        push_decimal(s, b[i] as u64);
        proof {
            let t = b@.take(i + 1);
            assert(t.drop_last() =~= b@.take(i as int));
            if i == 0 {
                assert(byte_list(b@.take(0)) =~= Seq::<char>::empty());
            } else {
                assert(", "@ =~= seq![',', ' ']) by {
                    reveal_strlit(", ");
                }
            }
            assert(s@ =~= start + byte_list(t));
        }
        i += 1;
    }
    proof {
        assert(b@.take(b@.len() as int) =~= b@);
    }
}

/// Appends text.
fn push_text(s: &mut String, t: &str)
    ensures
        final(s)@ == old(s)@ + t@,
{
    let joined = concat_text(s.as_str(), t);
    *s = joined;
}

/// The debug text of a field value (see `value_debug_text`).
pub fn debug_text(value: &FieldValue) -> (r: String)
    ensures
        r@ == value_debug_text(*value),
{
    let mut s = String::new();
    match value {
        FieldValue::String(t) => {
            push_text(&mut s, "String(");
            push_quoted(&mut s, t.as_str());
            push_text(&mut s, ")");
        },
        FieldValue::Int(n) => {
            push_text(&mut s, "Int(");
            let d = signed_string(*n);
            push_text(&mut s, d.as_str());
            push_text(&mut s, ")");
        },
        FieldValue::Float(d) => {
            push_text(&mut s, "Float(");
            let t = decimal_to_string(*d);
            push_text(&mut s, t.as_str());
            push_text(&mut s, ")");
        },
        FieldValue::Bool(b) => {
            if *b {
                push_text(&mut s, "Bool(true)");
            } else {
                push_text(&mut s, "Bool(false)");
            }
        },
        FieldValue::Char(c) => {
            push_text(&mut s, "Char('");
            push_escaped(&mut s, *c, false);
            push_text(&mut s, "')");
        },
        FieldValue::Data(d) => {
            push_text(&mut s, "Data([");
            push_byte_list(&mut s, d);
            push_text(&mut s, "])");
        },
        FieldValue::UTCTimestamp(t) => {
            push_text(&mut s, "UTCTimestamp(");
            push_quoted(&mut s, t.as_str());
            push_text(&mut s, ")");
        },
        FieldValue::UTCDateOnly(t) => {
            push_text(&mut s, "UTCDateOnly(");
            push_quoted(&mut s, t.as_str());
            push_text(&mut s, ")");
        },
        FieldValue::UTCTimeOnly(t) => {
            push_text(&mut s, "UTCTimeOnly(");
            push_quoted(&mut s, t.as_str());
            push_text(&mut s, ")");
        },
    }
    s
}

} // verus!
