//! The value rules of single fields.

use crate::fix::decimal::{decimal_display, decimal_to_string};
use crate::fix::error::ValidationError;
use crate::fix::parser::field_parser::{debug_text, value_debug_text, FieldValue};
use crate::text::{signed_string, signed_text};
use vstd::prelude::*;
use vstd::string::StrSliceExecFns;
use vstd::utf8::encode_utf8;

verus! {

pub struct FieldValidator;

/// Whether `char::is_alphanumeric` holds of `c`: Unicode's alphabetic or
/// numeric property.
pub uninterp spec fn unicode_alphanumeric(c: char) -> bool;

/// Calls `char::is_alphanumeric`. The result is named, as Unicode's tables
/// decide it; it holds of the ASCII letters and digits and fails for ASCII
/// punctuation, as the documentation states.
#[verifier::external_body]
fn is_alphanumeric(c: char) -> (r: bool)
    ensures
        r == unicode_alphanumeric(c),
        ('a' <= c <= 'z' || 'A' <= c <= 'Z' || '0' <= c <= '9') ==> r,
        (c == '.' || c == '-' || c == ' ' || c == '=' || c == '|') ==> !r,
{
    c.is_alphanumeric()
}


/// The length of a text in UTF-8 bytes, as `str::len` counts it.
pub open spec fn byte_len(t: Seq<char>) -> nat {
    encode_utf8(t).len()
}

/// A text field that is not empty and has at most `max` bytes.
pub open spec fn short_text(v: FieldValue, max: nat) -> bool {
    v matches FieldValue::String(s) && s@.len() > 0 && byte_len(s@) <= max
}

/// The characters of a symbol: letters, digits, `.` and `-`.
pub open spec fn symbol_chars(t: Seq<char>) -> bool {
    forall|i: int|
        0 <= i < t.len() ==> unicode_alphanumeric(#[trigger] t[i]) || t[i] == '.' || t[i]
            == '-'
}

/// Whether the value of field `tag` is acceptable. Tags without a rule
/// accept anything.
pub open spec fn field_value_ok(tag: u32, v: FieldValue) -> bool {
    if tag == 8 {
        v matches FieldValue::String(s) && s@.len() >= 4 && s@.subrange(0, 4) == seq![
            'F',
            'I',
            'X',
            '.',
        ] && byte_len(s@) >= 7
    } else if tag == 9 {
        v matches FieldValue::Int(i) && 0 < i <= 1_000_000
    } else if tag == 35 {
        v matches FieldValue::String(s) && byte_len(s@) == 1 && unicode_alphanumeric(s@[0])
    } else if tag == 49 || tag == 56 || tag == 11 || tag == 37 || tag == 41 {
        short_text(v, 64)
    } else if tag == 34 {
        v matches FieldValue::Int(i) && i > 0
    } else if tag == 52 || tag == 60 {
        v matches FieldValue::String(s) && byte_len(s@) >= 17
    } else if tag == 55 {
        short_text(v, 32) && symbol_chars(v->String_0@)
    } else if tag == 54 {
        v matches FieldValue::Char(c) && (c == '1' || c == '2')
    } else if tag == 40 {
        v matches FieldValue::Char(c) && (c == '1' || c == '2' || c == '3' || c == '4')
    } else if tag == 38 {
        v matches FieldValue::Int(i) && 0 < i <= 1_000_000_000
    } else if tag == 44 || tag == 99 {
        v matches FieldValue::Float(d) && d.mantissa > 0
    } else if tag == 59 {
        v matches FieldValue::Char(c) && (c == '0' || c == '1' || c == '3' || c == '4')
    } else {
        true
    }
}

/// Whether `v` is of the kind the rule for field `tag` reads: text for
/// the identifiers, times and strings, an integer for lengths, sequence
/// numbers and quantities, a character for codes, a decimal for prices.
pub open spec fn expected_kind(tag: u32, v: FieldValue) -> bool {
    if tag == 8 || tag == 35 || tag == 49 || tag == 56 || tag == 11 || tag == 37 || tag == 41
        || tag == 52 || tag == 60 || tag == 55 {
        v is String
    } else if tag == 9 || tag == 34 || tag == 38 {
        v is Int
    } else if tag == 54 || tag == 40 || tag == 59 {
        v is Char
    } else if tag == 44 || tag == 99 {
        v is Float
    } else {
        true
    }
}

/// The text of a value of one of the kinds the rules read.
pub open spec fn value_text(v: FieldValue) -> Seq<char> {
    match v {
        FieldValue::String(s) => s@,
        FieldValue::Int(i) => signed_text(i as int),
        FieldValue::Char(c) => seq![c],
        FieldValue::Float(d) => decimal_display(d),
        _ => Seq::empty(),
    }
}

/// `e` reports the value `v` of field `tag` as invalid, with the value's
/// own text when it is of the kind the rule reads, else with its debug
/// text.
pub open spec fn rejects(e: ValidationError, tag: u32, v: FieldValue) -> bool {
    match e {
        ValidationError::InvalidFieldValue { tag: t, value } => t == tag && value@ == if expected_kind(
            tag,
            v,
        ) {
            value_text(v)
        } else {
            value_debug_text(v)
        },
        _ => false,
    }
}

/// What the rule for field `tag` answers for `v`.
pub open spec fn rule_answer(r: Result<(), ValidationError>, tag: u32, v: FieldValue) -> bool {
    &&& r is Ok <==> field_value_ok(tag, v)
    &&& r matches Err(e) ==> rejects(e, tag, v)
}

/// The error for a value of the kind the rule reads: its own text.
fn invalid(tag: u32, v: &FieldValue) -> (r: ValidationError)
    requires
        v is String || v is Int || v is Char || v is Float,
        expected_kind(tag, *v),
    ensures
        rejects(r, tag, *v),
{
    let value = match v {
        FieldValue::String(s) => s.clone(),
        FieldValue::Int(i) => signed_string(*i),
        FieldValue::Char(c) => crate::fix::messages::char_string(*c),
        FieldValue::Float(d) => decimal_to_string(*d),
        _ => debug_text(v),
    };
    ValidationError::InvalidFieldValue { tag, value }
}

/// The error for a value of another kind than the rule reads: its debug
/// text.
fn wrong_kind(tag: u32, v: &FieldValue) -> (r: ValidationError)
    requires
        !expected_kind(tag, *v),
    ensures
        rejects(r, tag, *v),
{
    ValidationError::InvalidFieldValue { tag, value: debug_text(v) }
}

impl FieldValidator {
    pub fn new() -> (r: Self) {
        FieldValidator
    }

    /// Checks the value of one field against the rule for its tag.
    pub fn validate_field(&self, tag: u32, value: &FieldValue) -> (r: Result<(), ValidationError>)
        ensures
            rule_answer(r, tag, *value),
    {
        match tag {
            8 => self.validate_begin_string(value),
            9 => self.validate_body_length(value),
            35 => self.validate_msg_type(value),
            49 | 56 => self.validate_comp_id(value, tag),
            34 => self.validate_seq_num(value),
            52 => self.validate_sending_time(value),
            11 | 37 | 41 => self.validate_order_id(value, tag),
            55 => self.validate_symbol(value),
            54 => self.validate_side(value),
            40 => self.validate_ord_type(value),
            38 => self.validate_quantity(value),
            44 | 99 => self.validate_price(value, tag),
            59 => self.validate_time_in_force(value),
            60 => self.validate_transact_time(value),
            _ => Ok(()),
        }
    }

    /// Tag 8: text beginning `FIX.`, at least seven bytes long.
    fn validate_begin_string(&self, value: &FieldValue) -> (r: Result<(), ValidationError>)
        ensures
            rule_answer(r, 8, *value),
    {
        match value {
            FieldValue::String(s) => {
                let t = s.as_str();
                let ok = t.unicode_len() >= 4 && t.get_char(0) == 'F' && t.get_char(1) == 'I'
                    && t.get_char(2) == 'X' && t.get_char(3) == '.' && t.as_bytes().len() >= 7;
                proof {
                    if t@.len() >= 4 {
                        assert(t@.subrange(0, 4) =~= seq![t@[0], t@[1], t@[2], t@[3]]);
                    }
                }
                if ok {
                    Ok(())
                } else {
                    Err(invalid(8, value))
                }
            },
            _ => Err(wrong_kind(8, value)),
        }
    }

    /// Tag 9: an integer from 1 to 1,000,000.
    fn validate_body_length(&self, value: &FieldValue) -> (r: Result<(), ValidationError>)
        ensures
            rule_answer(r, 9, *value),
    {
        match value {
            FieldValue::Int(i) => if *i > 0 && *i <= 1_000_000 {
                Ok(())
            } else {
                Err(invalid(9, value))
            },
            _ => Err(wrong_kind(9, value)),
        }
    }

    /// Tag 35: a single letter or digit.
    fn validate_msg_type(&self, value: &FieldValue) -> (r: Result<(), ValidationError>)
        ensures
            rule_answer(r, 35, *value),
    {
        match value {
            FieldValue::String(s) => {
                let t = s.as_str();
                let ok = t.as_bytes().len() == 1 && t.unicode_len() >= 1 && is_alphanumeric(
                    t.get_char(0),
                );
                proof {
                    if t@.len() == 0 {
                        assert(encode_utf8(t@) =~= Seq::<u8>::empty());
                    }
                }
                if ok {
                    Ok(())
                } else {
                    Err(invalid(35, value))
                }
            },
            _ => Err(wrong_kind(35, value)),
        }
    }

    /// Tags 49 and 56: text of 1 to 64 bytes.
    fn validate_comp_id(&self, value: &FieldValue, tag: u32) -> (r: Result<(), ValidationError>)
        requires
            tag == 49 || tag == 56,
        ensures
            rule_answer(r, tag, *value),
    {
        match value {
            FieldValue::String(s) => if !s.as_str().is_empty() && s.as_str().as_bytes().len() <= 64 {
                Ok(())
            } else {
                Err(invalid(tag, value))
            },
            _ => Err(wrong_kind(tag, value)),
        }
    }

    /// Tag 34: a positive integer.
    fn validate_seq_num(&self, value: &FieldValue) -> (r: Result<(), ValidationError>)
        ensures
            rule_answer(r, 34, *value),
    {
        match value {
            FieldValue::Int(i) => if *i > 0 {
                Ok(())
            } else {
                Err(invalid(34, value))
            },
            _ => Err(wrong_kind(34, value)),
        }
    }

    /// Tag 52: text of at least 17 bytes.
    fn validate_sending_time(&self, value: &FieldValue) -> (r: Result<(), ValidationError>)
        ensures
            rule_answer(r, 52, *value),
    {
        match value {
            FieldValue::String(s) => if s.as_str().as_bytes().len() >= 17 {
                Ok(())
            } else {
                Err(invalid(52, value))
            },
            _ => Err(wrong_kind(52, value)),
        }
    }

    /// Tags 11, 37 and 41: text of 1 to 64 bytes.
    fn validate_order_id(&self, value: &FieldValue, tag: u32) -> (r: Result<(), ValidationError>)
        requires
            tag == 11 || tag == 37 || tag == 41,
        ensures
            rule_answer(r, tag, *value),
    {
        match value {
            FieldValue::String(s) => if !s.as_str().is_empty() && s.as_str().as_bytes().len() <= 64 {
                Ok(())
            } else {
                Err(invalid(tag, value))
            },
            _ => Err(wrong_kind(tag, value)),
        }
    }

    /// Tag 55: text of 1 to 32 bytes of letters, digits, `.` and `-`.
    fn validate_symbol(&self, value: &FieldValue) -> (r: Result<(), ValidationError>)
        ensures
            rule_answer(r, 55, *value),
    {
        match value {
            FieldValue::String(s) => if !s.as_str().is_empty() && s.as_str().as_bytes().len() <= 32
                && symbol_chars_ok(s.as_str()) {
                Ok(())
            } else {
                Err(invalid(55, value))
            },
            _ => Err(wrong_kind(55, value)),
        }
    }

    /// Tag 54: the character 1 or 2.
    fn validate_side(&self, value: &FieldValue) -> (r: Result<(), ValidationError>)
        ensures
            rule_answer(r, 54, *value),
    {
        match value {
            FieldValue::Char(c) => if *c == '1' || *c == '2' {
                Ok(())
            } else {
                Err(invalid(54, value))
            },
            _ => Err(wrong_kind(54, value)),
        }
    }

    /// Tag 40: a character from 1 to 4.
    fn validate_ord_type(&self, value: &FieldValue) -> (r: Result<(), ValidationError>)
        ensures
            rule_answer(r, 40, *value),
    {
        match value {
            FieldValue::Char(c) => if *c == '1' || *c == '2' || *c == '3' || *c == '4' {
                Ok(())
            } else {
                Err(invalid(40, value))
            },
            _ => Err(wrong_kind(40, value)),
        }
    }

    /// Tag 38: an integer from 1 to 1,000,000,000.
    fn validate_quantity(&self, value: &FieldValue) -> (r: Result<(), ValidationError>)
        ensures
            rule_answer(r, 38, *value),
    {
        match value {
            FieldValue::Int(i) => if *i > 0 && *i <= 1_000_000_000 {
                Ok(())
            } else {
                Err(invalid(38, value))
            },
            _ => Err(wrong_kind(38, value)),
        }
    }

    /// Tags 44 and 99: a positive decimal.
    fn validate_price(&self, value: &FieldValue, tag: u32) -> (r: Result<(), ValidationError>)
        requires
            tag == 44 || tag == 99,
        ensures
            rule_answer(r, tag, *value),
    {
        match value {
            FieldValue::Float(d) => if d.mantissa > 0 {
                Ok(())
            } else {
                Err(invalid(tag, value))
            },
            _ => Err(wrong_kind(tag, value)),
        }
    }

    /// Tag 59: the character 0, 1, 3 or 4.
    fn validate_time_in_force(&self, value: &FieldValue) -> (r: Result<(), ValidationError>)
        ensures
            rule_answer(r, 59, *value),
    {
        match value {
            FieldValue::Char(c) => if *c == '0' || *c == '1' || *c == '3' || *c == '4' {
                Ok(())
            } else {
                Err(invalid(59, value))
            },
            _ => Err(wrong_kind(59, value)),
        }
    }

    /// Tag 60: text of at least 17 bytes.
    fn validate_transact_time(&self, value: &FieldValue) -> (r: Result<(), ValidationError>)
        ensures
            rule_answer(r, 60, *value),
    {
        match value {
            FieldValue::String(s) => if s.as_str().as_bytes().len() >= 17 {
                Ok(())
            } else {
                Err(invalid(60, value))
            },
            _ => Err(wrong_kind(60, value)),
        }
    }
}

/// Whether every character is a letter, a digit, `.` or `-`.
fn symbol_chars_ok(t: &str) -> (r: bool)
    ensures
        r == symbol_chars(t@),
{
    let n = t.unicode_len();
    let mut i: usize = 0;
    while i < n
        invariant
            i <= n,
            n == t@.len(),
            forall|j: int|
                0 <= j < i ==> unicode_alphanumeric(#[trigger] t@[j]) || t@[j] == '.' || t@[j]
                    == '-',
        decreases n - i,
    {
        let c = t.get_char(i);
        if !(is_alphanumeric(c) || c == '.' || c == '-') {
            return false;
        }
        i = i + 1;
    }
    true
}

} // verus!
