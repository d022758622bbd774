//! Parsing that tries to get a message out of bytes that fail the normal
//! parse: by ignoring the checksum, fixing the body length, putting back
//! delimiters, dropping bad characters, filling in or leaving out fields.

use crate::fix::error::{parse_error_text, FixError, ParseError, ValidationError};
use crate::fix::messages::{msg_type_from_text, text_field, FixMessage, MessageType};
use crate::fix::parser::field_parser::{FieldValue, FixField};
use crate::fix::parser::message_builder::message_built;
use crate::fix::parser::raw_parser::{field_views, parsed_fields, RawField};
use crate::fix::parser::{all_typed, field_error, fields_typed, first_untyped, message_parsed, typed_map, FixParser};
use crate::text::{concat_text, decimal_bytes, decimal_bytes_of, decimal_string, decimal_text};
use std::collections::HashMap;
use vstd::prelude::*;

verus! {

broadcast use vstd::std_specs::hash::group_hash_axioms;

/// What recovery may try.
#[derive(Debug, Clone, Copy)]
pub struct ErrorRecovery {
    pub allow_partial_parse: bool,
    pub skip_invalid_fields: bool,
    pub max_recovery_attempts: u32,
    pub recover_from_checksum_errors: bool,
}

/// What a recovering parse found: the message if one was had, the error of
/// the normal parse, the notes on what was tried, and which fields were
/// filled in or left out.
#[derive(Debug)]
pub struct RecoveryResult {
    pub message: Option<FixMessage>,
    pub errors: Vec<FixError>,
    pub warnings: Vec<String>,
    pub recovered_fields: Vec<u32>,
    pub skipped_fields: Vec<u32>,
    pub recovery_attempts: u32,
}

pub struct RecoveringParser {
    base_parser: FixParser,
    pub recovery_config: ErrorRecovery,
}

impl Default for ErrorRecovery {
    /// Partial parses allowed, invalid fields skipped, three attempts, and
    /// checksum errors not recovered.
    fn default() -> (r: Self)
        ensures
            r.allow_partial_parse,
            r.skip_invalid_fields,
            r.max_recovery_attempts == 3,
            !r.recover_from_checksum_errors,
    {
        ErrorRecovery {
            allow_partial_parse: true,
            skip_invalid_fields: true,
            max_recovery_attempts: 3,
            recover_from_checksum_errors: false,
        }
    }
}

/// `b` is printable ASCII or the SOH delimiter.
pub open spec fn is_kept_byte(b: u8) -> bool {
    b == 1 || (0x20 <= b && b <= 0x7e)
}

/// The bytes of `s` that are printable ASCII or SOH, in order.
pub open spec fn kept_bytes(s: Seq<u8>) -> Seq<u8>
    decreases s.len(),
{
    if s.len() == 0 {
        Seq::empty()
    } else if is_kept_byte(s.last()) {
        kept_bytes(s.drop_last()).push(s.last())
    } else {
        kept_bytes(s.drop_last())
    }
}

/// Keeping the printable bytes keeps them all when all are printable, and
/// drops some when one is not.
proof fn lemma_kept_len(s: Seq<u8>)
    ensures
        kept_bytes(s).len() <= s.len(),
        (forall|i: int| 0 <= i < s.len() ==> is_kept_byte(#[trigger] s[i])) ==> kept_bytes(s)
            == s,
        (exists|i: int| 0 <= i < s.len() && !is_kept_byte(#[trigger] s[i])) ==> kept_bytes(
            s,
        ).len() < s.len(),
    decreases s.len(),
{
    if s.len() > 0 {
        let t = s.drop_last();
        lemma_kept_len(t);
        if forall|i: int| 0 <= i < s.len() ==> is_kept_byte(#[trigger] s[i]) {
            assert forall|i: int| 0 <= i < t.len() implies is_kept_byte(#[trigger] t[i]) by {
                assert(t[i] == s[i]);
            }
            assert(is_kept_byte(s[s.len() - 1]));
            assert(kept_bytes(s) =~= s);
        }
        if exists|i: int| 0 <= i < s.len() && !is_kept_byte(#[trigger] s[i]) {
            let i = choose|i: int| 0 <= i < s.len() && !is_kept_byte(#[trigger] s[i]);
            if i < s.len() - 1 {
                assert(t[i] == s[i]);
            }
        }
    } else {
        assert(kept_bytes(s) =~= s);
    }
}

/// The bytes with an SOH put after every digit that stands in a value and
/// is followed by `=`: where a delimiter was lost between a value and the
/// next tag, it goes back in.
pub open spec fn resoh_from(s: Seq<u8>, i: int, in_value: bool) -> Seq<u8>
    decreases s.len() - i,
{
    if i < 0 || i >= s.len() {
        Seq::empty()
    } else if s[i] == 61 {
        seq![s[i]] + resoh_from(s, i + 1, true)
    } else if in_value && 48 <= s[i] <= 57 && i + 1 < s.len() && s[i + 1] == 61 {
        seq![s[i], 1u8] + resoh_from(s, i + 1, false)
    } else {
        seq![s[i]] + resoh_from(s, i + 1, in_value)
    }
}

/// The bytes `a`, `b` stand at `i`.
pub open spec fn pair_at(s: Seq<u8>, i: int, a: u8, b: u8) -> bool {
    0 <= i && i + 1 < s.len() && s[i] == a && s[i + 1] == b
}

/// The bytes `1`, `0`, `=` stand at `i`.
pub open spec fn checksum_tag_at(s: Seq<u8>, i: int) -> bool {
    0 <= i && i + 2 < s.len() && s[i] == 49 && s[i + 1] == 48 && s[i + 2] == 61
}

/// The first position of `9=`.
pub open spec fn first_body_length_tag(s: Seq<u8>) -> int {
    choose|i: int| pair_at(s, i, 57, 61) && forall|j: int| 0 <= j < i ==> !pair_at(s, j, 57, 61)
}

/// The last position of `10=`.
pub open spec fn last_checksum_tag(s: Seq<u8>) -> int {
    choose|i: int| checksum_tag_at(s, i) && forall|j: int| i < j ==> !checksum_tag_at(s, j)
}

/// The first SOH at or after `start`.
pub open spec fn first_soh_from(s: Seq<u8>, start: int) -> int {
    choose|i: int|
        start <= i < s.len() && s[i] == 1 && forall|j: int| start <= j < i ==> s[j] != 1
}

/// The message with its body length field rewritten to the distance from
/// the end of that field to the last `10=`: `None` when there is no `9=`,
/// no SOH after it, no `10=`, or the `10=` comes before the body.
pub open spec fn corrected_body_length(s: Seq<u8>) -> Option<Seq<u8>> {
    if !(exists|i: int| pair_at(s, i, 57, 61)) {
        None
    } else {
        let p = first_body_length_tag(s);
        if !(exists|i: int| p <= i < s.len() && s[i] == 1) {
            None
        } else {
            let body_start = first_soh_from(s, p) + 1;
            if !(exists|i: int| checksum_tag_at(s, i)) {
                None
            } else {
                let c = last_checksum_tag(s);
                if c < body_start {
                    None
                } else {
                    Some(
                        s.subrange(0, p) + seq![57u8, 61u8] + decimal_bytes(
                            (c - body_start) as nat,
                        ) + seq![1u8] + s.subrange(body_start, s.len() as int),
                    )
                }
            }
        }
    }
}

/// The field that stands in for a missing required field: ClOrdID
/// `DEFAULT`, HandlInst `1`, OrderQty 1, OrdType `1`, Side `1`, Symbol
/// `UNKNOWN`; other tags have none.
pub open spec fn default_field_for(tag: u32, f: FixField) -> bool {
    f.tag == tag && if tag == 11 {
        f.value matches FieldValue::String(s) && s@ == "DEFAULT"@
    } else if tag == 21 || tag == 40 || tag == 54 {
        f.value == FieldValue::Char('1')
    } else if tag == 38 {
        f.value == FieldValue::Int(1)
    } else if tag == 55 {
        f.value matches FieldValue::String(s) && s@ == "UNKNOWN"@
    } else {
        false
    }
}

/// `tag` has a stand-in field.
pub open spec fn has_default_field(tag: u32) -> bool {
    tag == 11 || tag == 21 || tag == 38 || tag == 40 || tag == 54 || tag == 55
}

/// `r` is what reading the typed fields of `data`, changed into `m2` by
/// `change`, and building a message from them gives.
pub open spec fn built_from_changed(
    data: Seq<u8>,
    change: spec_fn(Map<u32, FixField>, Map<u32, FixField>) -> bool,
    r: Result<FixMessage, FixError>,
) -> bool {
    match parsed_fields(data) {
        Err(e) => r == Err::<FixMessage, FixError>(FixError::Parse(e)),
        Ok(fs) => if all_typed(fs) {
            exists|m: Map<u32, FixField>, m2: Map<u32, FixField>|
                typed_map(fs, m) && change(m, m2) && message_built(m2, r)
        } else {
            r matches Err(FixError::Parse(e)) && exists|i: int|
                first_untyped(fs, i) && field_error(fs[i], e)
        },
    }
}

/// The texts of a run of warnings.
pub open spec fn texts(w: Seq<String>) -> Seq<Seq<char>> {
    w.map_values(|s: String| s@)
}

/// The texts of warnings with one more are those texts with its text.
proof fn lemma_texts_push(w: Seq<String>, x: String)
    ensures
        texts(w.push(x)) == texts(w).push(x@),
{
    assert(texts(w.push(x)) =~= texts(w).push(x@));
}

/// A prefix of the texts of warnings stays one when a warning is added.
proof fn lemma_prefix_push(a: Seq<Seq<char>>, w: Seq<String>, x: String)
    requires
        a.is_prefix_of(texts(w)),
    ensures
        a.is_prefix_of(texts(w.push(x))),
{
    lemma_texts_push(w, x);
    assert(texts(w.push(x)).subrange(0, a.len() as int) =~= texts(w).subrange(0, a.len() as int));
}

/// `after` keeps the errors and the filled-in and left-out fields of
/// `before`.
pub open spec fn keeps_record(before: RecoveryResult, after: RecoveryResult) -> bool {
    &&& after.errors@ == before.errors@
    &&& after.recovered_fields@ == before.recovered_fields@
    &&& after.skipped_fields@ == before.skipped_fields@
}

/// `after` holds what a parse `p` gave: its message, counted as an attempt,
/// when it succeeded; the message and count of `before` when it failed.
pub open spec fn took_parse(before: RecoveryResult, after: RecoveryResult, p: Result<FixMessage, FixError>) -> bool {
    match p {
        Ok(m) => after.message == Some(m) && after.recovery_attempts == before.recovery_attempts + 1,
        Err(_) => after.message == before.message && after.recovery_attempts
            == before.recovery_attempts,
    }
}

/// `after` holds what parsing `bytes` with the normal parser gives, as
/// `took_parse` says.
pub open spec fn reparsed(bytes: Seq<u8>, before: RecoveryResult, after: RecoveryResult) -> bool {
    exists|p: Result<FixMessage, FixError>| #[trigger] message_parsed(bytes, p) && took_parse(before, after, p)
}

/// `after` has the message and count of `before`.
pub open spec fn no_new_message(before: RecoveryResult, after: RecoveryResult) -> bool {
    after.message == before.message && after.recovery_attempts == before.recovery_attempts
}

/// The notes of a reconstruction from fragments: the attempt, and the kind
/// of message that the type field (`35=D`, `35=8`, `35=0`) shows, if any.
pub open spec fn reconstruction_notes(data: Seq<u8>) -> Seq<Seq<char>> {
    seq!["Attempting message reconstruction from fragments"@] + if exists|i: int|
        quad_at(data, i, 51, 53, 61, 68) {
        seq!["Detected New Order Single message"@]
    } else if exists|i: int| quad_at(data, i, 51, 53, 61, 56) {
        seq!["Detected Execution Report message"@]
    } else if exists|i: int| quad_at(data, i, 51, 53, 61, 48) {
        seq!["Detected Heartbeat message"@]
    } else {
        Seq::empty()
    }
}

/// `after` is `before` with the notes `notes` and then those of a
/// reconstruction of `data`, counted as one attempt.
pub open spec fn reconstructed(data: Seq<u8>, before: RecoveryResult, after: RecoveryResult, notes: Seq<Seq<char>>) -> bool {
    &&& keeps_record(before, after)
    &&& after.message == before.message
    &&& after.recovery_attempts == before.recovery_attempts + 1
    &&& texts(after.warnings@) == texts(before.warnings@) + notes + reconstruction_notes(data)
}

/// `after` is `before` after a parse with relaxed rules of `data` that
/// began with the notes `notes`: no message, one attempt when the bytes
/// split into fields, and the notes first among the warnings added.
pub open spec fn relaxed(data: Seq<u8>, before: RecoveryResult, after: RecoveryResult, notes: Seq<Seq<char>>) -> bool {
    &&& keeps_record(before, after)
    &&& after.message == before.message
    &&& after.recovery_attempts == before.recovery_attempts + if parsed_fields(data) is Ok {
        1int
    } else {
        0int
    }
    &&& (texts(before.warnings@) + notes).is_prefix_of(texts(after.warnings@))
}

/// The change of the fields that puts a stand-in for the missing field
/// `tag`, where it has one.
pub open spec fn with_default(tag: u32) -> spec_fn(Map<u32, FixField>, Map<u32, FixField>) -> bool {
    |m: Map<u32, FixField>, m2: Map<u32, FixField>|
        if has_default_field(tag) {
            m2.dom() == m.dom().insert(tag) && default_field_for(tag, m2[tag]) && forall|k: u32|
                k != tag && m.contains_key(k) ==> m2[k] == m[k]
        } else {
            m2 == m
        }
}

/// The change of the fields that leaves out the field `tag`.
pub open spec fn without(tag: u32) -> spec_fn(Map<u32, FixField>, Map<u32, FixField>) -> bool {
    |m: Map<u32, FixField>, m2: Map<u32, FixField>| m2 == m.remove(tag)
}

/// What recovering from the parse error `e` does to the result: each kind
/// of error gets its note and, where the configuration allows, a new parse
/// of the bytes changed to mend it (checksum ignored, body length
/// rewritten, delimiters put back, bad characters dropped); any other kind
/// gets a reconstruction from fragments.
pub open spec fn parse_error_recovered(
    c: ErrorRecovery,
    data: Seq<u8>,
    e: ParseError,
    before: RecoveryResult,
    after: RecoveryResult,
) -> bool {
    match e {
        ParseError::InvalidChecksum { .. } => if c.recover_from_checksum_errors {
            &&& keeps_record(before, after)
            &&& texts(after.warnings@) == texts(before.warnings@).push(
                "Ignoring checksum validation"@,
            )
            &&& reparsed(data, before, after)
        } else {
            after == before
        },
        ParseError::InvalidBodyLength { .. } => {
            &&& keeps_record(before, after)
            &&& texts(after.warnings@) == texts(before.warnings@).push(
                "Attempting to parse with corrected body length"@,
            )
            &&& match corrected_body_length(data) {
                Some(fixed) => reparsed(fixed, before, after),
                None => no_new_message(before, after),
            }
        },
        ParseError::MissingSoh => {
            &&& keeps_record(before, after)
            &&& texts(after.warnings@) == texts(before.warnings@).push(
                "Attempting to reconstruct SOH delimiters"@,
            )
            &&& reparsed(resoh_from(data, 0, false), before, after)
        },
        ParseError::InvalidCharacter { position, .. } => {
            &&& keeps_record(before, after)
            &&& texts(after.warnings@) == texts(before.warnings@).push(
                "Skipping invalid character at position "@ + decimal_text(position as nat),
            )
            &&& if exists|i: int| 0 <= i < data.len() && !is_kept_byte(#[trigger] data[i]) {
                reparsed(kept_bytes(data), before, after)
            } else {
                no_new_message(before, after)
            }
        },
        _ => reconstructed(data, before, after, seq!["Attempting partial message reconstruction"@]),
    }
}

/// `after` holds what building a message from the fields of `data`,
/// changed by `change`, gives: the message, counted as an attempt and with
/// `tag` noted in `fields_of(after)`, when that succeeds; the message, count
/// and fields of `before` when it fails.
pub open spec fn rebuilt(
    data: Seq<u8>,
    change: spec_fn(Map<u32, FixField>, Map<u32, FixField>) -> bool,
    tag: u32,
    before_fields: Seq<u32>,
    after_fields: Seq<u32>,
    before: RecoveryResult,
    after: RecoveryResult,
) -> bool {
    exists|p: Result<FixMessage, FixError>|
        #[trigger] built_from_changed(data, change, p) && took_parse(before, after, p) && after_fields
            == if p is Ok {
            before_fields.push(tag)
        } else {
            before_fields
        }
}

/// What recovering from the validation error `e` does to the result: a
/// missing field gets a stand-in, an invalid field is left out (where the
/// configuration allows), each with its note and a new build of the
/// message; a field out of order gets only its note, as fields are never
/// reordered; any other rule gets a parse with relaxed rules.
pub open spec fn validation_error_recovered(
    c: ErrorRecovery,
    data: Seq<u8>,
    e: ValidationError,
    before: RecoveryResult,
    after: RecoveryResult,
) -> bool {
    match e {
        ValidationError::MissingRequiredField { tag } => {
            &&& after.errors@ == before.errors@
            &&& after.skipped_fields@ == before.skipped_fields@
            &&& texts(after.warnings@) == texts(before.warnings@).push(
                "Attempting to provide default value for missing field "@ + decimal_text(
                    tag as nat,
                ),
            )
            &&& rebuilt(
                data,
                with_default(tag),
                tag,
                before.recovered_fields@,
                after.recovered_fields@,
                before,
                after,
            )
        },
        ValidationError::InvalidFieldValue { tag, .. } => if c.skip_invalid_fields {
            &&& after.errors@ == before.errors@
            &&& after.recovered_fields@ == before.recovered_fields@
            &&& texts(after.warnings@) == texts(before.warnings@).push(
                "Skipping invalid field "@ + decimal_text(tag as nat),
            )
            &&& rebuilt(
                data,
                without(tag),
                tag,
                before.skipped_fields@,
                after.skipped_fields@,
                before,
                after,
            )
        } else {
            after == before
        },
        ValidationError::FieldOrderingViolation { .. } => {
            &&& keeps_record(before, after)
            &&& no_new_message(before, after)
            &&& texts(after.warnings@) == texts(before.warnings@).push(
                "Attempting to reorder fields"@,
            )
        },
        _ => relaxed(data, before, after, seq!["Attempting relaxed validation"@]),
    }
}

impl RecoveringParser {
    /// The recovery settings.
    pub closed spec fn config(&self) -> ErrorRecovery {
        self.recovery_config
    }

    pub fn new(recovery_config: ErrorRecovery) -> (r: Self)
        ensures
            r.config() == recovery_config,
    {
        RecoveringParser { base_parser: FixParser::new(), recovery_config }
    }

    /// Parses normally; when that fails and partial parses are allowed,
    /// tries the recovery that fits the error.
    pub fn parse_with_recovery(&mut self, data: &[u8]) -> (r: RecoveryResult)
        ensures
            exists|first: Result<FixMessage, FixError>|
                message_parsed(data@, first) && match first {
                    Ok(m) => r.message == Some(m) && r.errors@.len() == 0 && r.warnings@.len()
                        == 0 && r.recovery_attempts == 0,
                    Err(e) => r.errors@ == seq![e] && (!old(self).config().allow_partial_parse
                        ==> r.message is None && r.warnings@.len() == 0 && r.recovery_attempts
                        == 0),
                },
            r.recovery_attempts <= 1,
            r.recovered_fields@.len() <= 1,
            r.skipped_fields@.len() <= 1,
            final(self).config() == old(self).config(),
    {
        let mut result = RecoveryResult {
            message: None,
            errors: Vec::new(),
            warnings: Vec::new(),
            recovered_fields: Vec::new(),
            skipped_fields: Vec::new(),
            recovery_attempts: 0,
        };
        match self.base_parser.parse(data) {
            Ok(message) => {
                result.message = Some(message);
                return result;
            },
            Err(error) => {
                result.errors.push(error.clone());
                if !self.recovery_config.allow_partial_parse {
                    assert(result.errors@ =~= seq![error]);
                    return result;
                }
                self.attempt_recovery(data, &error, &mut result);
                assert(result.errors@ =~= seq![error]);
            },
        }
        result
    }

    /// Tries the recovery that fits the kind of error.
    fn attempt_recovery(&mut self, data: &[u8], error: &FixError, result: &mut RecoveryResult)
        requires
            old(result).recovery_attempts == 0,
            old(result).recovered_fields@.len() == 0,
            old(result).skipped_fields@.len() == 0,
            old(result).message is None,
        ensures
            final(result).errors@ == old(result).errors@,
            final(result).recovery_attempts <= 1,
            final(result).recovered_fields@.len() <= 1,
            final(result).skipped_fields@.len() <= 1,
            final(self).recovery_config == old(self).recovery_config,
            match *error {
                FixError::Parse(e) => parse_error_recovered(
                    old(self).recovery_config,
                    data@,
                    e,
                    *old(result),
                    *final(result),
                ),
                FixError::Validation(e) => validation_error_recovered(
                    old(self).recovery_config,
                    data@,
                    e,
                    *old(result),
                    *final(result),
                ),
                FixError::Session(_) => reconstructed(
                    data@,
                    *old(result),
                    *final(result),
                    seq!["Session error - attempting message reconstruction"@],
                ),
                FixError::Business(_) => relaxed(
                    data@,
                    *old(result),
                    *final(result),
                    seq!["Business error - parsing message with relaxed validation"@],
                ),
            },
    {
        match error {
            FixError::Parse(parse_error) => {
                self.recover_from_parse_error(data, parse_error, result);
                assert(parse_error_recovered(
                    old(self).recovery_config,
                    data@,
                    *parse_error,
                    *old(result),
                    *result,
                ));
            },
            FixError::Validation(validation_error) => {
                self.recover_from_validation_error(data, validation_error, result);
            },
            FixError::Session(_) => {
                push_warning(result, "Session error - attempting message reconstruction");
                attempt_message_reconstruction(data, result);
                assert(texts(result.warnings@) =~= texts(old(result).warnings@) + seq![
                    "Session error - attempting message reconstruction"@,
                ] + reconstruction_notes(data@));
            },
            FixError::Business(_) => {
                let ghost mid = *result;
                push_warning(result, "Business error - parsing message with relaxed validation");
                let ghost mid2 = *result;
                self.parse_with_relaxed_validation(data, result);
                proof {
                    let a = texts(old(result).warnings@) + seq![
                        "Business error - parsing message with relaxed validation"@,
                    ];
                    assert(a =~= texts(mid2.warnings@));
                    assert(texts(mid2.warnings@) + Seq::<Seq<char>>::empty() =~= texts(
                        mid2.warnings@,
                    ));
                }
            },
        }
    }

    /// Recovery from an error in the bytes: ignore a bad checksum (when the
    /// configuration allows), fix the body length, put back lost delimiters,
    /// drop characters that are not printable, or reconstruct what can be.
    fn recover_from_parse_error(
        &mut self,
        data: &[u8],
        error: &ParseError,
        result: &mut RecoveryResult,
    )
        requires
            old(result).recovery_attempts == 0,
            old(result).recovered_fields@.len() == 0,
            old(result).skipped_fields@.len() == 0,
            old(result).message is None,
        ensures
            final(result).errors@ == old(result).errors@,
            final(result).recovery_attempts <= 1,
            final(result).recovered_fields@.len() == 0,
            final(result).skipped_fields@.len() == 0,
            final(self).recovery_config == old(self).recovery_config,
            final(result).message is Some ==> final(result).recovery_attempts == 1,
            parse_error_recovered(
                old(self).recovery_config,
                data@,
                *error,
                *old(result),
                *final(result),
            ),
    {
        match error {
            ParseError::InvalidChecksum { .. } => {
                if self.recovery_config.recover_from_checksum_errors {
                    push_warning(result, "Ignoring checksum validation");
                    let parsed = self.parse_ignoring_checksum(data);
                    let ghost p = parsed;
                    if let Ok(message) = parsed {
                        result.message = Some(message);
                        result.recovery_attempts = result.recovery_attempts + 1;
                    }
                    assert(took_parse(*old(result), *result, p));
                }
            },
            ParseError::InvalidBodyLength { .. } => {
                push_warning(result, "Attempting to parse with corrected body length");
                let parsed = self.parse_with_corrected_body_length(data);
                let ghost p = parsed;
                if let Ok(message) = parsed {
                    result.message = Some(message);
                    result.recovery_attempts = result.recovery_attempts + 1;
                }
                assert(took_parse(*old(result), *result, p));
            },
            ParseError::MissingSoh => {
                push_warning(result, "Attempting to reconstruct SOH delimiters");
                let corrected = reconstruct_soh_delimiters(data);
                let parsed = self.base_parser.parse(corrected.as_slice());
                let ghost p = parsed;
                if let Ok(message) = parsed {
                    result.message = Some(message);
                    result.recovery_attempts = result.recovery_attempts + 1;
                }
                assert(took_parse(*old(result), *result, p));
                assert(message_parsed(resoh_from(data@, 0, false), p));
            },
            ParseError::InvalidCharacter { position, .. } => {
                let w = concat_text(
                    "Skipping invalid character at position ",
                    decimal_string(*position as u64).as_str(),
                );
                proof {
                    lemma_texts_push(result.warnings@, w);
                }
                result.warnings.push(w);
                if let Some(cleaned) = clean_invalid_characters(data) {
                    let parsed = self.base_parser.parse(cleaned.as_slice());
                    let ghost p = parsed;
                    if let Ok(message) = parsed {
                        result.message = Some(message);
                        result.recovery_attempts = result.recovery_attempts + 1;
                    }
                    assert(took_parse(*old(result), *result, p));
                    assert(message_parsed(kept_bytes(data@), p));
                }
            },
            _ => {
                push_warning(result, "Attempting partial message reconstruction");
                attempt_message_reconstruction(data, result);
                assert(texts(result.warnings@) =~= texts(old(result).warnings@) + seq![
                    "Attempting partial message reconstruction"@,
                ] + reconstruction_notes(data@));
            },
        }
    }

    /// Recovery from a rule that the fields break: fill in a missing field,
    /// leave out an invalid one (when the configuration allows), or parse
    /// with relaxed rules.
    fn recover_from_validation_error(
        &mut self,
        data: &[u8],
        error: &ValidationError,
        result: &mut RecoveryResult,
    )
        requires
            old(result).recovery_attempts == 0,
            old(result).recovered_fields@.len() == 0,
            old(result).skipped_fields@.len() == 0,
            old(result).message is None,
        ensures
            final(result).errors@ == old(result).errors@,
            final(result).recovery_attempts <= 1,
            final(result).recovered_fields@.len() <= 1,
            final(result).skipped_fields@.len() <= 1,
            final(self).recovery_config == old(self).recovery_config,
            error matches ValidationError::MissingRequiredField { tag } ==> (
                final(result).message is Some <==> final(result).recovered_fields@ == seq![*tag]),
            error matches ValidationError::InvalidFieldValue { tag, .. } ==> (
                final(result).message is Some <==> final(result).skipped_fields@ == seq![*tag]),
            validation_error_recovered(
                old(self).recovery_config,
                data@,
                *error,
                *old(result),
                *final(result),
            ),
    {
        match error {
            ValidationError::MissingRequiredField { tag } => {
                let w = concat_text(
                    "Attempting to provide default value for missing field ",
                    decimal_string(*tag as u64).as_str(),
                );
                proof {
                    lemma_texts_push(result.warnings@, w);
                }
                result.warnings.push(w);
                let parsed = self.parse_with_default_field(data, *tag);
                let ghost p = parsed;
                if let Ok(message) = parsed {
                    result.message = Some(message);
                    result.recovered_fields.push(*tag);
                    result.recovery_attempts = result.recovery_attempts + 1;
                    assert(result.recovered_fields@ =~= seq![*tag]);
                }
                assert(result.recovered_fields@ == if p is Ok {
                    old(result).recovered_fields@.push(*tag)
                } else {
                    old(result).recovered_fields@
                });
                assert(took_parse(*old(result), *result, p));
                assert(built_from_changed(data@, with_default(*tag), p));
            },
            ValidationError::InvalidFieldValue { tag, .. } => {
                if self.recovery_config.skip_invalid_fields {
                    let w = concat_text(
                        "Skipping invalid field ",
                        decimal_string(*tag as u64).as_str(),
                    );
                    proof {
                        lemma_texts_push(result.warnings@, w);
                    }
                    result.warnings.push(w);
                    let parsed = self.parse_skipping_field(data, *tag);
                    let ghost p = parsed;
                    if let Ok(message) = parsed {
                        result.message = Some(message);
                        result.skipped_fields.push(*tag);
                        result.recovery_attempts = result.recovery_attempts + 1;
                        assert(result.skipped_fields@ =~= seq![*tag]);
                    }
                    assert(result.skipped_fields@ == if p is Ok {
                        old(result).skipped_fields@.push(*tag)
                    } else {
                        old(result).skipped_fields@
                    });
                    assert(took_parse(*old(result), *result, p));
                    assert(built_from_changed(data@, without(*tag), p));
                }
            },
            ValidationError::FieldOrderingViolation { .. } => {
                push_warning(result, "Attempting to reorder fields");
                if let Some(reordered) = reorder_fields(data) {
                    if let Ok(message) = self.base_parser.parse(reordered.as_slice()) {
                        result.message = Some(message);
                        result.recovery_attempts = result.recovery_attempts + 1;
                    }
                }
            },
            _ => {
                push_warning(result, "Attempting relaxed validation");
                let ghost mid = *result;
                self.parse_with_relaxed_validation(data, result);
                proof {
                    assert(texts(old(result).warnings@) + seq!["Attempting relaxed validation"@]
                        =~= texts(mid.warnings@));
                    assert(texts(mid.warnings@) + Seq::<Seq<char>>::empty() =~= texts(
                        mid.warnings@,
                    ));
                }
            },
        }
    }

    /// Parses without the checksum check, which the normal parse does not
    /// make either.
    fn parse_ignoring_checksum(&mut self, data: &[u8]) -> (r: Result<FixMessage, FixError>)
        ensures
            message_parsed(data@, r),
            final(self).recovery_config == old(self).recovery_config,
    {
        self.base_parser.parse(data)
    }

    /// Parses the message with its body length rewritten.
    fn parse_with_corrected_body_length(&mut self, data: &[u8]) -> (r: Result<FixMessage, FixError>)
        ensures
            match corrected_body_length(data@) {
                Some(c) => message_parsed(c, r),
                None => r == Err::<FixMessage, FixError>(FixError::Parse(ParseError::InvalidFormat)),
            },
            final(self).recovery_config == old(self).recovery_config,
    {
        match calculate_correct_body_length(data) {
            Some(corrected) => self.base_parser.parse(corrected.as_slice()),
            None => Err(FixError::Parse(ParseError::InvalidFormat)),
        }
    }

    /// Parses with a stand-in for the missing field `missing_tag`.
    fn parse_with_default_field(&mut self, data: &[u8], missing_tag: u32) -> (r: Result<
        FixMessage,
        FixError,
    >)
        ensures
            built_from_changed(data@, with_default(missing_tag), r),
            final(self).recovery_config == old(self).recovery_config,
    {
        let raw_fields = match self.base_parser.raw_parser.parse(data) {
            Ok(f) => f,
            Err(e) => {
                return Err(FixError::Parse(e));
            },
        };
        let mut fields = match self.base_parser.type_fields(&raw_fields) {
            Ok(m) => m,
            Err(e) => {
                return Err(e);
            },
        };
        let ghost m = fields@;
        if let Some(default_field) = create_default_field(missing_tag) {
            fields.insert(missing_tag, default_field);
        }
        let ghost m2 = fields@;
        let r = self.base_parser.message_builder.build_message(fields);
        proof {
            if has_default_field(missing_tag) {
                assert(m2.dom() =~= m.dom().insert(missing_tag));
            } else {
                assert(m2 == m);
            }
        }
        r
    }

    /// Parses with the field `skip_tag` left out.
    fn parse_skipping_field(&mut self, data: &[u8], skip_tag: u32) -> (r: Result<
        FixMessage,
        FixError,
    >)
        ensures
            built_from_changed(data@, without(skip_tag), r),
            final(self).recovery_config == old(self).recovery_config,
    {
        let raw_fields = match self.base_parser.raw_parser.parse(data) {
            Ok(f) => f,
            Err(e) => {
                return Err(FixError::Parse(e));
            },
        };
        let mut fields = match self.base_parser.type_fields(&raw_fields) {
            Ok(m) => m,
            Err(e) => {
                return Err(e);
            },
        };
        let ghost m = fields@;
        fields.remove(&skip_tag);
        assert(fields@ =~= m.remove(skip_tag));
        self.base_parser.message_builder.build_message(fields)
    }

    /// Types the fields one by one, noting each that fails, and notes the
    /// message type when it can be read.
    fn parse_with_relaxed_validation(&mut self, data: &[u8], result: &mut RecoveryResult)
        requires
            old(result).recovery_attempts == 0,
        ensures
            final(result).errors@ == old(result).errors@,
            final(result).message == old(result).message,
            final(result).recovered_fields@ == old(result).recovered_fields@,
            final(result).skipped_fields@ == old(result).skipped_fields@,
            final(result).recovery_attempts == (if parsed_fields(data@) is Ok {
                1u32
            } else {
                0u32
            }),
            relaxed(data@, *old(result), *final(result), Seq::empty()),
            final(self).recovery_config == old(self).recovery_config,
    {
        if let Ok(raw_fields) = self.base_parser.raw_parser.parse(data) {
            let mut fields: HashMap<u32, FixField> = HashMap::new();
            let mut i: usize = 0;
            while i < raw_fields.len()
                invariant
                    i <= raw_fields@.len(),
                    result.errors@ == old(result).errors@,
                    result.message == old(result).message,
                    result.recovered_fields@ == old(result).recovered_fields@,
                    result.skipped_fields@ == old(result).skipped_fields@,
                    result.recovery_attempts == old(result).recovery_attempts,
                    texts(old(result).warnings@).is_prefix_of(texts(result.warnings@)),
                decreases raw_fields.len() - i,
            {
                let raw = RawField { tag: raw_fields[i].tag, value: raw_fields[i].value };
                match self.base_parser.field_parser.parse_field(raw) {
                    Ok(field) => {
                        fields.insert(field.tag, field);
                    },
                    Err(e) => {
                        let w = concat_text("Failed to parse field: ", e.to_text().as_str());
                        proof {
                            lemma_prefix_push(texts(old(result).warnings@), result.warnings@, w);
                        }
                        result.warnings.push(w);
                    },
                }
                i = i + 1;
            }
            if let Some(msg_type_field) = fields.get(&35) {
                if let Some(msg_type_str) = msg_type_field.as_string() {
                    if MessageType::from_str(msg_type_str).is_some() {
                        let w = concat_text(
                            concat_text("Partially parsed ", msg_type_str).as_str(),
                            " message",
                        );
                        proof {
                            lemma_prefix_push(texts(old(result).warnings@), result.warnings@, w);
                        }
                        result.warnings.push(w);
                    }
                }
            }
            result.recovery_attempts = result.recovery_attempts + 1;
        }
        proof {
            assert(texts(old(result).warnings@) + Seq::<Seq<char>>::empty() =~= texts(
                old(result).warnings@,
            ));
            assert(texts(old(result).warnings@).is_prefix_of(texts(result.warnings@))) by {
                assert(texts(old(result).warnings@).subrange(
                    0,
                    texts(old(result).warnings@).len() as int,
                ) =~= texts(old(result).warnings@));
            }
        }
    }
}

/// Appends a fixed warning.
fn push_warning(result: &mut RecoveryResult, text: &str)
    ensures
        final(result).warnings@.len() == old(result).warnings@.len() + 1,
        final(result).warnings@.last()@ == text@,
        texts(final(result).warnings@) == texts(old(result).warnings@).push(text@),
        final(result).errors@ == old(result).errors@,
        final(result).message == old(result).message,
        final(result).recovered_fields@ == old(result).recovered_fields@,
        final(result).skipped_fields@ == old(result).skipped_fields@,
        final(result).recovery_attempts == old(result).recovery_attempts,
{
    let w = text.to_owned();
    proof {
        lemma_texts_push(result.warnings@, w);
    }
    result.warnings.push(w);
}

/// Notes which kind of message the bytes look like: a new order, an
/// execution report or a heartbeat, by the text of its type field.
fn attempt_message_reconstruction(data: &[u8], result: &mut RecoveryResult)
    requires
        old(result).recovery_attempts == 0,
    ensures
        final(result).errors@ == old(result).errors@,
        final(result).message == old(result).message,
        final(result).recovered_fields@ == old(result).recovered_fields@,
        final(result).skipped_fields@ == old(result).skipped_fields@,
        final(result).recovery_attempts == 1,
        final(result).warnings@.len() >= old(result).warnings@.len() + 1,
        reconstructed(data@, *old(result), *final(result), Seq::empty()),
{
    push_warning(result, "Attempting message reconstruction from fragments");
    proof {
        reveal_strlit("Attempting message reconstruction from fragments");
        reveal_strlit("Detected New Order Single message");
        reveal_strlit("Detected Execution Report message");
        reveal_strlit("Detected Heartbeat message");
    }
    let ghost after_first = texts(result.warnings@);
    if contains_bytes(data, 51, 53, 61, 68) {
        push_warning(result, "Detected New Order Single message");
    } else if contains_bytes(data, 51, 53, 61, 56) {
        push_warning(result, "Detected Execution Report message");
    } else if contains_bytes(data, 51, 53, 61, 48) {
        push_warning(result, "Detected Heartbeat message");
    }
    result.recovery_attempts = result.recovery_attempts + 1;
    proof {
        assert(texts(result.warnings@) =~= texts(old(result).warnings@) + Seq::<Seq<char>>::empty()
            + reconstruction_notes(data@));
    }
}

/// The four bytes `a b c d` stand at `i`.
pub open spec fn quad_at(s: Seq<u8>, i: int, a: u8, b: u8, c: u8, d: u8) -> bool {
    0 <= i && i + 3 < s.len() && s[i] == a && s[i + 1] == b && s[i + 2] == c && s[i + 3] == d
}

/// Whether the four bytes `a b c d` occur in `data`.
fn contains_bytes(data: &[u8], a: u8, b: u8, c: u8, d: u8) -> (r: bool)
    ensures
        r == exists|i: int| quad_at(data@, i, a, b, c, d),
{
    if data.len() < 4 {
        return false;
    }
    let mut i: usize = 0;
    while i + 3 < data.len()
        invariant
            i + 3 <= data@.len(),
            data@.len() >= 4,
            forall|j: int| 0 <= j < i ==> !quad_at(data@, j, a, b, c, d),
        decreases data.len() - i,
    {
        if data[i] == a && data[i + 1] == b && data[i + 2] == c && data[i + 3] == d {
            assert(quad_at(data@, i as int, a, b, c, d));
            return true;
        }
        i = i + 1;
    }
    false
}

/// The first position of the bytes `a`, `b`.
fn first_pair_position(data: &[u8], a: u8, b: u8) -> (r: Option<usize>)
    ensures
        match r {
            Some(p) => pair_at(data@, p as int, a, b) && forall|j: int|
                0 <= j < p ==> !pair_at(data@, j, a, b),
            None => forall|j: int| !pair_at(data@, j, a, b),
        },
{
    let mut p: usize = 0;
    while p < data.len()
        invariant
            p <= data@.len(),
            forall|j: int| 0 <= j < p ==> !pair_at(data@, j, a, b),
        decreases data.len() - p,
    {
        if data.len() - p > 1 && data[p] == a && data[p + 1] == b {
            return Some(p);
        }
        p = p + 1;
    }
    None
}

/// The first SOH at or after `start`.
fn first_soh_position(data: &[u8], start: usize) -> (r: Option<usize>)
    ensures
        match r {
            Some(p) => start <= p < data@.len() && data@[p as int] == 1 && forall|j: int|
                start <= j < p ==> data@[j] != 1,
            None => forall|j: int| start <= j < data@.len() ==> data@[j] != 1,
        },
{
    let mut p: usize = start;
    while p < data.len()
        invariant
            start <= p,
            p <= data@.len() || p == start,
            forall|j: int| start <= j < p && j < data@.len() ==> data@[j] != 1,
        decreases data.len() - p,
    {
        if data[p] == 1 {
            return Some(p);
        }
        p = p + 1;
    }
    None
}

/// The last position of `10=`.
fn last_checksum_position(data: &[u8]) -> (r: Option<usize>)
    ensures
        match r {
            Some(c) => checksum_tag_at(data@, c as int) && forall|j: int|
                c < j ==> !checksum_tag_at(data@, j),
            None => forall|j: int| !checksum_tag_at(data@, j),
        },
{
    let mut c: usize = data.len();
    while c > 0
        invariant
            c <= data@.len(),
            forall|j: int| c <= j ==> !checksum_tag_at(data@, j),
        decreases c,
    {
        let k = c - 1;
        if data.len() - k > 2 && data[k] == 49 && data[k + 1] == 48 && data[k + 2] == 61 {
            return Some(k);
        }
        c = k;
    }
    None
}

/// The message with its body length field rewritten.
fn calculate_correct_body_length(data: &[u8]) -> (r: Option<Vec<u8>>)
    ensures
        match corrected_body_length(data@) {
            Some(c) => r matches Some(v) && v@ == c,
            None => r is None,
        },
{
    let p = match first_pair_position(data, 57, 61) {
        Some(p) => p,
        None => {
            return None;
        },
    };
    assert(first_body_length_tag(data@) == p as int) by {
        let c = first_body_length_tag(data@);
        if c < p {
        }
        if c > p {
        }
    }
    let soh = match first_soh_position(data, p) {
        Some(x) => x,
        None => {
            return None;
        },
    };
    assert(first_soh_from(data@, p as int) == soh as int) by {
        let c = first_soh_from(data@, p as int);
        if c < soh {
        }
        if c > soh {
        }
    }
    assert(data@.len() == data.len());
    let body_start = soh + 1;
    let c = match last_checksum_position(data) {
        Some(x) => x,
        None => {
            return None;
        },
    };
    assert(last_checksum_tag(data@) == c as int) by {
        let x = last_checksum_tag(data@);
        if x < c {
        }
        if x > c {
        }
    }
    if c < body_start {
        return None;
    }
    let mut corrected: Vec<u8> = Vec::new();
    let mut i: usize = 0;
    while i < p
        invariant
            i <= p,
            p < data@.len(),
            corrected@ == data@.subrange(0, i as int),
        decreases p - i,
    {
        corrected.push(data[i]);
        i = i + 1;
        assert(corrected@ =~= data@.subrange(0, i as int));
    }
    corrected.push(57);
    corrected.push(61);
    let length_digits = decimal_bytes_of((c - body_start) as u64);
    let mut k: usize = 0;
    let ghost before = corrected@;
    while k < length_digits.len()
        invariant
            k <= length_digits@.len(),
            corrected@ == before + length_digits@.subrange(0, k as int),
        decreases length_digits.len() - k,
    {
        corrected.push(length_digits[k]);
        k = k + 1;
        assert(corrected@ =~= before + length_digits@.subrange(0, k as int));
    }
    corrected.push(1);
    let mut j: usize = body_start;
    let ghost mid = corrected@;
    while j < data.len()
        invariant
            body_start <= j <= data@.len(),
            corrected@ == mid + data@.subrange(body_start as int, j as int),
        decreases data.len() - j,
    {
        corrected.push(data[j]);
        j = j + 1;
        assert(corrected@ =~= mid + data@.subrange(body_start as int, j as int));
    }
    proof {
        assert(length_digits@.subrange(0, k as int) =~= length_digits@);
        assert(corrected@ =~= data@.subrange(0, p as int) + seq![57u8, 61u8] + decimal_bytes(
            (c - body_start) as nat,
        ) + seq![1u8] + data@.subrange(body_start as int, data@.len() as int));
    }
    Some(corrected)
}

/// The bytes with lost delimiters put back.
fn reconstruct_soh_delimiters(data: &[u8]) -> (r: Vec<u8>)
    ensures
        r@ == resoh_from(data@, 0, false),
{
    let mut result: Vec<u8> = Vec::new();
    let mut in_value = false;
    let mut i: usize = 0;
    while i < data.len()
        invariant
            i <= data@.len(),
            result@ + resoh_from(data@, i as int, in_value) == resoh_from(data@, 0, false),
        decreases data.len() - i,
    {
        let byte = data[i];
        let ghost old_result = result@;
        let ghost old_in = in_value;
        if byte == 61 {
            in_value = true;
            result.push(byte);
        } else if in_value && byte >= 48 && byte <= 57 && i + 1 < data.len() && data[i + 1] == 61 {
            result.push(byte);
            result.push(1);
            in_value = false;
        } else {
            result.push(byte);
        }
        proof {
            let tail = resoh_from(data@, i + 1, in_value);
            if byte == 61 {
                assert(resoh_from(data@, i as int, old_in) == seq![byte] + tail);
                assert(result@ + tail =~= old_result + (seq![byte] + tail));
            } else if old_in && 48 <= byte <= 57 && i + 1 < data@.len() && data@[i + 1] == 61 {
                assert(resoh_from(data@, i as int, old_in) == seq![byte, 1u8] + tail);
                assert(result@ + tail =~= old_result + (seq![byte, 1u8] + tail));
            } else {
                assert(resoh_from(data@, i as int, old_in) == seq![byte] + tail);
                assert(result@ + tail =~= old_result + (seq![byte] + tail));
            }
        }
        i = i + 1;
    }
    assert(result@ + resoh_from(data@, i as int, in_value) =~= result@);
    result
}

/// The bytes without the characters that are neither printable ASCII nor
/// SOH, or `None` when there were none to drop.
fn clean_invalid_characters(data: &[u8]) -> (r: Option<Vec<u8>>)
    ensures
        match r {
            Some(v) => v@ == kept_bytes(data@) && exists|i: int|
                0 <= i < data@.len() && !is_kept_byte(#[trigger] data@[i]),
            None => forall|i: int| 0 <= i < data@.len() ==> is_kept_byte(#[trigger] data@[i]),
        },
{
    let mut cleaned: Vec<u8> = Vec::new();
    let mut i: usize = 0;
    while i < data.len()
        invariant
            i <= data@.len(),
            cleaned@ == kept_bytes(data@.subrange(0, i as int)),
        decreases data.len() - i,
    {
        let byte = data[i];
        proof {
            assert(data@.subrange(0, i + 1).drop_last() =~= data@.subrange(0, i as int));
        }
        if byte == 1 || (byte >= 0x20 && byte <= 0x7e) {
            cleaned.push(byte);
        }
        i = i + 1;
    }
    assert(data@.subrange(0, i as int) =~= data@);
    proof {
        lemma_kept_len(data@);
    }
    if cleaned.len() != data.len() {
        Some(cleaned)
    } else {
        None
    }
}

/// The stand-in for a missing required field.
fn create_default_field(tag: u32) -> (r: Option<FixField>)
    ensures
        match r {
            Some(f) => has_default_field(tag) && default_field_for(tag, f),
            None => !has_default_field(tag),
        },
{
    match tag {
        11 => Some(FixField { tag, value: FieldValue::String("DEFAULT".to_owned()) }),
        21 => Some(FixField { tag, value: FieldValue::Char('1') }),
        38 => Some(FixField { tag, value: FieldValue::Int(1) }),
        40 => Some(FixField { tag, value: FieldValue::Char('1') }),
        54 => Some(FixField { tag, value: FieldValue::Char('1') }),
        55 => Some(FixField { tag, value: FieldValue::String("UNKNOWN".to_owned()) }),
        _ => None,
    }
}

/// Field reordering is not implemented: there is never a reordered message.
fn reorder_fields(data: &[u8]) -> (r: Option<Vec<u8>>)
    ensures
        r is None,
{
    None
}

} // verus!
