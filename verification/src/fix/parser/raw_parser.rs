//! Splitting a FIX message into its `tag=value` fields, and the two framing
//! checks: the checksum in the trailer and the declared body length.

use crate::fix::error::ParseError;
use crate::text::{
    all_digits, digits_value, find_byte, find_byte_from, lemma_find_byte, lemma_find_byte_bounds,
    parse_unsigned, unsigned_within,
};
use vstd::prelude::*;

verus! {

/// The field delimiter, SOH.
pub const SOH: u8 = 1u8;

/// One field as it stands in the message: the bytes before the `=` and the
/// bytes between the `=` and the SOH that ends it.
#[derive(Debug, Clone)]
pub struct RawField<'a> {
    pub tag: &'a [u8],
    pub value: &'a [u8],
}

pub struct RawParser;

/// The fields of `s`: each is the bytes up to the next `=`, then the bytes
/// up to the next SOH after it. Without an `=` the message is malformed;
/// without the SOH after it, the delimiter is missing.
pub open spec fn split_fields(s: Seq<u8>) -> Result<Seq<(Seq<u8>, Seq<u8>)>, ParseError>
    decreases s.len(),
{
    if s.len() == 0 {
        Ok(Seq::empty())
    } else {
        let e = find_byte(s, 61);
        if e >= s.len() || e < 0 {
            Err(ParseError::InvalidFormat)
        } else {
            let rest = s.subrange(e + 1, s.len() as int);
            let k = find_byte(rest, SOH);
            if k >= rest.len() || k < 0 {
                Err(ParseError::MissingSoh)
            } else {
                match split_fields(rest.subrange(k + 1, rest.len() as int)) {
                    Ok(fs) => Ok(seq![(s.subrange(0, e), rest.subrange(0, k))] + fs),
                    Err(x) => Err(x),
                }
            }
        }
    }
}

/// The bytes of fields written out: each tag, `=`, its value and SOH.
pub open spec fn joined(fs: Seq<(Seq<u8>, Seq<u8>)>) -> Seq<u8>
    decreases fs.len(),
{
    if fs.len() == 0 {
        Seq::empty()
    } else {
        fs[0].0 + seq![61u8] + fs[0].1 + seq![SOH] + joined(fs.drop_first())
    }
}

/// No byte of `s` is `b`.
pub open spec fn free_of(s: Seq<u8>, b: u8) -> bool {
    forall|j: int| 0 <= j < s.len() ==> #[trigger] s[j] != b
}

/// No tag holds `=` and no value holds SOH.
pub open spec fn cleanly_split(fs: Seq<(Seq<u8>, Seq<u8>)>) -> bool {
    forall|i: int| 0 <= i < fs.len() ==> free_of(#[trigger] fs[i].0, 61u8) && free_of(fs[i].1, SOH)
}

/// A message parses into the fields `fs` exactly when it is not empty and
/// is those fields written out, with no `=` in a tag and no SOH in a value;
/// so the fields of a message are determined by its bytes.
pub proof fn lemma_parse_round_trip(s: Seq<u8>, fs: Seq<(Seq<u8>, Seq<u8>)>)
    ensures
        parsed_fields(s) == Ok::<Seq<(Seq<u8>, Seq<u8>)>, ParseError>(fs) <==> (s.len() > 0
            && joined(fs) == s && cleanly_split(fs)),
{
    lemma_split_joins(s);
    lemma_joined_splits(fs);
}

proof fn lemma_split_joins(s: Seq<u8>)
    ensures
        split_fields(s) matches Ok(found) ==> joined(found) == s && cleanly_split(found),
    decreases s.len(),
{
    if s.len() > 0 {
        let e = find_byte(s, 61);
        lemma_find_byte_bounds(s, 61);
        if 0 <= e < s.len() {
            let rest = s.subrange(e + 1, s.len() as int);
            let k = find_byte(rest, SOH);
            lemma_find_byte_bounds(rest, SOH);
            if 0 <= k < rest.len() {
                let tail = rest.subrange(k + 1, rest.len() as int);
                lemma_split_joins(tail);
                if let Ok(fs2) = split_fields(tail) {
                    let found = seq![(s.subrange(0, e), rest.subrange(0, k))] + fs2;
                    assert(found.drop_first() =~= fs2);
                    assert(found[0] == (s.subrange(0, e), rest.subrange(0, k)));
                    assert(joined(found) =~= s);
                    assert forall|i: int| 0 <= i < found.len() implies free_of(
                        #[trigger] found[i].0,
                        61u8,
                    ) && free_of(found[i].1, SOH) by {
                        if i > 0 {
                            assert(found[i] == fs2[i - 1]);
                        }
                    }
                }
            }
        }
    }
}

proof fn lemma_joined_splits(fs: Seq<(Seq<u8>, Seq<u8>)>)
    ensures
        cleanly_split(fs) ==> split_fields(joined(fs)) == Ok::<
            Seq<(Seq<u8>, Seq<u8>)>,
            ParseError,
        >(fs),
    decreases fs.len(),
{
    if fs.len() == 0 {
        assert(joined(fs) =~= Seq::<u8>::empty());
        assert(fs =~= Seq::<(Seq<u8>, Seq<u8>)>::empty());
    } else if cleanly_split(fs) {
        let d = fs.drop_first();
        assert(cleanly_split(d)) by {
            assert forall|i: int| 0 <= i < d.len() implies free_of(#[trigger] d[i].0, 61u8)
                && free_of(d[i].1, SOH) by {
                assert(d[i] == fs[i + 1]);
            }
        }
        lemma_joined_splits(d);
        let t = fs[0].0;
        let v = fs[0].1;
        let s = joined(fs);
        let jd = joined(d);
        assert(s =~= t + seq![61u8] + v + seq![SOH] + jd);
        assert(free_of(t, 61u8)) by {
            assert(cleanly_split(fs) && 0 < fs.len());
            assert(free_of(fs[0].0, 61u8));
        }
        assert forall|j: int| 0 <= j < t.len() implies s[j] != 61u8 by {
            assert(s[j] == t[j]);
        }
        lemma_find_byte(s, 61, t.len() as int);
        let rest = s.subrange(t.len() as int + 1, s.len() as int);
        assert(rest =~= v + seq![SOH] + jd);
        assert(free_of(v, SOH)) by {
            assert(free_of(fs[0].1, SOH));
        }
        assert forall|j: int| 0 <= j < v.len() implies rest[j] != SOH by {
            assert(rest[j] == v[j]);
        }
        lemma_find_byte(rest, SOH, v.len() as int);
        assert(rest.subrange(v.len() as int + 1, rest.len() as int) =~= jd);
        assert(s.subrange(0, t.len() as int) =~= t);
        assert(rest.subrange(0, v.len() as int) =~= v);
        assert(seq![(t, v)] + d =~= fs);
    }
}

/// The tag and value bytes of each raw field.
pub open spec fn field_views<'a>(v: Seq<RawField<'a>>) -> Seq<(Seq<u8>, Seq<u8>)> {
    v.map_values(|f: RawField<'a>| (f.tag@, f.value@))
}

/// What `RawParser::parse` gives for `s`.
pub open spec fn parsed_fields(s: Seq<u8>) -> Result<Seq<(Seq<u8>, Seq<u8>)>, ParseError> {
    if s.len() == 0 {
        Err(ParseError::InvalidFormat)
    } else {
        split_fields(s)
    }
}

/// The sum of the bytes of `s`, modulo 256: the FIX checksum.
pub open spec fn byte_sum(s: Seq<u8>) -> nat
    decreases s.len(),
{
    if s.len() == 0 {
        0
    } else {
        ((byte_sum(s.drop_last()) + s.last()) % 256) as nat
    }
}

/// `i` is an SOH that some later SOH follows, and the bytes after it begin
/// with `10=` with at least one more byte behind them.
pub open spec fn is_trailer_soh(s: Seq<u8>, i: int) -> bool {
    &&& 0 <= i < s.len()
    &&& s[i] == SOH
    &&& i + 4 < s.len()
    &&& s[i + 1] == 49
    &&& s[i + 2] == 48
    &&& s[i + 3] == 61
    &&& exists|j: int| i < j < s.len() && s[j] == SOH
}

/// The checksum written in the trailer field: the three bytes after `10=`,
/// read the way `u8::from_str_radix(_, 10)` reads them.
pub open spec fn written_checksum(field: Seq<u8>) -> Option<nat> {
    if field.len() < 6 || field[0] != 49 || field[1] != 48 || field[2] != 61 {
        None
    } else {
        unsigned_within(field.subrange(3, 6), 255)
    }
}

/// The bytes that the two leading fields take up, delimiters included.
pub open spec fn leading_fields_len(fs: Seq<(Seq<u8>, Seq<u8>)>) -> int {
    (fs[0].0.len() + 1 + fs[0].1.len() + 1 + fs[1].0.len() + 1 + fs[1].1.len() + 1) as int
}

/// The message is long enough for the length of its body (all but the two
/// leading fields and a seven-byte trailer) to be taken.
pub open spec fn body_length_computable(s: Seq<u8>) -> bool {
    match parsed_fields(s) {
        Ok(fs) => fs.len() >= 2 ==> leading_fields_len(fs) + 7 <= s.len(),
        Err(_) => true,
    }
}

/// The position of the SOH that opens the trailer: the last one at which
/// `is_trailer_soh` holds.
pub open spec fn last_trailer_soh(s: Seq<u8>) -> int {
    choose|i: int| is_trailer_soh(s, i) && forall|j: int| i < j ==> !is_trailer_soh(s, j)
}

/// What `RawParser::validate_checksum` decides for `s`: the sum of the bytes
/// before the trailer field must equal the checksum that the trailer writes.
pub open spec fn checksum_check(s: Seq<u8>) -> Result<(), ParseError> {
    if s.len() < 7 || !(exists|i: int| is_trailer_soh(s, i)) {
        Err(ParseError::InvalidFormat)
    } else {
        let p = last_trailer_soh(s) + 1;
        let computed = byte_sum(s.subrange(0, p));
        match written_checksum(s.subrange(p, s.len() as int)) {
            None => Err(ParseError::InvalidFormat),
            Some(w) => if w == computed {
                Ok(())
            } else {
                Err(ParseError::InvalidChecksum { expected: w as u8, actual: computed as u8 })
            },
        }
    }
}

/// What `RawParser::validate_body_length` decides for `s`: the second field
/// must be tag 9 holding a number, and that number must equal the length of
/// the message without its two leading fields and a seven-byte trailer.
pub open spec fn body_length_check(s: Seq<u8>) -> Result<(), ParseError> {
    match parsed_fields(s) {
        Err(e) => Err(e),
        Ok(fs) => if fs.len() < 2 || fs[1].0 != seq![57u8] {
            Err(ParseError::InvalidFormat)
        } else {
            match unsigned_within(fs[1].1, usize::MAX as nat) {
                None => Err(ParseError::InvalidFormat),
                Some(declared) => {
                    let actual = s.len() - leading_fields_len(fs) - 7;
                    if declared == actual {
                        Ok(())
                    } else {
                        Err(
                            ParseError::InvalidBodyLength {
                                expected: declared as usize,
                                actual: actual as usize,
                            },
                        )
                    }
                },
            }
        },
    }
}

impl RawParser {
    pub fn new() -> (r: Self) {
        RawParser
    }

    /// Splits a message into its fields.
    pub fn parse<'a>(&self, data: &'a [u8]) -> (r: Result<Vec<RawField<'a>>, ParseError>)
        ensures
            match parsed_fields(data@) {
                Ok(fs) => r matches Ok(v) && field_views(v@) == fs,
                Err(e) => r == Err::<Vec<RawField<'a>>, ParseError>(e),
            },
            r matches Ok(v) ==> v@.len() > 0,
    {
        if data.len() == 0 {
            return Err(ParseError::InvalidFormat);
        }
        let mut fields: Vec<RawField<'a>> = Vec::new();
        let mut pos: usize = 0;
        proof {
            assert(data@.subrange(0, data@.len() as int) =~= data@);
            assert(field_views(fields@) =~= Seq::<(Seq<u8>, Seq<u8>)>::empty());
            match split_fields(data@) {
                Ok(fs) => {
                    assert(field_views(fields@) + fs =~= fs);
                },
                Err(_) => {},
            }
        }
        while pos < data.len()
            invariant
                pos <= data@.len(),
                data@.len() > 0,
                match split_fields(data@.subrange(pos as int, data@.len() as int)) {
                    Ok(fs) => split_fields(data@) == Ok::<Seq<(Seq<u8>, Seq<u8>)>, ParseError>(
                        field_views(fields@) + fs,
                    ),
                    Err(e) => split_fields(data@) == Err::<Seq<(Seq<u8>, Seq<u8>)>, ParseError>(
                        e,
                    ),
                },
                pos > 0 ==> fields@.len() > 0,
            decreases data.len() - pos,
        {
            let ghost p = pos as int;
            let ghost suffix = data@.subrange(p, data@.len() as int);
            let equals_pos = find_byte_from(data, pos, 61);
            if equals_pos >= data.len() {
                return Err(ParseError::InvalidFormat);
            }
            let tag = &data[pos..equals_pos];
            let value_start = equals_pos + 1;
            let soh_pos = find_byte_from(data, value_start, SOH);
            let ghost e = equals_pos - p;
            let ghost rest = suffix.subrange(e + 1, suffix.len() as int);
            assert(rest =~= data@.subrange(value_start as int, data@.len() as int));
            if soh_pos >= data.len() {
                return Err(ParseError::MissingSoh);
            }
            let value = &data[value_start..soh_pos];
            let ghost old_fields = fields@;
            fields.push(RawField { tag, value });
            pos = soh_pos + 1;
            proof {
                let k = soh_pos - value_start;
                assert(rest.subrange(k + 1, rest.len() as int) =~= data@.subrange(
                    pos as int,
                    data@.len() as int,
                ));
                assert(suffix.subrange(0, e) =~= tag@);
                assert(rest.subrange(0, k) =~= value@);
                assert(field_views(fields@) =~= field_views(old_fields) + seq![(tag@, value@)]);
                match split_fields(data@.subrange(pos as int, data@.len() as int)) {
                    Ok(fs) => {
                        assert(field_views(fields@) + fs =~= field_views(old_fields) + (seq![
                            (tag@, value@),
                        ] + fs));
                    },
                    Err(x) => {},
                }
            }
        }
        proof {
            assert(data@.subrange(pos as int, data@.len() as int) =~= Seq::<u8>::empty());
            assert(field_views(fields@) + Seq::<(Seq<u8>, Seq<u8>)>::empty() =~= field_views(
                fields@,
            ));
        }
        Ok(fields)
    }

    /// Checks the checksum in the trailer against the bytes before it.
    pub fn validate_checksum(&self, data: &[u8]) -> (r: Result<(), ParseError>)
        ensures
            r == checksum_check(data@),
    {
        if data.len() < 7 {
            return Err(ParseError::InvalidFormat);
        }
        let checksum_start = match self.find_last_checksum_position(data) {
            Ok(p) => p,
            Err(e) => {
                return Err(e);
            },
        };
        proof {
            let c = last_trailer_soh(data@);
            assert(is_trailer_soh(data@, checksum_start - 1));
            assert(is_trailer_soh(data@, c) && forall|j: int| c < j ==> !is_trailer_soh(data@, j));
            if c < checksum_start - 1 {
            } else if c > checksum_start - 1 {
            }
            assert(c == checksum_start - 1);
        }
        let message_body = &data[0..checksum_start];
        let checksum_field = &data[checksum_start..data.len()];
        let calculated_checksum = self.calculate_checksum(message_body);
        let expected_checksum = match self.extract_checksum(checksum_field) {
            Ok(c) => c,
            Err(e) => {
                return Err(e);
            },
        };
        if calculated_checksum != expected_checksum {
            return Err(
                ParseError::InvalidChecksum {
                    expected: expected_checksum,
                    actual: calculated_checksum,
                },
            );
        }
        Ok(())
    }

    /// The position just after the SOH that opens the trailer field.
    pub fn find_last_checksum_position(&self, data: &[u8]) -> (r: Result<usize, ParseError>)
        ensures
            r matches Ok(p) ==> p >= 1 && is_trailer_soh(data@, p - 1) && forall|j: int|
                p - 1 < j ==> !is_trailer_soh(data@, j),
            r is Err ==> r == Err::<usize, ParseError>(ParseError::InvalidFormat) && forall|i: int|
                !is_trailer_soh(data@, i),
    {
        let mut seen_soh = false;
        let mut i: usize = data.len();
        while i > 0
            invariant
                i <= data@.len(),
                seen_soh == exists|j: int| i <= j < data@.len() && data@[j] == SOH,
                forall|k: int| i <= k ==> !is_trailer_soh(data@, k),
            decreases i,
        {
            let idx = i - 1;
            if data[idx] == SOH {
                if seen_soh && data.len() - idx > 4 && data[idx + 1] == 49 && data[idx + 2] == 48
                    && data[idx + 3] == 61 {
                    return Ok(idx + 1);
                }
                proof {
                    if !seen_soh {
                        assert(!is_trailer_soh(data@, idx as int));
                    }
                }
                seen_soh = true;
            }
            i = idx;
        }
        Err(ParseError::InvalidFormat)
    }

    /// The sum of the bytes modulo 256.
    pub fn calculate_checksum(&self, data: &[u8]) -> (r: u8)
        ensures
            r == byte_sum(data@),
    {
        let mut acc: u8 = 0;
        let mut i: usize = 0;
        while i < data.len()
            invariant
                i <= data@.len(),
                acc == byte_sum(data@.subrange(0, i as int)),
            decreases data.len() - i,
        {
            proof {
                assert(data@.subrange(0, i + 1).drop_last() =~= data@.subrange(0, i as int));
            }
            acc = ((acc as u32 + data[i] as u32) % 256) as u8;
            i = i + 1;
        }
        assert(data@.subrange(0, i as int) =~= data@);
        acc
    }

    /// The checksum that a trailer field writes: three digits after `10=`.
    pub fn extract_checksum(&self, checksum_field: &[u8]) -> (r: Result<u8, ParseError>)
        ensures
            r == (match written_checksum(checksum_field@) {
                Some(v) => Ok::<u8, ParseError>(v as u8),
                None => Err(ParseError::InvalidFormat),
            }),
    {
        if checksum_field.len() < 6 || checksum_field[0] != 49 || checksum_field[1] != 48
            || checksum_field[2] != 61 {
            return Err(ParseError::InvalidFormat);
        }
        match parse_unsigned(&checksum_field[3..6], 255) {
            Some(v) => Ok(v as u8),
            None => Err(ParseError::InvalidFormat),
        }
    }

    /// Checks the declared body length against the length of the message.
    pub fn validate_body_length(&self, data: &[u8]) -> (r: Result<(), ParseError>)
        requires
            body_length_computable(data@),
        ensures
            r == body_length_check(data@),
    {
        let fields = match self.parse(data) {
            Ok(f) => f,
            Err(e) => {
                return Err(e);
            },
        };
        if fields.len() < 2 {
            return Err(ParseError::InvalidFormat);
        }
        let ghost fs = field_views(fields@);
        assert(fs[1] == (fields@[1].tag@, fields@[1].value@));
        assert(fs[0] == (fields@[0].tag@, fields@[0].value@));
        let body_length_field = &fields[1];
        if body_length_field.tag.len() != 1 || body_length_field.tag[0] != 57 {
            proof {
                if fs[1].0 == seq![57u8] {
                    assert(fs[1].0[0] == 57);
                }
            }
            return Err(ParseError::InvalidFormat);
        }
        assert(fs[1].0 =~= seq![57u8]);
        let declared_length = match parse_unsigned(body_length_field.value, usize::MAX as u64) {
            Some(v) => v as usize,
            None => {
                return Err(ParseError::InvalidFormat);
            },
        };
        assert(parsed_fields(data@) == Ok::<Seq<(Seq<u8>, Seq<u8>)>, ParseError>(fs));
        assert(leading_fields_len(fs) + 7 <= data@.len());
        let first = &fields[0];
        assert(first.tag@ == fs[0].0 && first.value@ == fs[0].1);
        let l0 = first.tag.len();
        let l1 = first.value.len();
        let l2 = body_length_field.tag.len();
        let l3 = body_length_field.value.len();
        assert(l0 == fs[0].0.len());
        assert(l1 == fs[0].1.len());
        assert(l2 == fs[1].0.len());
        assert(l3 == fs[1].1.len());
        assert(l0 + l1 + l2 + l3 + 4 + 7 <= data@.len());
        assert(data@.len() == data.len());
        let begin_string_len = l0 + 1 + l1 + 1;
        let body_length_len = l2 + 1 + l3 + 1;
        let header_len = begin_string_len + body_length_len;
        let trailer_len: usize = 7;
        let actual_length = data.len() - header_len - trailer_len;
        if declared_length != actual_length {
            return Err(
                ParseError::InvalidBodyLength { expected: declared_length, actual: actual_length },
            );
        }
        Ok(())
    }
}

/// The trailer field that carries checksum `c` (below 256): `10=`, the
/// three digits of `c`, and SOH.
pub open spec fn trailer_field(c: nat) -> Seq<u8> {
    seq![49u8, 48u8, 61u8, (48 + c / 100) as u8, (48 + c / 10 % 10) as u8, (48 + c % 10) as u8, SOH]
}

/// The trailer field of a checksum below 256 writes that checksum.
proof fn lemma_trailer_writes(c: nat)
    requires
        c < 256,
    ensures
        written_checksum(trailer_field(c)) == Some(c),
{
    let t = trailer_field(c);
    let digits = t.subrange(3, 6);
    assert(digits =~= seq![(48 + c / 100) as u8, (48 + c / 10 % 10) as u8, (48 + c % 10) as u8]);
    assert(digits_value(digits) == c) by {
        reveal_with_fuel(digits_value, 4);
        assert(digits.drop_last() =~= seq![(48 + c / 100) as u8, (48 + c / 10 % 10) as u8]);
        assert(digits.drop_last().drop_last() =~= seq![(48 + c / 100) as u8]);
        assert(digits.drop_last().drop_last().drop_last() =~= Seq::<u8>::empty());
    }
    assert(all_digits(digits));
}

/// In a message closed by a trailer field, the trailer's SOH is the one
/// that ends the body.
proof fn lemma_trailer_soh_found(body: Seq<u8>, c: nat)
    requires
        body.len() > 0,
        body.last() == SOH,
        c < 256,
    ensures
        exists|i: int| is_trailer_soh(body + trailer_field(c), i),
        last_trailer_soh(body + trailer_field(c)) == body.len() - 1,
        (body + trailer_field(c)).subrange(0, body.len() as int) == body,
        (body + trailer_field(c)).subrange(body.len() as int, body.len() + 7int) == trailer_field(c),
        (body + trailer_field(c)).len() == body.len() + 7,
{
    let t = trailer_field(c);
    let s = body + t;
    let b = body.len() as int;
    assert(s[b - 1] == SOH);
    assert(s[b] == 49u8 && s[b + 1] == 48u8 && s[b + 2] == 61u8);
    assert(s[s.len() - 1] == SOH);
    assert(is_trailer_soh(s, b - 1));
    assert forall|j: int| b - 1 < j implies !is_trailer_soh(s, j) by {
        if b <= j < s.len() - 1 {
            assert(s[j] == t[j - b]);
        }
    }
    let last = last_trailer_soh(s);
    assert(last == b - 1) by {
        if last < b - 1 {
            assert(is_trailer_soh(s, b - 1));
        }
    }
    assert(s.subrange(0, b) =~= body);
    assert(s.subrange(b, b + 7) =~= t);
}

/// A message closed by the trailer that carries the checksum of the bytes
/// before it passes `validate_checksum`, whatever those bytes are, as long
/// as they end with a field's SOH.
/// A checksum is below 256.
proof fn lemma_byte_sum_small(s: Seq<u8>)
    ensures
        byte_sum(s) < 256,
{
}

/// A message closed by the trailer that carries the checksum of the bytes
/// before it passes `validate_checksum`, whatever those bytes are, as long
/// as they end with a field's SOH.
pub proof fn lemma_framed_message_passes(body: Seq<u8>)
    requires
        body.len() > 0,
        body.last() == SOH,
    ensures
        checksum_check(body + trailer_field(byte_sum(body))) == Ok::<(), ParseError>(()),
{
    let c = byte_sum(body);
    lemma_byte_sum_small(body);
    lemma_trailer_soh_found(body, c);
    lemma_trailer_writes(c);
    lemma_check_passes(body + trailer_field(c), body.len() as int, c);
}

/// The check passes when the trailer's SOH is found, the bytes before it
/// sum to `c`, and the trailer writes `c`.
proof fn lemma_check_passes(s: Seq<u8>, p: int, c: nat)
    requires
        s.len() >= 7,
        exists|i: int| is_trailer_soh(s, i),
        last_trailer_soh(s) == p - 1,
        byte_sum(s.subrange(0, p)) == c,
        written_checksum(s.subrange(p, s.len() as int)) == Some(c),
    ensures
        checksum_check(s) == Ok::<(), ParseError>(()),
{
}

} // verus!
