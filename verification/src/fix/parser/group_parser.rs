//! Repeating groups: a count field followed by that many instances, each
//! opened by a delimiter field and made of the fields of the group.

use crate::fix::error::{FixError, ParseError};
use crate::fix::parser::field_parser::{
    debug_text, value_debug_text,
    field_type_of, value_matches, FieldParser, FieldType, FieldValue, FixField,
};
use crate::fix::parser::raw_parser::{field_views, RawField};
use crate::fix::parser::{field_error, field_typed, tag_of};
use crate::text::{
    bytes_equal, decimal_bytes, decimal_bytes_of, lemma_decimal_bytes_unsigned, parse_i64,
    signed_i64_text,
};
use std::collections::HashMap;
use vstd::prelude::*;

verus! {

broadcast use vstd::std_specs::hash::group_hash_axioms;

#[derive(Debug, Clone)]
pub struct RepeatingGroup {
    pub count: u32,
    pub instances: Vec<HashMap<u32, FixField>>,
}

pub struct GroupParser {
    field_parser: FieldParser,
}

/// The raw field `f` has the tag `t`, written in decimal.
pub open spec fn has_tag(f: (Seq<u8>, Seq<u8>), t: u32) -> bool {
    f.0 == decimal_bytes(t as nat)
}

/// The tag bytes `b` are those of one of the tags of `group`.
pub open spec fn in_group(b: Seq<u8>, group: Seq<u32>) -> bool {
    exists|g: int| 0 <= g < group.len() && b == decimal_bytes(group[g] as nat)
}

/// The first raw field at or after `start` with tag `t`.
pub open spec fn first_with_tag_from(fs: Seq<(Seq<u8>, Seq<u8>)>, start: int, t: u32) -> Option<
    int,
>
    decreases fs.len() - start,
{
    if start < 0 || start >= fs.len() {
        None
    } else if has_tag(fs[start], t) {
        Some(start)
    } else {
        first_with_tag_from(fs, start + 1, t)
    }
}

/// The first raw field at or after `start` with tag `target`, looking only
/// across fields whose tags belong to the group.
pub open spec fn find_in_range(
    fs: Seq<(Seq<u8>, Seq<u8>)>,
    start: int,
    target: u32,
    group: Seq<u32>,
) -> Option<int>
    decreases fs.len() - start,
{
    if start < 0 || start >= fs.len() {
        None
    } else if has_tag(fs[start], target) {
        Some(start)
    } else if in_group(fs[start].0, group) {
        find_in_range(fs, start + 1, target, group)
    } else {
        None
    }
}

/// The fields of one instance, from `group[k]` on: each field of the group
/// is looked for from the position after the last one found; the result is
/// the list of (tag, position) found and the position reached.
pub open spec fn scan_instance(
    fs: Seq<(Seq<u8>, Seq<u8>)>,
    cur: int,
    group: Seq<u32>,
    k: int,
) -> (Seq<(u32, int)>, int)
    decreases group.len() - k,
{
    if k < 0 || k >= group.len() {
        (Seq::empty(), cur)
    } else {
        match find_in_range(fs, cur, group[k], group) {
            Some(p) => {
                let rest = scan_instance(fs, p + 1, group, k + 1);
                (seq![(group[k], p)] + rest.0, rest.1)
            },
            None => scan_instance(fs, cur, group, k + 1),
        }
    }
}

/// The position of the first found field that is not accepted.
pub open spec fn first_bad(fs: Seq<(Seq<u8>, Seq<u8>)>, found: Seq<(u32, int)>) -> Option<int>
    decreases found.len(),
{
    if found.len() == 0 {
        None
    } else if !field_typed(fs[found[0].1]) {
        Some(found[0].1)
    } else {
        first_bad(fs, found.drop_first())
    }
}

/// The outcome of scanning the instances of a group.
pub enum GroupScan {
    Done(Seq<Seq<(u32, int)>>),
    MissingDelimiter,
    BadField(int),
}

/// Scans `remaining` instances from `cur`: each opens at the next delimiter
/// field, and its fields must all be accepted.
pub open spec fn scan_groups(
    fs: Seq<(Seq<u8>, Seq<u8>)>,
    cur: int,
    remaining: nat,
    delimiter: u32,
    group: Seq<u32>,
) -> GroupScan
    decreases remaining,
{
    if remaining == 0 {
        GroupScan::Done(Seq::empty())
    } else {
        match first_with_tag_from(fs, cur, delimiter) {
            None => GroupScan::MissingDelimiter,
            Some(d) => {
                let (found, c) = scan_instance(fs, d, group, 0);
                match first_bad(fs, found) {
                    Some(q) => GroupScan::BadField(q),
                    None => match scan_groups(fs, c, (remaining - 1) as nat, delimiter, group) {
                        GroupScan::Done(rest) => GroupScan::Done(seq![found] + rest),
                        other => other,
                    },
                }
            },
        }
    }
}

/// The instance map `m` holds, for each tag found, the typed value of the
/// last field found with that tag.
pub open spec fn instance_matches(
    fs: Seq<(Seq<u8>, Seq<u8>)>,
    found: Seq<(u32, int)>,
    m: Map<u32, FixField>,
) -> bool {
    &&& forall|t: u32|
        m.contains_key(t) <==> exists|i: int| 0 <= i < found.len() && (#[trigger] found[i]).0 == t
    &&& forall|t: u32|
        #![trigger m[t]]
        m.contains_key(t) ==> m[t].tag == t && exists|i: int|
            0 <= i < found.len() && found[i].0 == t && (forall|j: int|
                i < j < found.len() ==> (#[trigger] found[j]).0 != t) && value_matches(
                t,
                fs[found[i].1].1,
                m[t].value,
            )
}

/// The number a count field holds: its digits, read as an integer, when
/// the field carries an integer or text.
pub open spec fn count_number(tag: u32, b: Seq<u8>) -> Option<int> {
    match field_type_of(tag) {
        FieldType::Int | FieldType::String => signed_i64_text(b),
        _ => None,
    }
}

/// `r` is what reading the group gives: nothing without a count field, the
/// count field's error when it is not accepted or not an integer, an empty
/// group for a zero count, and otherwise the scanned instances.
pub open spec fn group_parsed(
    fs: Seq<(Seq<u8>, Seq<u8>)>,
    count_tag: u32,
    delimiter: u32,
    group: Seq<u32>,
    r: Result<Option<RepeatingGroup>, FixError>,
) -> bool {
    match first_with_tag_from(fs, 0, count_tag) {
        None => r matches Ok(None),
        Some(cp) => if !field_typed(fs[cp]) {
            r matches Err(FixError::Parse(e)) && field_error(fs[cp], e)
        } else if count_number(count_tag, fs[cp].1) is None {
            r matches Err(FixError::Parse(ParseError::InvalidFieldValue { tag, value })) && tag
                == count_tag && exists|v: FieldValue|
                value_matches(count_tag, fs[cp].1, v) && value@ == #[trigger] value_debug_text(v)
        } else {
            let count = count_number(count_tag, fs[cp].1)->0 as u32;
            if count == 0 {
                r matches Ok(Some(g)) && g.count == 0 && g.instances@.len() == 0
            } else {
                match scan_groups(fs, cp + 1, count as nat, delimiter, group) {
                    GroupScan::MissingDelimiter => r matches Err(
                        FixError::Parse(ParseError::InvalidFormat),
                    ),
                    GroupScan::BadField(q) => r matches Err(FixError::Parse(e)) && field_error(
                        fs[q],
                        e,
                    ),
                    GroupScan::Done(insts) => r matches Ok(Some(g)) && g.count == count
                        && g.instances@.len() == insts.len() && forall|i: int|
                        0 <= i < insts.len() ==> instance_matches(
                            fs,
                            #[trigger] insts[i],
                            g.instances@[i]@,
                        ),
                }
            }
        }
    }
}

/// A found list with an accepted prefix has the same first bad field as the
/// rest of it.
proof fn lemma_first_bad_concat(
    fs: Seq<(Seq<u8>, Seq<u8>)>,
    a: Seq<(u32, int)>,
    b: Seq<(u32, int)>,
)
    requires
        first_bad(fs, a) is None,
    ensures
        first_bad(fs, a + b) == first_bad(fs, b),
    decreases a.len(),
{
    if a.len() > 0 {
        assert((a + b).drop_first() =~= a.drop_first() + b);
        lemma_first_bad_concat(fs, a.drop_first(), b);
    } else {
        assert(a + b =~= b);
    }
}

impl GroupParser {
    pub fn new() -> (r: Self) {
        GroupParser { field_parser: FieldParser::new() }
    }

    /// The first raw field at or after `start` whose tag is `tag`.
    /// The first field with the tag.
    fn find_field_by_tag<'a>(&self, raw_fields: &[RawField<'a>], tag: u32) -> (r: Result<
        Option<RawField<'a>>,
        ParseError,
    >)
        ensures
            r == Ok::<Option<RawField<'a>>, ParseError>(
                match first_with_tag_from(field_views(raw_fields@), 0, tag) {
                    Some(i) => Some(raw_fields@[i]),
                    None => None,
                },
            ),
    {
        proof {
            lemma_first_with_tag(field_views(raw_fields@), 0, tag);
        }
        match self.find_next_occurrence(raw_fields, 0, tag) {
            Some(i) => Ok(Some(RawField { tag: raw_fields[i].tag, value: raw_fields[i].value })),
            None => Ok(None),
        }
    }

    /// The position of the first field with the tag; `InvalidFormat` when
    /// there is none.
    fn find_field_position(&self, raw_fields: &[RawField<'_>], tag: u32) -> (r: Result<
        usize,
        ParseError,
    >)
        ensures
            match first_with_tag_from(field_views(raw_fields@), 0, tag) {
                Some(i) => r == Ok::<usize, ParseError>(i as usize),
                None => r == Err::<usize, ParseError>(ParseError::InvalidFormat),
            },
    {
        match self.find_next_occurrence(raw_fields, 0, tag) {
            Some(i) => Ok(i),
            None => Err(ParseError::InvalidFormat),
        }
    }

    fn find_next_occurrence(&self, raw_fields: &[RawField<'_>], start: usize, tag: u32) -> (r:
        Option<usize>)
        requires
            start <= raw_fields@.len(),
        ensures
            r == (match first_with_tag_from(field_views(raw_fields@), start as int, tag) {
                Some(i) => Some(i as usize),
                None => None::<usize>,
            }),
    {
        let ghost fs = field_views(raw_fields@);
        let tag_bytes = decimal_bytes_of(tag as u64);
        let mut i: usize = start;
        while i < raw_fields.len()
            invariant
                start <= i <= raw_fields@.len(),
                fs == field_views(raw_fields@),
                tag_bytes@ == decimal_bytes(tag as nat),
                first_with_tag_from(fs, start as int, tag) == first_with_tag_from(
                    fs,
                    i as int,
                    tag,
                ),
            decreases raw_fields.len() - i,
        {
            assert(fs[i as int].0 == raw_fields@[i as int].tag@);
            if bytes_equal(raw_fields[i].tag, tag_bytes.as_slice()) {
                return Some(i);
            }
            i = i + 1;
        }
        None
    }

    /// Whether the tag bytes belong to one of the group's tags.
    fn tag_in_group(&self, tag: &[u8], group_fields: &[u32]) -> (r: bool)
        ensures
            r == in_group(tag@, group_fields@),
    {
        let mut g: usize = 0;
        while g < group_fields.len()
            invariant
                g <= group_fields@.len(),
                forall|j: int| 0 <= j < g ==> tag@ != decimal_bytes(group_fields@[j] as nat),
            decreases group_fields.len() - g,
        {
            let candidate = decimal_bytes_of(group_fields[g] as u64);
            if bytes_equal(tag, candidate.as_slice()) {
                return true;
            }
            g = g + 1;
        }
        false
    }

    /// The first raw field at or after `start` with tag `target`, looking
    /// only across fields of the group.
    fn find_field_in_range(
        &self,
        raw_fields: &[RawField<'_>],
        start: usize,
        target: u32,
        group_fields: &[u32],
    ) -> (r: Option<usize>)
        requires
            start <= raw_fields@.len(),
        ensures
            r == (match find_in_range(field_views(raw_fields@), start as int, target, group_fields@) {
                Some(i) => Some(i as usize),
                None => None::<usize>,
            }),
    {
        let ghost fs = field_views(raw_fields@);
        let target_bytes = decimal_bytes_of(target as u64);
        let mut i: usize = start;
        while i < raw_fields.len()
            invariant
                start <= i <= raw_fields@.len(),
                fs == field_views(raw_fields@),
                target_bytes@ == decimal_bytes(target as nat),
                find_in_range(fs, start as int, target, group_fields@) == find_in_range(
                    fs,
                    i as int,
                    target,
                    group_fields@,
                ),
            decreases raw_fields.len() - i,
        {
            assert(fs[i as int].0 == raw_fields@[i as int].tag@);
            if bytes_equal(raw_fields[i].tag, target_bytes.as_slice()) {
                return Some(i);
            }
            if !self.tag_in_group(raw_fields[i].tag, group_fields) {
                return None;
            }
            i = i + 1;
        }
        None
    }

    /// Reads the fields of one instance, starting at `cur`.
    fn parse_instance(
        &self,
        raw_fields: &[RawField<'_>],
        cur: usize,
        group_fields: &[u32],
    ) -> (r: Result<(HashMap<u32, FixField>, usize), FixError>)
        requires
            cur <= raw_fields@.len(),
        ensures
            ({
                let fs = field_views(raw_fields@);
                let (found, c) = scan_instance(fs, cur as int, group_fields@, 0);
                match r {
                    Ok((m, end)) => first_bad(fs, found) is None && end == c && end
                        <= raw_fields@.len() && instance_matches(fs, found, m@),
                    Err(e) => first_bad(fs, found) matches Some(q) && e matches FixError::Parse(
                        pe,
                    ) && field_error(fs[q], pe),
                }
            }),
    {
        let ghost fs = field_views(raw_fields@);
        let ghost group = group_fields@;
        assert(raw_fields@.len() == raw_fields.len());
        let mut instance: HashMap<u32, FixField> = HashMap::new();
        let mut pos: usize = cur;
        let mut k: usize = 0;
        let ghost mut found: Seq<(u32, int)> = Seq::empty();
        while k < group_fields.len()
            invariant
                k <= group_fields@.len(),
                group == group_fields@,
                fs == field_views(raw_fields@),
                pos <= raw_fields@.len(),
                raw_fields@.len() <= usize::MAX,
                first_bad(fs, found) is None,
                forall|i: int| 0 <= i < found.len() ==> 0 <= (#[trigger] found[i]).1 < fs.len(),
                scan_instance(fs, cur as int, group, 0) == (found + scan_instance(
                    fs,
                    pos as int,
                    group,
                    k as int,
                ).0, scan_instance(fs, pos as int, group, k as int).1),
                instance_matches(fs, found, instance@),
            decreases group_fields.len() - k,
        {
            let field_tag = group_fields[k];
            proof {
                lemma_find_in_range_tag(fs, pos as int, field_tag, group);
            }
            match self.find_field_in_range(raw_fields, pos, field_tag, group_fields) {
                Some(field_pos) => {
                    let ghost rest = scan_instance(fs, field_pos + 1, group, k + 1);
                    assert(find_in_range(fs, pos as int, field_tag, group) == Some(field_pos as int));
                    assert(group[k as int] == field_tag);
                    assert(scan_instance(fs, pos as int, group, k as int) == (seq![
                        (field_tag, field_pos as int),
                    ] + rest.0, rest.1));
                    let raw = RawField {
                        tag: raw_fields[field_pos].tag,
                        value: raw_fields[field_pos].value,
                    };
                    assert(fs[field_pos as int] == (raw.tag@, raw.value@));
                    let parsed_field = match self.field_parser.parse_field(raw) {
                        Ok(f) => f,
                        Err(e) => {
                            proof {
                                let full = found + (seq![(field_tag, field_pos as int)] + rest.0);
                                assert(scan_instance(fs, cur as int, group, 0).0 =~= full);
                                lemma_first_bad_concat(
                                    fs,
                                    found,
                                    seq![(field_tag, field_pos as int)] + rest.0,
                                );
                            }
                            return Err(FixError::Parse(e));
                        },
                    };
                    proof {
                        lemma_decimal_bytes_unsigned(field_tag as nat, u32::MAX as nat);
                    }
                    let ghost old_found = found;
                    let ghost old_map = instance@;
                    instance.insert(field_tag, parsed_field);
                    proof {
                        found = old_found.push((field_tag, field_pos as int));
                        assert(found + rest.0 =~= old_found + (seq![(field_tag, field_pos as int)]
                            + rest.0));
                        lemma_first_bad_concat(fs, old_found, seq![(field_tag, field_pos as int)]);
                        assert(found =~= old_found + seq![(field_tag, field_pos as int)]);
                        assert(field_typed(fs[field_pos as int]));
                        assert(first_bad(fs, seq![(field_tag, field_pos as int)]) is None) by {
                            assert(seq![(field_tag, field_pos as int)].drop_first() =~= Seq::<
                                (u32, int),
                            >::empty());
                            assert(first_bad(fs, Seq::<(u32, int)>::empty()) is None);
                        }
                        lemma_instance_push(fs, old_found, old_map, field_tag, field_pos as int,
                            instance@);
                    }
                    pos = field_pos + 1;
                },
                None => {
                    assert(scan_instance(fs, pos as int, group, k as int) == scan_instance(
                        fs,
                        pos as int,
                        group,
                        k + 1,
                    ));
                },
            }
            k = k + 1;
        }
        assert(scan_instance(fs, pos as int, group, k as int).0 =~= Seq::<(u32, int)>::empty());
        assert(found + Seq::<(u32, int)>::empty() =~= found);
        Ok((instance, pos))
    }

    /// Reads the repeating group whose count is in field `group_count_tag`
    /// and whose instances each open with field `first_field_tag`.
    pub fn parse_repeating_group(
        &self,
        raw_fields: &[RawField<'_>],
        group_count_tag: u32,
        first_field_tag: u32,
        group_fields: &[u32],
    ) -> (r: Result<Option<RepeatingGroup>, FixError>)
        ensures
            group_parsed(
                field_views(raw_fields@),
                group_count_tag,
                first_field_tag,
                group_fields@,
                r,
            ),
    {
        let ghost fs = field_views(raw_fields@);
        assert(raw_fields@.len() == raw_fields.len());
        proof {
            lemma_first_with_tag(fs, 0, group_count_tag);
        }
        let count_field = match self.find_field_by_tag(raw_fields, group_count_tag) {
            Ok(f) => f,
            Err(e) => {
                return Err(FixError::Parse(e));
            },
        };
        let raw = match count_field {
            Some(f) => f,
            None => {
                return Ok(None);
            },
        };
        let ghost count_at = first_with_tag_from(fs, 0, group_count_tag).unwrap();
        assert(fs[count_at] == (raw.tag@, raw.value@));
        let count_text = raw.value;
        proof {
            lemma_decimal_bytes_unsigned(group_count_tag as nat, u32::MAX as nat);
        }
        let parsed_count = match self.field_parser.parse_field(raw) {
            Ok(f) => f,
            Err(e) => {
                return Err(FixError::Parse(e));
            },
        };
        let count_value: Option<i64> = match &parsed_count.value {
            FieldValue::Int(i) => Some(*i),
            FieldValue::String(_) => parse_i64(count_text),
            _ => None,
        };
        let count: u32 = match count_value {
            Some(i) => i as u32,
            None => {
                let text = debug_text(&parsed_count.value);
                assert(value_matches(group_count_tag, fs[count_at].1, parsed_count.value));
                return Err(
                    FixError::Parse(
                        ParseError::InvalidFieldValue { tag: group_count_tag, value: text },
                    ),
                );
            },
        };
        assert(count_number(group_count_tag, fs[count_at].1) == Some(count_value->0 as int));
        if count == 0 {
            return Ok(Some(RepeatingGroup { count: 0, instances: Vec::new() }));
        }
        let count_pos = match self.find_field_position(raw_fields, group_count_tag) {
            Ok(p) => p,
            Err(e) => {
                return Err(FixError::Parse(e));
            },
        };
        assert(count_pos == count_at);
        let mut instances: Vec<HashMap<u32, FixField>> = Vec::new();
        let mut current_pos: usize = count_pos + 1;
        let mut i: u32 = 0;
        let ghost mut done: Seq<Seq<(u32, int)>> = Seq::empty();
        while i < count
            invariant
                i <= count,
                fs == field_views(raw_fields@),
                current_pos <= raw_fields@.len(),
                raw_fields@.len() <= usize::MAX,
                first_with_tag_from(fs, 0, group_count_tag) == Some(count_pos as int),
                field_typed(fs[count_pos as int]),
                count_number(group_count_tag, fs[count_pos as int].1) is Some,
                count == count_number(group_count_tag, fs[count_pos as int].1)->0 as u32,
                count > 0,
                instances@.len() == done.len(),
                forall|j: int|
                    0 <= j < done.len() ==> instance_matches(
                        fs,
                        #[trigger] done[j],
                        instances@[j]@,
                    ),
                match scan_groups(
                    fs,
                    current_pos as int,
                    (count - i) as nat,
                    first_field_tag,
                    group_fields@,
                ) {
                    GroupScan::Done(rest) => scan_groups(
                        fs,
                        count_pos + 1,
                        count as nat,
                        first_field_tag,
                        group_fields@,
                    ) == GroupScan::Done(done + rest),
                    other => scan_groups(
                        fs,
                        count_pos + 1,
                        count as nat,
                        first_field_tag,
                        group_fields@,
                    ) == other,
                },
            decreases count - i,
        {
            proof {
                lemma_first_with_tag(fs, current_pos as int, first_field_tag);
            }
            let delimiter_pos = match self.find_next_occurrence(
                raw_fields,
                current_pos,
                first_field_tag,
            ) {
                Some(d) => d,
                None => {
                    return Err(FixError::Parse(ParseError::InvalidFormat));
                },
            };
            let (instance, end) = match self.parse_instance(
                raw_fields,
                delimiter_pos,
                group_fields,
            ) {
                Ok(p) => p,
                Err(e) => {
                    return Err(e);
                },
            };
            let ghost found = scan_instance(fs, delimiter_pos as int, group_fields@, 0).0;
            proof {
                match scan_groups(
                    fs,
                    end as int,
                    (count - i - 1) as nat,
                    first_field_tag,
                    group_fields@,
                ) {
                    GroupScan::Done(rest) => {
                        assert(done + (seq![found] + rest) =~= done.push(found) + rest);
                    },
                    _ => {},
                }
                done = done.push(found);
            }
            instances.push(instance);
            current_pos = end;
            i = i + 1;
        }
        proof {
            assert(done + Seq::<Seq<(u32, int)>>::empty() =~= done);
        }
        Ok(Some(RepeatingGroup { count, instances }))
    }
}


/// A field found by `first_with_tag_from` lies at or after the start and
/// carries the tag.
proof fn lemma_first_with_tag(fs: Seq<(Seq<u8>, Seq<u8>)>, start: int, t: u32)
    ensures
        first_with_tag_from(fs, start, t) matches Some(p) ==> start <= p < fs.len() && has_tag(
            fs[p],
            t,
        ),
    decreases fs.len() - start,
{
    if 0 <= start < fs.len() && !has_tag(fs[start], t) {
        lemma_first_with_tag(fs, start + 1, t);
    }
}

/// A field found by `find_in_range` carries the target tag.
proof fn lemma_find_in_range_tag(
    fs: Seq<(Seq<u8>, Seq<u8>)>,
    start: int,
    target: u32,
    group: Seq<u32>,
)
    ensures
        find_in_range(fs, start, target, group) matches Some(p) ==> start <= p < fs.len()
            && has_tag(fs[p], target),
    decreases fs.len() - start,
{
    if 0 <= start < fs.len() && !has_tag(fs[start], target) && in_group(fs[start].0, group) {
        lemma_find_in_range_tag(fs, start + 1, target, group);
    }
}

/// Adding a found field to an instance keeps the instance map in step with
/// the found list.
proof fn lemma_instance_push(
    fs: Seq<(Seq<u8>, Seq<u8>)>,
    found: Seq<(u32, int)>,
    m: Map<u32, FixField>,
    t: u32,
    p: int,
    m2: Map<u32, FixField>,
)
    requires
        instance_matches(fs, found, m),
        m2.contains_key(t),
        m2[t].tag == t,
        value_matches(t, fs[p].1, m2[t].value),
        forall|k: u32| k != t ==> (m2.contains_key(k) == m.contains_key(k)),
        forall|k: u32| k != t && m.contains_key(k) ==> m2[k] == m[k],
    ensures
        instance_matches(fs, found.push((t, p)), m2),
{
    let f2 = found.push((t, p));
    assert(f2[found.len() as int] == (t, p));
    assert forall|k: u32|
        m2.contains_key(k) <==> exists|i: int| 0 <= i < f2.len() && (#[trigger] f2[i]).0 == k by {
        if k != t && m.contains_key(k) {
            let i = choose|i: int| 0 <= i < found.len() && (#[trigger] found[i]).0 == k;
            assert(f2[i] == found[i]);
        }
        if k != t && (exists|i: int| 0 <= i < f2.len() && (#[trigger] f2[i]).0 == k) {
            let i = choose|i: int| 0 <= i < f2.len() && (#[trigger] f2[i]).0 == k;
            assert(i < found.len());
            assert(found[i] == f2[i]);
        }
    }
    assert forall|k: u32|
        #![trigger m2[k]]
        m2.contains_key(k) implies m2[k].tag == k && exists|i: int|
            0 <= i < f2.len() && f2[i].0 == k && (forall|j: int|
                i < j < f2.len() ==> (#[trigger] f2[j]).0 != k) && value_matches(
                k,
                fs[f2[i].1].1,
                m2[k].value,
            ) by {
        if k == t {
            let i = found.len() as int;
            assert(f2[i].0 == k && f2[i].1 == p);
        } else {
            let i = choose|i: int|
                0 <= i < found.len() && found[i].0 == k && (forall|j: int|
                    i < j < found.len() ==> (#[trigger] found[j]).0 != k) && value_matches(
                    k,
                    fs[found[i].1].1,
                    m[k].value,
                );
            assert(f2[i] == found[i]);
            assert forall|j: int| i < j < f2.len() implies (#[trigger] f2[j]).0 != k by {
                if j < found.len() {
                    assert(f2[j] == found[j]);
                }
            }
        }
    }
}

/// Tags that open and fill the repeating groups that messages carry.
pub struct GroupDefinitions;

/// A repeating group: the tag of its count, the tag that opens each
/// instance, and the tags of its fields.
#[derive(Debug, Clone)]
pub struct GroupDef {
    pub count_tag: u32,
    pub delimiter_tag: u32,
    pub fields: Vec<u32>,
}

impl GroupDefinitions {
    /// The parties group (453).
    pub fn parties_group() -> (r: GroupDef)
        ensures
            r.count_tag == 453 && r.delimiter_tag == 448 && r.fields@ == seq![
                448u32,
                447u32,
                452u32,
                802u32,
            ],
    {
        let r = GroupDef { count_tag: 453, delimiter_tag: 448, fields: vec![448, 447, 452, 802] };
        assert(r.fields@ =~= seq![448u32, 447u32, 452u32, 802u32]);
        r
    }

    /// The alternative security id group (454).
    pub fn security_alt_id_group() -> (r: GroupDef)
        ensures
            r.count_tag == 454 && r.delimiter_tag == 455 && r.fields@ == seq![455u32, 456u32],
    {
        let r = GroupDef { count_tag: 454, delimiter_tag: 455, fields: vec![455, 456] };
        assert(r.fields@ =~= seq![455u32, 456u32]);
        r
    }

    /// The market data entries group (268).
    pub fn md_entries_group() -> (r: GroupDef)
        ensures
            r.count_tag == 268 && r.delimiter_tag == 269 && r.fields@ == seq![
                269u32,
                270u32,
                15u32,
                271u32,
                272u32,
                273u32,
                274u32,
                275u32,
                336u32,
                625u32,
            ],
    {
        let r = GroupDef {
            count_tag: 268,
            delimiter_tag: 269,
            fields: vec![269, 270, 15, 271, 272, 273, 274, 275, 336, 625],
        };
        assert(r.fields@ =~= seq![
            269u32,
            270u32,
            15u32,
            271u32,
            272u32,
            273u32,
            274u32,
            275u32,
            336u32,
            625u32,
        ]);
        r
    }
}

} // verus!
