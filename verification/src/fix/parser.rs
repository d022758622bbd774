//! Reading FIX messages from bytes: split the bytes into fields, type each
//! field by its tag, and build the message that the fields hold.

pub mod advanced_parser;
pub mod error_recovery;
pub mod field_parser;
pub mod group_parser;
pub mod message_builder;
pub mod raw_parser;

pub use field_parser::{FieldParser, FixField};
pub use group_parser::{GroupDef, GroupDefinitions, GroupParser, RepeatingGroup};
pub use message_builder::MessageBuilder;
pub use raw_parser::RawParser;

use crate::fix::error::{FixError, ParseError};
use crate::fix::messages::FixMessage;
use crate::fix::parser::field_parser::{
    is_tag_error, is_value_error, tag_value, value_accepted, value_matches,
};
use crate::fix::parser::group_parser::group_parsed;
use crate::fix::parser::message_builder::message_built;
use crate::fix::parser::raw_parser::{checksum_check, field_views, parsed_fields, RawField};
use std::collections::HashMap;
use vstd::prelude::*;

verus! {

broadcast use vstd::std_specs::hash::group_hash_axioms;

pub struct FixParser {
    pub(crate) raw_parser: RawParser,
    pub(crate) field_parser: FieldParser,
    pub(crate) message_builder: MessageBuilder,
}

/// The tag of a raw field, read as a number (meaningful when it reads).
pub open spec fn tag_of(f: (Seq<u8>, Seq<u8>)) -> u32 {
    tag_value(f.0)->0 as u32
}

/// The raw field is accepted: its tag reads and its value fits the tag.
pub open spec fn field_typed(f: (Seq<u8>, Seq<u8>)) -> bool {
    tag_value(f.0) is Some && value_accepted(tag_of(f), f.1)
}

/// Every raw field is accepted.
pub open spec fn all_typed(fs: Seq<(Seq<u8>, Seq<u8>)>) -> bool {
    forall|i: int| 0 <= i < fs.len() ==> field_typed(#[trigger] fs[i])
}

/// `i` is the first raw field that is not accepted.
pub open spec fn first_untyped(fs: Seq<(Seq<u8>, Seq<u8>)>, i: int) -> bool {
    &&& 0 <= i < fs.len()
    &&& !field_typed(fs[i])
    &&& forall|j: int| 0 <= j < i ==> field_typed(#[trigger] fs[j])
}

/// `e` is the error that typing the raw field `f` reports.
pub open spec fn field_error(f: (Seq<u8>, Seq<u8>), e: ParseError) -> bool {
    if tag_value(f.0) is None {
        is_tag_error(e, f.0)
    } else {
        is_value_error(e, tag_of(f), f.1)
    }
}

/// `i` is the last raw field with tag `k`.
pub open spec fn last_with_tag(fs: Seq<(Seq<u8>, Seq<u8>)>, i: int, k: u32) -> bool {
    &&& 0 <= i < fs.len()
    &&& tag_of(fs[i]) == k
    &&& forall|j: int| i < j < fs.len() ==> tag_of(#[trigger] fs[j]) != k
}

/// `m` maps each tag of the raw fields to the typed value of the last field
/// with that tag, and holds no other tag.
pub open spec fn typed_map(fs: Seq<(Seq<u8>, Seq<u8>)>, m: Map<u32, FixField>) -> bool {
    &&& forall|k: u32|
        m.contains_key(k) <==> exists|i: int| 0 <= i < fs.len() && tag_of(#[trigger] fs[i]) == k
    &&& forall|k: u32|
        #![trigger m[k]]
        m.contains_key(k) ==> m[k].tag == k && exists|i: int|
            last_with_tag(fs, i, k) && value_matches(k, fs[i].1, m[k].value)
}

/// `r` is what reading the fields of `fs` into a map gives: the error of the
/// first field that is not accepted, or a map of the typed fields.
pub open spec fn fields_typed(
    fs: Seq<(Seq<u8>, Seq<u8>)>,
    r: Result<HashMap<u32, FixField>, FixError>,
) -> bool {
    if all_typed(fs) {
        r matches Ok(m) && typed_map(fs, m@)
    } else {
        r matches Err(FixError::Parse(e)) && exists|i: int|
            first_untyped(fs, i) && field_error(fs[i], e)
    }
}

/// `r` is what `FixParser::parse` gives for `data`: the bytes are split
/// into fields, the fields typed into a map, and the message built from it.
pub open spec fn message_parsed(data: Seq<u8>, r: Result<FixMessage, FixError>) -> bool {
    match parsed_fields(data) {
        Err(e) => r == Err::<FixMessage, FixError>(FixError::Parse(e)),
        Ok(fs) => if all_typed(fs) {
            exists|m: Map<u32, FixField>| typed_map(fs, m) && message_built(m, r)
        } else {
            r matches Err(FixError::Parse(e)) && exists|i: int|
                first_untyped(fs, i) && field_error(fs[i], e)
        },
    }
}

/// Each group of `gs` is what reading one of the definitions in `defs`
/// gives.
pub open spec fn groups_found(
    fs: Seq<(Seq<u8>, Seq<u8>)>,
    defs: Seq<GroupDef>,
    gs: Seq<RepeatingGroup>,
) -> bool {
    forall|j: int|
        0 <= j < gs.len() ==> exists|d: int|
            0 <= d < defs.len() && group_parsed(
                fs,
                defs[d].count_tag,
                defs[d].delimiter_tag,
                defs[d].fields@,
                Ok(Some(#[trigger] gs[j])),
            )
}

/// The definition at `d` reads something, or nothing, from `fs` without
/// an error.
pub open spec fn group_read_ok(fs: Seq<(Seq<u8>, Seq<u8>)>, defs: Seq<GroupDef>, d: int) -> bool {
    exists|g: Option<RepeatingGroup>|
        #[trigger] group_parsed(fs, defs[d].count_tag, defs[d].delimiter_tag, defs[d].fields@, Ok(g))
}

/// `gs` holds, in the order of the first `n` definitions, the group that each
/// of them reads from `fs`, leaving out those whose count field is absent;
/// `idx` gives the definition of each group.
pub open spec fn groups_in_order(
    fs: Seq<(Seq<u8>, Seq<u8>)>,
    defs: Seq<GroupDef>,
    n: int,
    gs: Seq<RepeatingGroup>,
    idx: Seq<int>,
) -> bool {
    &&& idx.len() == gs.len()
    &&& forall|a: int, b: int| 0 <= a < b < idx.len() ==> #[trigger] idx[a] < #[trigger] idx[b]
    &&& forall|j: int|
        0 <= j < idx.len() ==> 0 <= #[trigger] idx[j] < n && group_parsed(
            fs,
            defs[idx[j]].count_tag,
            defs[idx[j]].delimiter_tag,
            defs[idx[j]].fields@,
            Ok(Some(gs[j])),
        )
    &&& forall|d: int|
        0 <= d < n ==> (exists|j: int| 0 <= j < idx.len() && #[trigger] idx[j] == d) || group_parsed(
            fs,
            defs[d].count_tag,
            defs[d].delimiter_tag,
            defs[d].fields@,
            Ok(None),
        )
}

/// `r` is what reading the groups `defs` from `data` gives: the error of the
/// bytes, or of the first group that cannot be read; else the groups that
/// the definitions read, in their order, leaving out those whose count
/// field is absent.
pub open spec fn groups_parsed(
    data: Seq<u8>,
    defs: Seq<GroupDef>,
    r: Result<Vec<RepeatingGroup>, FixError>,
) -> bool {
    match parsed_fields(data) {
        Err(e) => r == Err::<Vec<RepeatingGroup>, FixError>(FixError::Parse(e)),
        Ok(fs) => match r {
            Ok(gs) => gs@.len() <= defs.len() && groups_found(fs, defs, gs@) && exists|idx: Seq<int>|
                #[trigger] groups_in_order(fs, defs, defs.len() as int, gs@, idx),
            Err(e) => exists|d: int|
                0 <= d < defs.len() && group_parsed(
                    fs,
                    defs[d].count_tag,
                    defs[d].delimiter_tag,
                    defs[d].fields@,
                    Err(e),
                ) && forall|dd: int| 0 <= dd < d ==> #[trigger] group_read_ok(fs, defs, dd),
        },
    }
}

impl FixParser {
    pub fn new() -> (r: Self) {
        FixParser {
            raw_parser: RawParser::new(),
            field_parser: FieldParser::new(),
            message_builder: MessageBuilder::new(),
        }
    }

    /// Types a list of raw fields into a map from tag to field; a later field
    /// with the same tag replaces an earlier one.
    pub fn type_fields(&self, raw_fields: &Vec<RawField<'_>>) -> (r: Result<
        HashMap<u32, FixField>,
        FixError,
    >)
        ensures
            fields_typed(field_views(raw_fields@), r),
    {
        let ghost fs = field_views(raw_fields@);
        let mut fields: HashMap<u32, FixField> = HashMap::new();
        let mut i: usize = 0;
        while i < raw_fields.len()
            invariant
                i <= raw_fields@.len(),
                fs == field_views(raw_fields@),
                forall|j: int| 0 <= j < i ==> field_typed(#[trigger] fs[j]),
                typed_map(fs.subrange(0, i as int), fields@),
            decreases raw_fields.len() - i,
        {
            let raw = RawField { tag: raw_fields[i].tag, value: raw_fields[i].value };
            assert(fs[i as int] == (raw.tag@, raw.value@));
            let field = match self.field_parser.parse_field(raw) {
                Ok(f) => f,
                Err(e) => {
                    assert(first_untyped(fs, i as int));
                    assert(!all_typed(fs));
                    return Err(FixError::Parse(e));
                },
            };
            let ghost old_map = fields@;
            let ghost k = field.tag;
            let ghost prev = fs.subrange(0, i as int);
            let ghost next = fs.subrange(0, i + 1);
            fields.insert(field.tag, field);
            proof {
                assert(next[i as int] == fs[i as int]);
                assert forall|j: int| 0 <= j < i implies next[j] == prev[j] by {}
                assert forall|kk: u32|
                    fields@.contains_key(kk) <==> exists|j: int|
                        0 <= j < next.len() && tag_of(#[trigger] next[j]) == kk by {
                    if fields@.contains_key(kk) && kk != k {
                        let j = choose|j: int| 0 <= j < prev.len() && tag_of(prev[j]) == kk;
                        assert(tag_of(next[j]) == kk);
                    }
                    if exists|j: int| 0 <= j < next.len() && tag_of(#[trigger] next[j]) == kk {
                        let j = choose|j: int| 0 <= j < next.len() && tag_of(next[j]) == kk;
                        if j < i {
                            assert(tag_of(prev[j]) == kk);
                        }
                    }
                }
                assert forall|kk: u32|
                    #![trigger fields@[kk]]
                    fields@.contains_key(kk) implies fields@[kk].tag == kk && exists|j: int|
                        last_with_tag(next, j, kk) && value_matches(
                            kk,
                            next[j].1,
                            fields@[kk].value,
                        ) by {
                    if kk == k {
                        assert(last_with_tag(next, i as int, kk));
                    } else {
                        assert(old_map.contains_key(kk));
                        assert(old_map[kk] == fields@[kk]);
                        let j = choose|j: int|
                            last_with_tag(prev, j, kk) && value_matches(
                                kk,
                                prev[j].1,
                                old_map[kk].value,
                            );
                        assert(last_with_tag(next, j, kk));
                    }
                }
            }
            i = i + 1;
        }
        assert(fs.subrange(0, i as int) =~= fs);
        Ok(fields)
    }

    /// Reads a message from its bytes.
    pub fn parse(&mut self, data: &[u8]) -> (r: Result<FixMessage, FixError>)
        ensures
            message_parsed(data@, r),
    {
        let raw_fields = match self.raw_parser.parse(data) {
            Ok(f) => f,
            Err(e) => {
                return Err(FixError::Parse(e));
            },
        };
        let fields = match self.type_fields(&raw_fields) {
            Ok(m) => m,
            Err(e) => {
                return Err(e);
            },
        };
        let ghost m = fields@;
        let r = self.message_builder.build_message(fields);
        assert(typed_map(field_views(raw_fields@), m) && message_built(m, r));
        r
    }

    /// Reads the fields of a message into a map from tag to typed field,
    /// without building a message from them.
    pub fn extract_header_fields(&mut self, data: &[u8]) -> (r: Result<
        HashMap<u32, FixField>,
        FixError,
    >)
        ensures
            match parsed_fields(data@) {
                Err(e) => r == Err::<HashMap<u32, FixField>, FixError>(FixError::Parse(e)),
                Ok(fs) => fields_typed(fs, r),
            },
    {
        let raw_fields = match self.raw_parser.parse(data) {
            Ok(f) => f,
            Err(e) => {
                return Err(FixError::Parse(e));
            },
        };
        self.type_fields(&raw_fields)
    }

    /// Reads each of the given repeating groups that the message carries, in
    /// the order of the definitions; a group whose count field is absent is
    /// left out.
    pub fn parse_repeating_groups(&mut self, data: &[u8], defs: &Vec<GroupDef>) -> (r: Result<
        Vec<RepeatingGroup>,
        FixError,
    >)
        ensures
            groups_parsed(data@, defs@, r),
    {
        let raw_fields = match self.raw_parser.parse(data) {
            Ok(f) => f,
            Err(e) => {
                return Err(FixError::Parse(e));
            },
        };
        let ghost fs = field_views(raw_fields@);
        let group_parser = GroupParser::new();
        let mut groups: Vec<RepeatingGroup> = Vec::new();
        let ghost mut idx: Seq<int> = Seq::empty();
        let mut d: usize = 0;
        while d < defs.len()
            invariant
                d <= defs@.len(),
                groups@.len() <= d,
                groups_in_order(fs, defs@, d as int, groups@, idx),
                forall|dd: int| 0 <= dd < d ==> #[trigger] group_read_ok(fs, defs@, dd),
                fs == field_views(raw_fields@),
                parsed_fields(data@) == Ok::<Seq<(Seq<u8>, Seq<u8>)>, ParseError>(fs),
                groups_found(fs, defs@, groups@),
            decreases defs.len() - d,
        {
            let def = &defs[d];
            let result = group_parser.parse_repeating_group(
                raw_fields.as_slice(),
                def.count_tag,
                def.delimiter_tag,
                def.fields.as_slice(),
            );
            match result {
                Ok(Some(g)) => {
                    let ghost old_groups = groups@;
                    let ghost old_idx = idx;
                    groups.push(g);
                    proof {
                        idx = idx.push(d as int);
                        assert forall|a: int, b: int| 0 <= a < b < idx.len() implies #[trigger] idx[a]
                            < #[trigger] idx[b] by {
                            if b < old_idx.len() {
                                assert(old_idx[a] < old_idx[b]);
                            } else {
                                assert(0 <= old_idx[a] < d);
                            }
                        }
                        assert forall|j: int| 0 <= j < idx.len() implies 0 <= #[trigger] idx[j]
                            < d + 1 && group_parsed(
                            fs,
                            defs@[idx[j]].count_tag,
                            defs@[idx[j]].delimiter_tag,
                            defs@[idx[j]].fields@,
                            Ok(Some(groups@[j])),
                        ) by {
                            if j < old_idx.len() {
                                assert(old_idx[j] == idx[j]);
                                assert(groups@[j] == old_groups[j]);
                            }
                        }
                        assert forall|dd: int| 0 <= dd < d + 1 implies (exists|j: int|
                            0 <= j < idx.len() && #[trigger] idx[j] == dd) || group_parsed(
                            fs,
                            defs@[dd].count_tag,
                            defs@[dd].delimiter_tag,
                            defs@[dd].fields@,
                            Ok(None),
                        ) by {
                            if dd == d {
                                assert(idx[old_idx.len() as int] == dd);
                            } else if exists|j: int| 0 <= j < old_idx.len() && #[trigger] old_idx[j] == dd {
                                let j = choose|j: int| 0 <= j < old_idx.len() && #[trigger] old_idx[j] == dd;
                                assert(idx[j] == dd);
                            }
                        }
                        assert(group_read_ok(fs, defs@, d as int));
                        assert forall|j: int| 0 <= j < groups@.len() implies exists|dd: int|
                            0 <= dd < defs@.len() && group_parsed(
                                fs,
                                defs@[dd].count_tag,
                                defs@[dd].delimiter_tag,
                                defs@[dd].fields@,
                                Ok(Some(#[trigger] groups@[j])),
                            ) by {
                            assert(groups_found(fs, defs@, old_groups));
                            if j < old_groups.len() {
                                assert(groups@[j] == old_groups[j]);
                            } else {
                                assert(group_parsed(
                                    fs,
                                    defs@[d as int].count_tag,
                                    defs@[d as int].delimiter_tag,
                                    defs@[d as int].fields@,
                                    Ok(Some(groups@[j])),
                                ));
                            }
                        }
                    }
                },
                Ok(None) => {
                    proof {
                        assert(group_read_ok(fs, defs@, d as int));
                    }
                },
                Err(e) => {
                    assert(group_parsed(
                        fs,
                        defs@[d as int].count_tag,
                        defs@[d as int].delimiter_tag,
                        defs@[d as int].fields@,
                        Err(e),
                    ));
                    return Err(e);
                },
            }
            d = d + 1;
        }
        assert(groups_found(fs, defs@, groups@));
        assert(groups_in_order(fs, defs@, defs@.len() as int, groups@, idx));
        Ok(groups)
    }

    /// Checks the checksum in the trailer against the bytes before it.
    pub fn validate_checksum(&self, data: &[u8]) -> (r: Result<(), ParseError>)
        ensures
            r == checksum_check(data@),
    {
        self.raw_parser.validate_checksum(data)
    }
}

} // verus!
