//! A parser that reads a message together with its header, repeating
//! groups and all of its fields, and checks rules beyond those of the
//! message types.

use crate::clock::unix_nanos;
use crate::fix::decimal::decimal_to_string;
use crate::fix::error::{FixError, ParseError, ValidationError};
use crate::fix::messages::header::{fix44_string, header_matches, header_outcome};
use crate::fix::messages::{
    fix_error_view, msg_type_from_text, text_field, ErrorView, FixMessage, Header, MessageType,
    StandardHeader,
};
use crate::fix::parser::field_parser::FixField;
use crate::fix::parser::group_parser::{GroupDef, GroupDefinitions, RepeatingGroup};
use crate::fix::parser::raw_parser::parsed_fields;
use crate::fix::parser::{fields_typed, groups_found, groups_parsed, message_parsed, typed_map, FixParser};
use crate::text::{concat_text, decimal_string};
use std::collections::HashMap;
use vstd::prelude::*;

verus! {

broadcast use vstd::std_specs::hash::group_hash_axioms;

pub struct AdvancedFixParser {
    base_parser: FixParser,
    performance_mode: bool,
    strict_validation: bool,
    supported_versions: Vec<String>,
}

#[derive(Debug, Clone)]
pub struct ParsedMessage {
    pub message: FixMessage,
    pub header: StandardHeader,
    pub groups: Vec<RepeatingGroup>,
    pub raw_fields: HashMap<u32, FixField>,
    pub parsing_metadata: ParsingMetadata,
}

#[derive(Debug, Clone)]
pub struct ParsingMetadata {
    pub parse_time_nanos: u64,
    pub message_size: usize,
    pub field_count: usize,
    pub group_count: usize,
    pub validation_errors: Vec<String>,
    pub warnings: Vec<String>,
}

#[derive(Debug, Clone)]
pub struct PerformanceStats {
    pub performance_mode_enabled: bool,
    pub strict_validation_enabled: bool,
    pub supported_versions: Vec<String>,
}

#[derive(Debug, Clone)]
pub struct SessionInfo {
    pub sender_comp_id: String,
    pub target_comp_id: String,
    pub msg_seq_num: u32,
    pub sending_time: String,
    pub msg_type: MessageType,
}

/// The texts of a list of strings.
pub open spec fn texts(v: Seq<String>) -> Seq<Seq<char>> {
    v.map_values(|s: String| s@)
}

/// The versions that a new parser accepts: FIX 4.2, 4.4 and 5.0.
pub open spec fn default_versions() -> Seq<Seq<char>> {
    seq![
        seq!['F', 'I', 'X', '.', '4', '.', '2'],
        seq!['F', 'I', 'X', '.', '4', '.', '4'],
        seq!['F', 'I', 'X', '.', '5', '.', '0'],
    ]
}

/// The cheap framing checks made before parsing in performance mode: at
/// least twenty bytes, a start of `8=`, a final SOH, and a last `10=` with at
/// least seven bytes from it to the end.
pub open spec fn quick_check(s: Seq<u8>) -> Result<(), ParseError> {
    if s.len() < 20 {
        Err(ParseError::InvalidFormat)
    } else if s[0] != 56 || s[1] != 61 {
        Err(ParseError::InvalidFormat)
    } else if s[s.len() - 1] != 1 {
        Err(ParseError::MissingSoh)
    } else if !(exists|i: int| is_checksum_start(s, i)) {
        Err(ParseError::InvalidFormat)
    } else if s.len() - last_checksum_start(s) < 7 {
        Err(ParseError::InvalidFormat)
    } else {
        Ok(())
    }
}

/// The bytes at `i` read `10=`.
pub open spec fn is_checksum_start(s: Seq<u8>, i: int) -> bool {
    0 <= i && i + 3 <= s.len() && s[i] == 49 && s[i + 1] == 48 && s[i + 2] == 61
}

/// The last position at which the bytes read `10=`.
pub open spec fn last_checksum_start(s: Seq<u8>) -> int {
    choose|i: int| is_checksum_start(s, i) && forall|j: int| i < j ==> !is_checksum_start(s, j)
}

/// The message types of the session layer.
pub open spec fn is_admin_type(t: MessageType) -> bool {
    t == MessageType::Heartbeat || t == MessageType::TestRequest || t
        == MessageType::ResendRequest || t == MessageType::Reject || t
        == MessageType::SequenceReset || t == MessageType::Logout || t == MessageType::Logon
}

/// `r` is the header that the fields of `data` give: the error of reading
/// the fields, or the header read from the typed fields.
pub open spec fn header_read(data: Seq<u8>, r: Result<StandardHeader, FixError>) -> bool {
    match parsed_fields(data) {
        Err(e) => r == Err::<StandardHeader, FixError>(FixError::Parse(e)),
        Ok(fs) => (exists|m: HashMap<u32, FixField>|
            fields_typed(fs, Ok(m)) && match header_outcome(m@) {
                Ok(()) => r matches Ok(h) && header_matches(m@, h),
                Err(v) => r matches Err(e) && fix_error_view(e) == v,
            }) || (r matches Err(e) && fields_typed(fs, Err(e))),
    }
}

/// Whether `v` holds the text `s`.
pub open spec fn holds_text(v: Seq<String>, s: Seq<char>) -> bool {
    exists|i: int| 0 <= i < v.len() && (#[trigger] v[i])@ == s
}

impl AdvancedFixParser {
    /// Whether the parser runs the quick framing checks first.
    pub closed spec fn performance_mode_on(&self) -> bool {
        self.performance_mode
    }

    /// Whether the parser checks versions and the strict-mode rules.
    pub closed spec fn strict_validation_on(&self) -> bool {
        self.strict_validation
    }

    /// The versions the parser accepts.
    pub closed spec fn versions(&self) -> Seq<String> {
        self.supported_versions@
    }

    /// A parser in strict mode, not in performance mode, for FIX 4.2, 4.4
    /// and 5.0.
    pub fn new() -> (r: Self)
        ensures
            !r.performance_mode_on(),
            r.strict_validation_on(),
            texts(r.versions()) == default_versions(),
    {
        let mut versions: Vec<String> = Vec::new();
        let v42 = "FIX.4.2".to_owned();
        let v44 = fix44_string();
        let v50 = "FIX.5.0".to_owned();
        proof {
            reveal_strlit("FIX.4.2");
            reveal_strlit("FIX.5.0");
        }
        assert(v42@ =~= seq!['F', 'I', 'X', '.', '4', '.', '2']);
        assert(v50@ =~= seq!['F', 'I', 'X', '.', '5', '.', '0']);
        let ghost views = seq![v42@, v44@, v50@];
        versions.push(v42);
        versions.push(v44);
        versions.push(v50);
        assert(texts(versions@) =~= views);
        assert(views =~= default_versions());
        AdvancedFixParser {
            base_parser: FixParser::new(),
            performance_mode: false,
            strict_validation: true,
            supported_versions: versions,
        }
    }

    /// The same parser with performance mode set to `enabled`.
    pub fn with_performance_mode(self, enabled: bool) -> (r: Self)
        ensures
            r.performance_mode_on() == enabled,
            r.strict_validation_on() == self.strict_validation_on(),
            r.versions() == self.versions(),
    {
        let mut s = self;
        s.performance_mode = enabled;
        s
    }

    /// The same parser with strict validation set to `enabled`.
    pub fn with_strict_validation(self, enabled: bool) -> (r: Self)
        ensures
            r.strict_validation_on() == enabled,
            r.performance_mode_on() == self.performance_mode_on(),
            r.versions() == self.versions(),
    {
        let mut s = self;
        s.strict_validation = enabled;
        s
    }

    /// The same parser accepting the given versions.
    pub fn with_supported_versions(self, versions: Vec<String>) -> (r: Self)
        ensures
            r.versions() == versions@,
            r.performance_mode_on() == self.performance_mode_on(),
            r.strict_validation_on() == self.strict_validation_on(),
    {
        let mut s = self;
        s.supported_versions = versions;
        s
    }

    /// The parser's settings.
    pub fn get_performance_stats(&self) -> (r: PerformanceStats)
        ensures
            r.performance_mode_enabled == self.performance_mode_on(),
            r.strict_validation_enabled == self.strict_validation_on(),
            texts(r.supported_versions@) == texts(self.versions()),
    {
        let mut versions: Vec<String> = Vec::new();
        let mut i: usize = 0;
        while i < self.supported_versions.len()
            invariant
                i <= self.supported_versions@.len(),
                texts(versions@) == texts(self.supported_versions@.subrange(0, i as int)),
            decreases self.supported_versions.len() - i,
        {
            let ghost before = versions@;
            let v = self.supported_versions[i].clone();
            versions.push(v);
            proof {
                assert(versions@ == before.push(v));
                assert(texts(versions@) =~= texts(before).push(v@));
                assert(self.supported_versions@.subrange(0, i + 1) =~= self.supported_versions@.subrange(
                    0,
                    i as int,
                ).push(self.supported_versions@[i as int]));
                assert(texts(self.supported_versions@.subrange(0, i + 1)) =~= texts(
                    self.supported_versions@.subrange(0, i as int),
                ).push(self.supported_versions@[i as int]@));
            }
            i = i + 1;
        }
        assert(self.supported_versions@.subrange(0, i as int) =~= self.supported_versions@);
        PerformanceStats {
            performance_mode_enabled: self.performance_mode,
            strict_validation_enabled: self.strict_validation,
            supported_versions: versions,
        }
    }

    /// The framing checks made before parsing in performance mode.
    pub fn quick_validate(&self, data: &[u8]) -> (r: Result<(), FixError>)
        ensures
            match quick_check(data@) {
                Ok(()) => r is Ok,
                Err(e) => r == Err::<(), FixError>(FixError::Parse(e)),
            },
    {
        if data.len() < 20 {
            return Err(FixError::Parse(ParseError::InvalidFormat));
        }
        if data[0] != 56 || data[1] != 61 {
            return Err(FixError::Parse(ParseError::InvalidFormat));
        }
        if data[data.len() - 1] != 1 {
            return Err(FixError::Parse(ParseError::MissingSoh));
        }
        let mut i: usize = data.len() - 3;
        loop
            invariant
                i + 3 <= data@.len(),
                data@.len() >= 20,
                data@[0] == 56 && data@[1] == 61,
                data@[data@.len() - 1] == 1,
                forall|j: int| i < j ==> !is_checksum_start(data@, j),
            decreases i,
        {
            if data[i] == 49 && data[i + 1] == 48 && data[i + 2] == 61 {
                assert(is_checksum_start(data@, i as int));
                assert(last_checksum_start(data@) == i as int) by {
                    let c = last_checksum_start(data@);
                    if c < i {
                    }
                }
                if data.len() - i < 7 {
                    return Err(FixError::Parse(ParseError::InvalidFormat));
                }
                return Ok(());
            }
            if i == 0 {
                assert(!is_checksum_start(data@, 0));
                return Err(FixError::Parse(ParseError::InvalidFormat));
            }
            i = i - 1;
        }
    }

    /// The group definitions that a message type carries.
    /// The repeating groups of the message type found in the message.
    fn parse_message_groups(&mut self, data: &[u8], msg_type: &MessageType) -> (r: Result<
        Vec<RepeatingGroup>,
        FixError,
    >)
        ensures
            final(self).performance_mode_on() == old(self).performance_mode_on(),
            final(self).strict_validation_on() == old(self).strict_validation_on(),
            final(self).versions() == old(self).versions(),
            r matches Ok(gs) ==> groups_read(data@, gs@),
            exists|defs: Seq<GroupDef>|
                #[trigger] group_defs_for(*msg_type, defs) && if defs.len() == 0 {
                    r matches Ok(gs) && gs@.len() == 0
                } else {
                    groups_parsed(data@, defs, r)
                },
    {
        let group_defs = self.get_group_definitions_for_message_type(msg_type);
        if group_defs.len() == 0 {
            let none: Vec<RepeatingGroup> = Vec::new();
            proof {
                if let Ok(fs) = parsed_fields(data@) {
                    assert(groups_found(fs, group_defs@, none@));
                }
                assert(groups_read(data@, none@));
            }
            return Ok(none);
        }
        let r = self.base_parser.parse_repeating_groups(data, &group_defs);
        proof {
            if let Ok(gs) = &r {
                if let Ok(fs) = parsed_fields(data@) {
                    assert(groups_found(fs, group_defs@, gs@));
                }
                assert(groups_read(data@, gs@));
            }
        }
        r
    }

    /// Every field of the message, typed, by tag.
    fn extract_all_fields(&mut self, data: &[u8]) -> (r: Result<HashMap<u32, FixField>, FixError>)
        ensures
            final(self).performance_mode_on() == old(self).performance_mode_on(),
            final(self).strict_validation_on() == old(self).strict_validation_on(),
            final(self).versions() == old(self).versions(),
            match parsed_fields(data@) {
                Err(e) => r == Err::<HashMap<u32, FixField>, FixError>(FixError::Parse(e)),
                Ok(fs) => fields_typed(fs, r),
            },
    {
        self.base_parser.extract_header_fields(data)
    }

    fn get_group_definitions_for_message_type(&self, msg_type: &MessageType) -> (r: Vec<GroupDef>)
        ensures
            group_defs_for(*msg_type, r@),
            (*msg_type == MessageType::NewOrderSingle) ==> r@.len() == 1 && r@[0].count_tag
                == 453,
            (*msg_type == MessageType::MarketDataSnapshotFullRefresh || *msg_type
                == MessageType::MarketDataIncrementalRefresh) ==> r@.len() == 1 && r@[0].count_tag
                == 268,
            (*msg_type == MessageType::SecurityDefinition) ==> r@.len() == 1 && r@[0].count_tag
                == 454,
            !(*msg_type == MessageType::NewOrderSingle || *msg_type
                == MessageType::MarketDataSnapshotFullRefresh || *msg_type
                == MessageType::MarketDataIncrementalRefresh || *msg_type
                == MessageType::SecurityDefinition) ==> r@.len() == 0,
    {
        let mut defs: Vec<GroupDef> = Vec::new();
        match msg_type {
            MessageType::NewOrderSingle => {
                defs.push(GroupDefinitions::parties_group());
            },
            MessageType::MarketDataSnapshotFullRefresh | MessageType::MarketDataIncrementalRefresh => {
                defs.push(GroupDefinitions::md_entries_group());
            },
            MessageType::SecurityDefinition => {
                defs.push(GroupDefinitions::security_alt_id_group());
            },
            _ => {},
        }
        defs
    }

    /// The message type in the header of a message.
    pub fn extract_message_type(&mut self, data: &[u8]) -> (r: Result<MessageType, FixError>)
        ensures
            exists|h: Result<StandardHeader, FixError>|
                header_read(data@, h) && match h {
                    Ok(hd) => r == Ok::<MessageType, FixError>(hd.msg_type),
                    Err(e) => r == Err::<MessageType, FixError>(e),
                },
    {
        let header = self.read_header(data);
        match header {
            Ok(h) => Ok(h.msg_type),
            Err(e) => Err(e),
        }
    }

    /// Reads the header of a message.
    fn read_header(&mut self, data: &[u8]) -> (r: Result<StandardHeader, FixError>)
        ensures
            header_read(data@, r),
    {
        read_header(&mut self.base_parser, data)
    }
}

/// Reads the header of a message with the given parser.
fn read_header(parser: &mut FixParser, data: &[u8]) -> (r: Result<StandardHeader, FixError>)
    ensures
        header_read(data@, r),
{
        let fields = match parser.extract_header_fields(data) {
            Ok(f) => f,
            Err(e) => {
                return Err(e);
            },
        };
        let r = Header::parse(&fields);
        assert(fields_typed(parsed_fields(data@)->Ok_0, Ok(fields)));
        r
}

impl AdvancedFixParser {
    /// Whether a message belongs to the session layer (heartbeat, test
    /// request, resend request, reject, sequence reset, logout, logon).
    pub fn is_administrative_message(&mut self, data: &[u8]) -> (r: Result<bool, FixError>)
        ensures
            exists|h: Result<StandardHeader, FixError>|
                header_read(data@, h) && match h {
                    Ok(hd) => r == Ok::<bool, FixError>(is_admin_type(hd.msg_type)),
                    Err(e) => r == Err::<bool, FixError>(e),
                },
    {
        let msg_type = match self.read_header(data) {
            Ok(h) => h.msg_type,
            Err(e) => {
                return Err(e);
            },
        };
        Ok(
            match msg_type {
                MessageType::Heartbeat | MessageType::TestRequest | MessageType::ResendRequest
                | MessageType::Reject | MessageType::SequenceReset | MessageType::Logout
                | MessageType::Logon => true,
                _ => false,
            },
        )
    }

    /// The session details in the header of a message.
    pub fn extract_session_info(&mut self, data: &[u8]) -> (r: Result<SessionInfo, FixError>)
        ensures
            exists|h: Result<StandardHeader, FixError>|
                header_read(data@, h) && match h {
                    Ok(hd) => r matches Ok(info) && info.sender_comp_id@ == hd.sender_comp_id@
                        && info.target_comp_id@ == hd.target_comp_id@ && info.msg_seq_num
                        == hd.msg_seq_num && info.sending_time@ == hd.sending_time@
                        && info.msg_type == hd.msg_type,
                    Err(e) => r == Err::<SessionInfo, FixError>(e),
                },
    {
        let header = match self.read_header(data) {
            Ok(h) => h,
            Err(e) => {
                return Err(e);
            },
        };
        Ok(
            SessionInfo {
                sender_comp_id: header.sender_comp_id,
                target_comp_id: header.target_comp_id,
                msg_seq_num: header.msg_seq_num,
                sending_time: header.sending_time,
                msg_type: header.msg_type,
            },
        )
    }
}

impl AdvancedFixParser {
    /// Whether the parser accepts the version `version`.
    fn version_supported(&self, version: &String) -> (r: bool)
        ensures
            r == holds_text(self.supported_versions@, version@),
    {
        let mut i: usize = 0;
        while i < self.supported_versions.len()
            invariant
                i <= self.supported_versions@.len(),
                forall|j: int| 0 <= j < i ==> self.supported_versions@[j]@ != version@,
            decreases self.supported_versions.len() - i,
        {
            if self.supported_versions[i] == *version {
                return true;
            }
            i = i + 1;
        }
        false
    }

    /// Reads a message with its header, groups and fields, and in strict
    /// mode checks the business, group and timing rules. The parse time is
    /// measured on the system clock.
    #[verifier::rlimit(40)]
    pub fn parse_advanced(&mut self, data: &[u8]) -> (r: Result<ParsedMessage, FixError>)
        ensures
            old(self).performance_mode_on() && quick_check(data@) is Err ==> r == Err::<
                ParsedMessage,
                FixError,
            >(FixError::Parse(quick_check(data@)->Err_0)),
            r matches Ok(p) ==> {
                &&& !old(self).performance_mode_on() || quick_check(data@) is Ok
                &&& header_read(data@, Ok(p.header))
                &&& old(self).strict_validation_on() ==> holds_text(
                    old(self).versions(),
                    p.header.begin_string@,
                )
                &&& message_parsed(data@, Ok(p.message))
                &&& parsed_fields(data@) matches Ok(fs) && typed_map(fs, p.raw_fields@)
                &&& p.parsing_metadata.message_size == data@.len()
                &&& p.parsing_metadata.group_count == p.groups@.len()
                &&& p.parsing_metadata.field_count == p.raw_fields@.len()
                &&& old(self).strict_validation_on() ==> advanced_checks_pass(
                    p.message,
                    p.header,
                    p.groups@,
                )
            },
            final(self).performance_mode_on() == old(self).performance_mode_on(),
            final(self).strict_validation_on() == old(self).strict_validation_on(),
            final(self).versions() == old(self).versions(),
    {
        let start_time = unix_nanos();
        let mut metadata = ParsingMetadata {
            parse_time_nanos: 0,
            message_size: data.len(),
            field_count: 0,
            group_count: 0,
            validation_errors: Vec::new(),
            warnings: Vec::new(),
        };
        if self.performance_mode {
            match self.quick_validate(data) {
                Ok(()) => {},
                Err(e) => {
                    return Err(e);
                },
            }
        }
        let header = match read_header(&mut self.base_parser, data) {
            Ok(h) => h,
            Err(e) => {
                return Err(e);
            },
        };
        if !self.version_supported(&header.begin_string) {
            if self.strict_validation {
                return Err(
                    FixError::Validation(
                        ValidationError::InvalidMessageType {
                            msg_type: header.begin_string.clone(),
                        },
                    ),
                );
            } else {
                let warning = concat_text("Unsupported FIX version: ", header.begin_string.as_str());
                metadata.warnings.push(warning);
            }
        }
        let message = match self.base_parser.parse(data) {
            Ok(m) => m,
            Err(e) => {
                return Err(e);
            },
        };
        let groups = match self.parse_message_groups(data, &header.msg_type) {
            Ok(g) => g,
            Err(e) => {
                return Err(e);
            },
        };
        metadata.group_count = groups.len();
        let raw_fields = match self.extract_all_fields(data) {
            Ok(f) => f,
            Err(e) => {
                return Err(e);
            },
        };
        metadata.field_count = raw_fields.len();
        if self.strict_validation {
            match perform_advanced_validation(&message, &header, &groups, &mut metadata) {
                Ok(()) => {},
                Err(e) => {
                    return Err(e);
                },
            }
        }
        let end_time = unix_nanos();
        metadata.parse_time_nanos = match (start_time, end_time) {
            (Some(a), Some(b)) => {
                if b >= a && b - a <= 0xffff_ffff_ffff_ffffu128 {
                    (b - a) as u64
                } else {
                    0
                }
            },
            _ => 0,
        };
        Ok(ParsedMessage { message, header, groups, raw_fields, parsing_metadata: metadata })
    }
}

/// The rules checked in strict mode: a new order's price, if any, is
/// positive; an execution report's last quantity, if any, is at most its
/// order quantity; every group has as many instances as its count says; and
/// the header has a sequence number and a sending time.
pub open spec fn advanced_checks_pass(
    message: FixMessage,
    header: StandardHeader,
    groups: Seq<RepeatingGroup>,
) -> bool {
    &&& match message {
        FixMessage::NewOrderSingle(o) => o.price matches Some(p) ==> p.mantissa > 0,
        FixMessage::ExecutionReport(x) => x.last_qty matches Some(q) ==> q <= x.order_qty,
        _ => true,
    }
    &&& forall|i: int|
        0 <= i < groups.len() ==> (#[trigger] groups[i]).count == groups[i].instances@.len()
    &&& header.msg_seq_num != 0
    &&& header.sending_time@.len() > 0
}

/// The strict-mode checks: business rules, group counts, and the timing
/// fields of the header. Warnings go into the metadata.
fn perform_advanced_validation(
    message: &FixMessage,
    header: &StandardHeader,
    groups: &Vec<RepeatingGroup>,
    metadata: &mut ParsingMetadata,
) -> (r: Result<(), FixError>)
    ensures
        r is Ok <==> advanced_checks_pass(*message, *header, groups@),
        final(metadata).message_size == old(metadata).message_size,
        final(metadata).field_count == old(metadata).field_count,
        final(metadata).group_count == old(metadata).group_count,
{
    validate_business_logic(message, metadata)?;
    validate_group_consistency(groups, metadata)?;
    validate_sequence_timing(header, metadata)?;
    Ok(())
}

/// A new order's price must be positive and an execution report's last
/// quantity must not exceed its order quantity; a long symbol or a very
/// large quantity only earns a warning.
fn validate_business_logic(message: &FixMessage, metadata: &mut ParsingMetadata) -> (r: Result<
    (),
    FixError,
>)
    ensures
        r is Ok <==> match *message {
            FixMessage::NewOrderSingle(o) => o.price matches Some(p) ==> p.mantissa > 0,
            FixMessage::ExecutionReport(x) => x.last_qty matches Some(q) ==> q <= x.order_qty,
            _ => true,
        },
        r matches Err(e) ==> fix_error_view(e) matches ErrorView::InvalidFieldValue(_, _),
        final(metadata).message_size == old(metadata).message_size,
        final(metadata).field_count == old(metadata).field_count,
        final(metadata).group_count == old(metadata).group_count,
{
    match message {
        FixMessage::NewOrderSingle(order) => {
            if order.symbol.as_str().len() > 32 {
                let w = "Symbol length exceeds recommended maximum".to_owned();
                metadata.warnings.push(w);
            }
            if let Some(price) = order.price {
                if price.mantissa <= 0 {
                    return Err(
                        FixError::Validation(
                            ValidationError::InvalidFieldValue {
                                tag: 44,
                                value: decimal_to_string(price),
                            },
                        ),
                    );
                }
            }
            if order.order_qty > 10_000_000 {
                let w = "Order quantity unusually large".to_owned();
                metadata.warnings.push(w);
            }
        },
        FixMessage::ExecutionReport(exec) => {
            if let Some(last_qty) = exec.last_qty {
                if last_qty > exec.order_qty {
                    return Err(
                        FixError::Validation(
                            ValidationError::InvalidFieldValue {
                                tag: 32,
                                value: decimal_string(last_qty as u64),
                            },
                        ),
                    );
                }
            }
        },
        _ => {},
    }
    Ok(())
}

/// Every group must have as many instances as its count says; an empty
/// instance only earns a warning.
fn validate_group_consistency(groups: &Vec<RepeatingGroup>, metadata: &mut ParsingMetadata) -> (r:
    Result<(), FixError>)
    ensures
        r is Ok <==> forall|i: int|
            0 <= i < groups@.len() ==> (#[trigger] groups@[i]).count == groups@[i].instances@.len(),
        r matches Err(e) ==> fix_error_view(e) matches ErrorView::InvalidFieldValue(0, _),
        final(metadata).message_size == old(metadata).message_size,
        final(metadata).field_count == old(metadata).field_count,
        final(metadata).group_count == old(metadata).group_count,
{
    let mut g: usize = 0;
    while g < groups.len()
        invariant
            g <= groups@.len(),
            forall|i: int|
                0 <= i < g ==> (#[trigger] groups@[i]).count == groups@[i].instances@.len(),
            metadata.message_size == old(metadata).message_size,
            metadata.field_count == old(metadata).field_count,
            metadata.group_count == old(metadata).group_count,
        decreases groups.len() - g,
    {
        let group = &groups[g];
        if group.count as usize != group.instances.len() {
            let mut text = "Group count mismatch: declared ".to_owned();
            let declared = decimal_string(group.count as u64);
            text = concat_text(text.as_str(), declared.as_str());
            text = concat_text(text.as_str(), " but found ");
            let found = decimal_string(group.instances.len() as u64);
            text = concat_text(text.as_str(), found.as_str());
            text = concat_text(text.as_str(), " instances");
            return Err(FixError::Validation(ValidationError::InvalidFieldValue { tag: 0, value: text }));
        }
        let mut i: usize = 0;
        while i < group.instances.len()
            invariant
                i <= group.instances@.len(),
                metadata.message_size == old(metadata).message_size,
                metadata.field_count == old(metadata).field_count,
                metadata.group_count == old(metadata).group_count,
            decreases group.instances.len() - i,
        {
            if group.instances[i].len() == 0 {
                let index = decimal_string(i as u64);
                let w = concat_text(concat_text("Group instance ", index.as_str()).as_str(), " is empty");
                metadata.warnings.push(w);
            }
            i = i + 1;
        }
        g = g + 1;
    }
    Ok(())
}

/// The groups are, each, what reading one of some group definitions in the
/// message's fields gives.
/// `d` reads a group with that count tag, delimiter tag and member tags.
pub open spec fn group_def_is(d: GroupDef, count: u32, delimiter: u32, fields: Seq<u32>) -> bool {
    d.count_tag == count && d.delimiter_tag == delimiter && d.fields@ == fields
}

/// The group definitions that a message type carries: the parties group for
/// a new order, the market data entries for market data, the alternative
/// security ids for a security definition, none for the rest.
pub open spec fn group_defs_for(t: MessageType, defs: Seq<GroupDef>) -> bool {
    if t == MessageType::NewOrderSingle {
        defs.len() == 1 && group_def_is(defs[0], 453, 448, seq![448u32, 447u32, 452u32, 802u32])
    } else if t == MessageType::MarketDataSnapshotFullRefresh || t
        == MessageType::MarketDataIncrementalRefresh {
        defs.len() == 1 && group_def_is(
            defs[0],
            268,
            269,
            seq![269u32, 270u32, 15u32, 271u32, 272u32, 273u32, 274u32, 275u32, 336u32, 625u32],
        )
    } else if t == MessageType::SecurityDefinition {
        defs.len() == 1 && group_def_is(defs[0], 454, 455, seq![455u32, 456u32])
    } else {
        defs.len() == 0
    }
}

pub open spec fn groups_read(data: Seq<u8>, gs: Seq<RepeatingGroup>) -> bool {
    match parsed_fields(data) {
        Ok(fs) => exists|defs: Seq<GroupDef>| #[trigger] groups_found(fs, defs, gs),
        Err(_) => true,
    }
}

/// The time a FIX timestamp stands for. Timestamps are not read field by
/// field: one of at least 17 bytes stands for the clock's reading now
/// (`None` when the clock reads before the epoch); a shorter one is refused.
fn parse_fix_timestamp(timestamp: &str) -> (r: Result<Option<u128>, ParseError>)
    ensures
        vstd::utf8::encode_utf8(timestamp@).len() < 17 <==> r == Err::<Option<u128>, ParseError>(
            ParseError::InvalidFormat,
        ),
{
    if timestamp.as_bytes().len() < 17 {
        return Err(ParseError::InvalidFormat);
    }
    Ok(unix_nanos())
}

/// The header must have a sequence number and a sending time; a sending
/// time more than five minutes ahead of the clock only earns a warning.
fn validate_sequence_timing(header: &StandardHeader, metadata: &mut ParsingMetadata) -> (r: Result<
    (),
    FixError,
>)
    ensures
        r is Ok <==> header.msg_seq_num != 0 && header.sending_time@.len() > 0,
        r matches Err(e) ==> (if header.msg_seq_num == 0 {
            fix_error_view(e) matches ErrorView::InvalidFieldValue(34, _)
        } else {
            fix_error_view(e) == ErrorView::MissingRequiredField(52)
        }),
        final(metadata).message_size == old(metadata).message_size,
        final(metadata).field_count == old(metadata).field_count,
        final(metadata).group_count == old(metadata).group_count,
{
    if header.msg_seq_num == 0 {
        return Err(
            FixError::Validation(
                ValidationError::InvalidFieldValue { tag: 34, value: decimal_string(0) },
            ),
        );
    }
    if header.sending_time.as_str().is_empty() {
        return Err(FixError::Validation(ValidationError::MissingRequiredField { tag: 52 }));
    }
    if let Ok(parsed) = parse_fix_timestamp(header.sending_time.as_str()) {
        let now = unix_nanos();
        match (parsed, now) {
            (Some(p), Some(n)) => {
                if n <= u128::MAX - 300_000_000_000u128 && p > n + 300_000_000_000u128 {
                    let w = "Message timestamp is in the future".to_owned();
                    metadata.warnings.push(w);
                }
            },
            _ => {},
        }
    }
    Ok(())
}

} // verus!
