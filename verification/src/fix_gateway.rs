//! The exchange's FIX gateway, apart from its sockets: where a message ends
//! in the bytes received, what one message does (checksum, parse, business
//! rules, matching engine, execution report), and the bytes sent back. The
//! caller owns the connection and hands in what it reads.

use crate::fix::bridge::order_converter::conversion;
use crate::fix::bridge::response_converter::trade_report;
use crate::fix::bridge::{processed, FixOrderBridge};
use crate::fix::error::{BusinessError, FixError, SessionError};
use crate::fix::messages::FixMessage;
use crate::fix::parser::raw_parser::{checksum_check, SOH};
use crate::fix::parser::{message_parsed, FixParser};
use crate::matching_engine::{placed, MatchingEngine, MatchingError};
use crate::order::Order;
use crate::text::{concat_text, decimal_string, decimal_text};
use vstd::prelude::*;
use vstd::utf8::encode_utf8;

verus! {

/// A checksum field starts at `i`: the seven bytes there are `10=`, three
/// bytes, and SOH.
pub open spec fn checksum_field_at(s: Seq<u8>, i: int) -> bool {
    &&& 0 <= i
    &&& i + 7 <= s.len()
    &&& s[i] == 49
    &&& s[i + 1] == 48
    &&& s[i + 2] == 61
    &&& s[i + 6] == SOH
}

/// The text of the execution report sent back for an order: the gateway
/// does not write reports out field by field, so it is this fixed message.
pub open spec fn report_text() -> Seq<char> {
    "8=FIX.4.4\x019=50\x0135=8\x0149=EXCHANGE\x0156=CLIENT\x0134=1\x0152=20240101-12:00:00\x0110=123\x01"@
}

/// The text of a reject message carrying the error text `e`.
pub open spec fn reject_text(e: Seq<char>) -> Seq<char> {
    "8=FIX.4.4\x019=100\x0135=3\x0149=EXCHANGE\x0156=CLIENT\x0134=1\x0152=20240101-12:00:00\x0158="@
        + e + "\x0110=123\x01"@
}

/// `f` is the FIX error that the matching error `e` is reported as.
pub open spec fn reported_as(e: MatchingError, f: FixError) -> bool {
    match e {
        MatchingError::SymbolNotFound => f matches FixError::Business(
            BusinessError::InvalidSymbol { symbol },
        ) && symbol@ == "Unknown"@,
        MatchingError::NoLiquidity => f == FixError::Business(
            BusinessError::InvalidQuantity { quantity: 0 },
        ),
        MatchingError::FOKCannotBeFilled => f == FixError::Business(
            BusinessError::InvalidQuantity { quantity: 0 },
        ),
        MatchingError::InternalError(_) => f == FixError::Session(SessionError::InvalidSessionState),
    }
}

/// The client order id the gateway gives the `n`th order: `ORDER` and `n`.
pub open spec fn order_ref_text(n: u64) -> Seq<char> {
    "ORDER"@ + decimal_text(n as nat)
}

/// What handling the bytes `data` of one message does, `r` being the reply:
/// a message whose checksum or parse fails is answered with that error and
/// changes nothing; a parsed message goes through the bridge, whose error
/// is the reply; a new order the bridge turns into an engine order takes
/// the next client order id, is placed, and is answered with the execution
/// report, or with the error the engine or the report gives.
pub open spec fn gateway_handled(
    data: Seq<u8>,
    bridge0: FixOrderBridge,
    bridge1: FixOrderBridge,
    engine0: MatchingEngine,
    engine1: MatchingEngine,
    counter0: u64,
    counter1: u64,
    r: Result<Option<Vec<u8>>, FixError>,
) -> bool {
    match checksum_check(data) {
        Err(e) => r == Err::<Option<Vec<u8>>, FixError>(FixError::Parse(e)) && bridge1 == bridge0
            && engine1 == engine0 && counter1 == counter0,
        Ok(()) => exists|p: Result<FixMessage, FixError>|
            #[trigger] message_parsed(data, p) && match p {
                Err(e) => r == Err::<Option<Vec<u8>>, FixError>(e) && bridge1 == bridge0 && engine1
                    == engine0 && counter1 == counter0,
                Ok(m) => exists|mid: FixOrderBridge, b: Result<Option<Order>, FixError>|
                    #[trigger] processed(bridge0, mid, m, b) && match b {
                        Err(e) => r == Err::<Option<Vec<u8>>, FixError>(e) && bridge1 == mid
                            && engine1 == engine0 && counter1 == counter0,
                        Ok(None) => r == Ok::<Option<Vec<u8>>, FixError>(None) && bridge1 == mid
                            && engine1 == engine0 && counter1 == counter0,
                        Ok(Some(order)) => {
                            &&& counter1 == counter0 + 1
                            &&& bridge1.symbols() == mid.symbols()
                            &&& bridge1.active_ids() == mid.active_ids()
                            &&& exists|placed_r: Result<crate::matching_engine::TradeExecutionResult, MatchingError>|
                                #[trigger] placed(engine0, engine1, order, placed_r) && match placed_r {
                                    Err(me) => (r matches Err(f) && reported_as(me, f))
                                        && bridge1.next_exec_id() == mid.next_exec_id(),
                                    Ok(res) => exists|report: Result<FixMessage, FixError>|
                                        #[trigger] trade_report(
                                            res,
                                            order_ref_text(counter0),
                                            mid.next_exec_id(),
                                            report,
                                        ) && match report {
                                            Err(e) => r == Err::<Option<Vec<u8>>, FixError>(e)
                                                && bridge1.next_exec_id() == mid.next_exec_id(),
                                            Ok(_) => (r matches Ok(Some(v)) && v@ == encode_utf8(
                                                report_text(),
                                            )) && bridge1.next_exec_id() == mid.next_exec_id() + 1,
                                        },
                                }
                        },
                    },
            },
    }
}

impl From<MatchingError> for FixError {
    fn from(error: MatchingError) -> (r: FixError)
        ensures
            reported_as(error, r),
    {
        matching_error_to_fix(error)
    }
}

impl vstd::std_specs::convert::FromSpecImpl<MatchingError> for FixError {
    /// The reported error carries a fresh text, so `from` promises no single
    /// value; its own `ensures` says what it gives.
    open spec fn obeys_from_spec() -> bool {
        false
    }

    open spec fn from_spec(error: MatchingError) -> FixError {
        choose|f: FixError| reported_as(error, f)
    }
}

/// The FIX error a matching error is reported as.
fn matching_error_to_fix(error: MatchingError) -> (r: FixError)
    ensures
        reported_as(error, r),
{
    match error {
        MatchingError::SymbolNotFound => FixError::Business(
            BusinessError::InvalidSymbol { symbol: "Unknown".to_owned() },
        ),
        MatchingError::NoLiquidity => FixError::Business(BusinessError::InvalidQuantity { quantity: 0 }),
        MatchingError::FOKCannotBeFilled => FixError::Business(
            BusinessError::InvalidQuantity { quantity: 0 },
        ),
        MatchingError::InternalError(_) => FixError::Session(SessionError::InvalidSessionState),
    }
}

/// An order the bridge makes of a message is fresh: nothing of it is
/// filled.
proof fn lemma_bridge_order_fresh(
    before: FixOrderBridge,
    after: FixOrderBridge,
    m: FixMessage,
    order: Order,
)
    requires
        processed(before, after, m, Ok(Some(order))),
    ensures
        order.filled_quantity == 0,
{
    match m {
        FixMessage::NewOrderSingle(o) => {
            assert(conversion(o, Ok::<Order, FixError>(order)));
        },
        _ => {},
    }
}

/// The end of the first message in `buffer`: the SOH that closes the first
/// checksum field (see `checksum_field_at`), if there is one.
pub fn find_message_boundary(buffer: &[u8]) -> (r: Option<usize>)
    ensures
        match r {
            Some(end) => end >= 6 && checksum_field_at(buffer@, end - 6) && forall|j: int|
                0 <= j < end - 6 ==> !checksum_field_at(buffer@, j),
            None => forall|j: int| !checksum_field_at(buffer@, j),
        },
{
    let n = buffer.len();
    if n < 7 {
        return None;
    }
    let mut i: usize = 0;
    while i <= n - 7
        invariant
            n >= 7,
            n == buffer@.len(),
            forall|j: int| 0 <= j < i ==> !checksum_field_at(buffer@, j),
        decreases n - i,
    {
        if buffer[i] == 49 && buffer[i + 1] == 48 && buffer[i + 2] == 61 && buffer[i + 6] == SOH {
            return Some(i + 6);
        }
        i = i + 1;
    }
    None
}

/// The bytes of the execution report sent for a message.
pub fn serialize_fix_message(message: &FixMessage) -> (r: Result<Vec<u8>, FixError>)
    ensures
        r matches Ok(v) && v@ == encode_utf8(report_text()),
{
    let text = "8=FIX.4.4\x019=50\x0135=8\x0149=EXCHANGE\x0156=CLIENT\x0134=1\x0152=20240101-12:00:00\x0110=123\x01";
    Ok(vstd::slice::slice_to_vec(text.as_bytes()))
}

/// The bytes of a reject message carrying the text of an error.
pub fn create_reject_message(error_text: &str) -> (r: Vec<u8>)
    ensures
        r@ == encode_utf8(reject_text(error_text@)),
{
    let head = concat_text(
        "8=FIX.4.4\x019=100\x0135=3\x0149=EXCHANGE\x0156=CLIENT\x0134=1\x0152=20240101-12:00:00\x0158=",
        error_text,
    );
    let text = concat_text(head.as_str(), "\x0110=123\x01");
    vstd::slice::slice_to_vec(text.as_str().as_bytes())
}

/// Handles the bytes of one message, as `gateway_handled` says.
pub fn process_fix_message(
    parser: &mut FixParser,
    bridge: &mut FixOrderBridge,
    message_data: &[u8],
    matching_engine: &mut MatchingEngine,
    cl_ord_id_counter: &mut u64,
) -> (r: Result<Option<Vec<u8>>, FixError>)
    requires
        old(bridge).wf(),
        old(bridge).next_exec_id() < u64::MAX,
        old(matching_engine).wf(),
        old(matching_engine).next_order_id < u64::MAX,
        old(matching_engine).next_trade_id + u32::MAX <= u64::MAX,
        *old(cl_ord_id_counter) < u64::MAX,
    ensures
        final(bridge).wf(),
        final(matching_engine).wf(),
        gateway_handled(
            message_data@,
            *old(bridge),
            *final(bridge),
            *old(matching_engine),
            *final(matching_engine),
            *old(cl_ord_id_counter),
            *final(cl_ord_id_counter),
            r,
        ),
{
    match parser.validate_checksum(message_data) {
        Ok(()) => {},
        Err(e) => {
            return Err(FixError::Parse(e));
        },
    }
    let parsed = parser.parse(message_data);
    proof {
        assert(message_parsed(message_data@, parsed));
    }
    let fix_message = match parsed {
        Ok(m) => m,
        Err(e) => {
            return Err(e);
        },
    };
    let ghost m = fix_message;
    let ghost bridge0 = *bridge;
    let b = bridge.process_fix_message(fix_message);
    let ghost mid = *bridge;
    proof {
        assert(processed(bridge0, mid, m, b));
    }
    let order = match b {
        Ok(Some(order)) => order,
        Ok(None) => {
            return Ok(None);
        },
        Err(e) => {
            return Err(e);
        },
    };
    proof {
        lemma_bridge_order_fresh(bridge0, mid, m, order);
    }
    let digits = decimal_string(*cl_ord_id_counter);
    let cl_ord_id = concat_text("ORDER", digits.as_str());
    let ghost counter0 = *cl_ord_id_counter;
    *cl_ord_id_counter = *cl_ord_id_counter + 1;
    let ghost engine0 = *matching_engine;
    let placed_r = matching_engine.place_order(order);
    proof {
        assert(placed(engine0, *matching_engine, order, placed_r));
    }
    let result = match placed_r {
        Ok(res) => res,
        Err(e) => {
            return Err(matching_error_to_fix(e));
        },
    };
    let report = bridge.convert_trade_result(&result, cl_ord_id.as_str());
    proof {
        assert(trade_report(result, order_ref_text(counter0), mid.next_exec_id(), report));
    }
    match report {
        Ok(message) => {
            let bytes = serialize_fix_message(&message);
            match bytes {
                Ok(v) => Ok(Some(v)),
                Err(e) => Err(e),
            }
        },
        Err(e) => Err(e),
    }
}

} // verus!
