//! Turning the result of placing an order into a FIX execution report.

use crate::clock::unix_secs;
use crate::fix::bridge::order_converter::{order_type_of, price_in_units, side_of, time_in_force_of};
use crate::fix::decimal::FixDecimal;
use crate::fix::error::{FixError, ParseError};
use crate::fix::messages::execution_report::{exec_type_code, ord_status_code, ExecType, OrdStatus};
use crate::fix::messages::header::{fix44_string, fix44_text};
use crate::fix::messages::{ExecutionReport, FixMessage, MessageType, StandardHeader, Trailer};
use crate::matching_engine::{result_orders_ok, Trade, TradeExecutionResult};
use crate::order::{Order, OrderType, Side, TimeInForce};
use crate::text::{decimal_string, decimal_text, padded_text, push_char, push_padded};
use vstd::prelude::*;

verus! {

pub struct FixResponseConverter {
    next_exec_id: u64,
}

/// The FIX side code of an engine side.
pub open spec fn side_code(s: Side) -> char {
    match s {
        Side::Buy => '1',
        Side::Sell => '2',
    }
}

/// The FIX order type code of an engine order type; an iceberg order is
/// reported as a limit order.
pub open spec fn order_type_code(t: OrderType) -> char {
    match t {
        OrderType::Market => '1',
        OrderType::Limit => '2',
        OrderType::StopMarket => '3',
        OrderType::StopLimit => '4',
        OrderType::Iceberg => '2',
    }
}

/// The FIX time in force code of an engine time in force.
pub open spec fn tif_code(t: TimeInForce) -> char {
    match t {
        TimeInForce::Day => '0',
        TimeInForce::GTC => '1',
        TimeInForce::IOC => '3',
        TimeInForce::FOK => '4',
        TimeInForce::GTD => '6',
    }
}

/// An engine price, in units of 10^-4, as a FIX decimal; a price beyond the
/// range of a signed mantissa loses its last digit.
pub open spec fn price_decimal(p: u64) -> FixDecimal {
    if p <= i64::MAX {
        FixDecimal { mantissa: p as i64, scale: 4 }
    } else {
        FixDecimal { mantissa: (p / 10) as i64, scale: 3 }
    }
}

/// The transaction time text: a fixed date of 2024-01-01 and the time of day
/// of `now` seconds since the epoch.
pub open spec fn report_timestamp_text(now: nat) -> Seq<char> {
    padded_text(2024, 4) + padded_text(1, 2) + padded_text(1, 2) + seq!['-'] + padded_text(
        (now / 3600) % 24,
        2,
    ) + seq![':'] + padded_text((now / 60) % 60, 2) + seq![':'] + padded_text(now % 60, 2)
}

/// The text `EXCHANGE`.
pub open spec fn exchange_text() -> Seq<char> {
    "EXCHANGE"@
}

/// The text `CLIENT`.
pub open spec fn client_text() -> Seq<char> {
    "CLIENT"@
}

/// `h` is the header of a report from the exchange to the client: FIX 4.4,
/// an execution report, sequence number 1.
pub open spec fn report_header(h: StandardHeader) -> bool {
    &&& h.begin_string@ == fix44_text()
    &&& h.body_length == 0
    &&& h.msg_type == MessageType::ExecutionReport
    &&& h.sender_comp_id@ == exchange_text()
    &&& h.target_comp_id@ == client_text()
    &&& h.msg_seq_num == 1
    &&& exists|now: nat| h.sending_time@ == report_timestamp_text(now)
    &&& h.poss_dup_flag is None && h.poss_resend is None
    &&& h.secure_data_len is None && h.secure_data is None
}

/// `x` reports `order`, under the client order id `cl_ord_id` and the
/// execution id `exec_id`, with the given execution type and status.
pub open spec fn reports_order(
    x: ExecutionReport,
    order: Order,
    cl_ord_id: Seq<char>,
    exec_id: u64,
    exec_type: char,
    ord_status: char,
) -> bool {
    &&& report_header(x.header)
    &&& x.order_id@ == decimal_text(order.id as nat)
    &&& x.cl_ord_id@ == cl_ord_id
    &&& x.orig_cl_ord_id is None
    &&& x.exec_id@ == decimal_text(exec_id as nat)
    &&& x.exec_type == exec_type
    &&& x.ord_status == ord_status
    &&& x.account is None
    &&& x.symbol@ == order.symbol@
    &&& x.side == side_code(order.side)
    &&& x.order_qty == order.quantity
    &&& x.ord_type == order_type_code(order.order_type)
    &&& x.price == (if order.order_type == OrderType::Limit || order.order_type
        == OrderType::StopLimit {
        Some(price_decimal(order.price))
    } else {
        None
    })
    &&& x.stop_px == (match order.stop_price {
        Some(p) => Some(price_decimal(p)),
        None => None,
    })
    &&& x.time_in_force == Some(tif_code(order.time_in_force))
    &&& x.leaves_qty == order.remaining()
    &&& x.cum_qty == order.filled_quantity
    &&& exists|now: nat| x.transact_time@ == report_timestamp_text(now)
    &&& x.text is None
    &&& x.trailer.checksum == 0
}

/// `x` is a rejection of the client order id with the given reason.
pub open spec fn reports_rejection(x: ExecutionReport, cl_ord_id: Seq<char>, exec_id: u64, reason: Seq<char>) -> bool {
    &&& report_header(x.header)
    &&& x.order_id@ == seq!['0']
    &&& x.cl_ord_id@ == cl_ord_id
    &&& x.orig_cl_ord_id is None
    &&& x.exec_id@ == decimal_text(exec_id as nat)
    &&& x.exec_type == exec_type_code(ExecType::Rejected)
    &&& x.ord_status == ord_status_code(OrdStatus::Rejected)
    &&& x.account is None
    &&& x.symbol@.len() == 0
    &&& x.side == '1'
    &&& x.order_qty == 0
    &&& x.ord_type == '2'
    &&& x.price is None && x.stop_px is None && x.time_in_force is None
    &&& x.last_qty is None && x.last_px is None && x.avg_px is None
    &&& x.leaves_qty == 0 && x.cum_qty == 0
    &&& exists|now: nat| x.transact_time@ == report_timestamp_text(now)
    &&& x.text matches Some(t) && t@ == reason
    &&& x.trailer.checksum == 0
}

/// The order a trade report describes: the order left over, or else the
/// first filled order.
pub open spec fn reported_order(r: TradeExecutionResult) -> Option<Order> {
    match r.remaining_order {
        Some(o) => Some(o),
        None => if r.filled_orders@.len() > 0 {
            Some(r.filled_orders@[0])
        } else {
            None
        },
    }
}

/// What reporting a trade result under `cl_ord_id` gives, with `exec_id`
/// the execution id used: a rejection for a rejected order; for an order
/// that traded, a fill or partial fill on the first trade; for an order left
/// resting without trades, a new order report; a rejection otherwise.
pub open spec fn trade_report(
    r: TradeExecutionResult,
    cl_ord_id: Seq<char>,
    exec_id: u64,
    out: Result<FixMessage, FixError>,
) -> bool {
    if r.rejected {
        out matches Ok(FixMessage::ExecutionReport(x)) && reports_rejection(x, cl_ord_id, exec_id, "Order rejected"@)
    } else if r.trades@.len() > 0 {
        match reported_order(r) {
            None => out == Err::<FixMessage, FixError>(FixError::Parse(ParseError::InvalidFormat)),
            Some(o) => {
                let t = r.trades@[0];
                let filled = o.filled();
                out matches Ok(FixMessage::ExecutionReport(x)) && reports_order(
                    x,
                    o,
                    cl_ord_id,
                    exec_id,
                    if filled {
                        exec_type_code(ExecType::Fill)
                    } else {
                        exec_type_code(ExecType::PartialFill)
                    },
                    if filled {
                        ord_status_code(OrdStatus::Filled)
                    } else {
                        ord_status_code(OrdStatus::PartiallyFilled)
                    },
                ) && x.last_qty == Some(t.quantity) && x.last_px == Some(price_decimal(t.price))
                    && x.avg_px == Some(price_decimal(t.price))
            },
        }
    } else if r.remaining_order is Some {
        out matches Ok(FixMessage::ExecutionReport(x)) && reports_order(
            x,
            r.remaining_order->0,
            cl_ord_id,
            exec_id,
            exec_type_code(ExecType::New),
            ord_status_code(OrdStatus::New),
        ) && x.last_qty is None && x.last_px is None && x.avg_px is None
    } else {
        out matches Ok(FixMessage::ExecutionReport(x)) && reports_rejection(x, cl_ord_id, exec_id, "No action taken"@)
    }
}

/// An engine price as a FIX decimal.
fn to_price_decimal(p: u64) -> (r: FixDecimal)
    ensures
        r == price_decimal(p),
{
    if p <= i64::MAX as u64 {
        FixDecimal { mantissa: p as i64, scale: 4 }
    } else {
        FixDecimal { mantissa: (p / 10) as i64, scale: 3 }
    }
}

/// The transaction time text for the clock reading `now`.
fn report_timestamp(now: u64) -> (r: String)
    ensures
        r@ == report_timestamp_text(now as nat),
{
    let mut s = String::new();
    push_padded(&mut s, 2024, 4);
    push_padded(&mut s, 1, 2);
    push_padded(&mut s, 1, 2);
    push_char(&mut s, '-');
    push_padded(&mut s, (now / 3600) % 24, 2);
    push_char(&mut s, ':');
    push_padded(&mut s, (now / 60) % 60, 2);
    push_char(&mut s, ':');
    push_padded(&mut s, now % 60, 2);
    assert(s@ =~= report_timestamp_text(now as nat));
    s
}

/// The transaction time text for now; a clock before the epoch reads as
/// the epoch.
fn get_utc_timestamp() -> (r: String)
    ensures
        exists|now: nat| r@ == report_timestamp_text(now),
{
    let now = match unix_secs() {
        Some(s) => s,
        None => 0,
    };
    report_timestamp(now)
}

/// The header of a report from the exchange to the client.
fn create_standard_header() -> (r: StandardHeader)
    ensures
        report_header(r),
{
    StandardHeader {
        begin_string: fix44_string(),
        body_length: 0,
        msg_type: MessageType::ExecutionReport,
        sender_comp_id: "EXCHANGE".to_owned(),
        target_comp_id: "CLIENT".to_owned(),
        msg_seq_num: 1,
        sending_time: get_utc_timestamp(),
        poss_dup_flag: None,
        poss_resend: None,
        secure_data_len: None,
        secure_data: None,
    }
}

fn convert_side_to_char(side: Side) -> (r: char)
    ensures
        r == side_code(side),
{
    match side {
        Side::Buy => '1',
        Side::Sell => '2',
    }
}

fn convert_order_type_to_char(order_type: OrderType) -> (r: char)
    ensures
        r == order_type_code(order_type),
{
    match order_type {
        OrderType::Market => '1',
        OrderType::Limit => '2',
        OrderType::StopMarket => '3',
        OrderType::StopLimit => '4',
        OrderType::Iceberg => '2',
    }
}

fn convert_time_in_force_to_char(time_in_force: TimeInForce) -> (r: char)
    ensures
        r == tif_code(time_in_force),
{
    match time_in_force {
        TimeInForce::Day => '0',
        TimeInForce::GTC => '1',
        TimeInForce::IOC => '3',
        TimeInForce::FOK => '4',
        TimeInForce::GTD => '6',
    }
}

impl FixResponseConverter {
    /// The execution id the next report takes.
    pub closed spec fn next_id(&self) -> u64 {
        self.next_exec_id
    }

    /// A converter whose first execution id is 1.
    /// The execution id the next report will carry.
    pub fn get_next_exec_id(&self) -> (r: u64)
        ensures
            r == self.next_id(),
    {
        self.next_exec_id
    }

    pub fn new() -> (r: Self)
        ensures
            r.next_id() == 1,
    {
        FixResponseConverter { next_exec_id: 1 }
    }

    /// The execution report for the result of placing an order; each report
    /// takes the next execution id.
    pub fn convert_trade_result(&mut self, result: &TradeExecutionResult, cl_ord_id: &str) -> (r:
        Result<FixMessage, FixError>)
        requires
            old(self).next_id() < u64::MAX,
            result_orders_ok(*result),
        ensures
            trade_report(*result, cl_ord_id@, old(self).next_id(), r),
            r is Ok ==> final(self).next_id() == old(self).next_id() + 1,
            r is Err ==> final(self).next_id() == old(self).next_id(),
    {
        if result.rejected {
            return self.create_rejection_execution_report(cl_ord_id, "Order rejected");
        }
        if result.trades.len() > 0 {
            self.create_trade_execution_report(result, cl_ord_id)
        } else if result.remaining_order.is_some() {
            self.create_new_execution_report(result, cl_ord_id)
        } else {
            self.create_rejection_execution_report(cl_ord_id, "No action taken")
        }
    }

    /// Takes the next execution id.
    fn next_exec_id(&mut self) -> (r: u64)
        requires
            old(self).next_exec_id < u64::MAX,
        ensures
            r == old(self).next_exec_id,
            final(self).next_exec_id == old(self).next_exec_id + 1,
    {
        let id = self.next_exec_id;
        self.next_exec_id = self.next_exec_id + 1;
        id
    }

    /// A fill or partial fill report on the first trade.
    fn create_trade_execution_report(&mut self, result: &TradeExecutionResult, cl_ord_id: &str) -> (r:
        Result<FixMessage, FixError>)
        requires
            old(self).next_exec_id < u64::MAX,
            result_orders_ok(*result),
            !result.rejected,
            result.trades@.len() > 0,
        ensures
            trade_report(*result, cl_ord_id@, old(self).next_exec_id, r),
            r is Ok ==> final(self).next_exec_id == old(self).next_exec_id + 1,
            r is Err ==> final(self).next_exec_id == old(self).next_exec_id,
    {
        let trade = &result.trades[0];
        let order: &Order = match &result.remaining_order {
            Some(o) => o,
            None => {
                if result.filled_orders.len() > 0 {
                    &result.filled_orders[0]
                } else {
                    return Err(FixError::Parse(ParseError::InvalidFormat));
                }
            },
        };
        let filled = order.is_filled();
        let exec_type = if filled {
            ExecType::Fill
        } else {
            ExecType::PartialFill
        };
        let ord_status = if filled {
            OrdStatus::Filled
        } else {
            OrdStatus::PartiallyFilled
        };
        let header = create_standard_header();
        let exec_id = self.next_exec_id();
        let execution_report = ExecutionReport {
            header,
            order_id: decimal_string(order.id),
            cl_ord_id: cl_ord_id.to_owned(),
            orig_cl_ord_id: None,
            exec_id: decimal_string(exec_id),
            exec_type: exec_type.to_char(),
            ord_status: ord_status.to_char(),
            account: None,
            symbol: order.symbol.clone(),
            side: convert_side_to_char(order.side),
            order_qty: order.quantity,
            ord_type: convert_order_type_to_char(order.order_type),
            price: if order.order_type == OrderType::Limit || order.order_type == OrderType::StopLimit {
                Some(to_price_decimal(order.price))
            } else {
                None
            },
            stop_px: match order.stop_price {
                Some(p) => Some(to_price_decimal(p)),
                None => None,
            },
            time_in_force: Some(convert_time_in_force_to_char(order.time_in_force)),
            last_qty: Some(trade.quantity),
            last_px: Some(to_price_decimal(trade.price)),
            leaves_qty: order.remaining_quantity(),
            cum_qty: order.filled_quantity,
            avg_px: Some(to_price_decimal(trade.price)),
            transact_time: get_utc_timestamp(),
            text: None,
            trailer: Trailer { checksum: 0 },
        };
        Ok(FixMessage::ExecutionReport(execution_report))
    }

    /// A new order report for an order left resting.
    fn create_new_execution_report(&mut self, result: &TradeExecutionResult, cl_ord_id: &str) -> (r:
        Result<FixMessage, FixError>)
        requires
            old(self).next_exec_id < u64::MAX,
            result_orders_ok(*result),
            !result.rejected,
            result.trades@.len() == 0,
            result.remaining_order is Some,
        ensures
            trade_report(*result, cl_ord_id@, old(self).next_exec_id, r),
            r is Ok,
            final(self).next_exec_id == old(self).next_exec_id + 1,
    {
        let order: &Order = match &result.remaining_order {
            Some(o) => o,
            None => {
                return Err(FixError::Parse(ParseError::InvalidFormat));
            },
        };
        let header = create_standard_header();
        let exec_id = self.next_exec_id();
        let execution_report = ExecutionReport {
            header,
            order_id: decimal_string(order.id),
            cl_ord_id: cl_ord_id.to_owned(),
            orig_cl_ord_id: None,
            exec_id: decimal_string(exec_id),
            exec_type: ExecType::New.to_char(),
            ord_status: OrdStatus::New.to_char(),
            account: None,
            symbol: order.symbol.clone(),
            side: convert_side_to_char(order.side),
            order_qty: order.quantity,
            ord_type: convert_order_type_to_char(order.order_type),
            price: if order.order_type == OrderType::Limit || order.order_type == OrderType::StopLimit {
                Some(to_price_decimal(order.price))
            } else {
                None
            },
            stop_px: match order.stop_price {
                Some(p) => Some(to_price_decimal(p)),
                None => None,
            },
            time_in_force: Some(convert_time_in_force_to_char(order.time_in_force)),
            last_qty: None,
            last_px: None,
            leaves_qty: order.remaining_quantity(),
            cum_qty: order.filled_quantity,
            avg_px: None,
            transact_time: get_utc_timestamp(),
            text: None,
            trailer: Trailer { checksum: 0 },
        };
        Ok(FixMessage::ExecutionReport(execution_report))
    }

    /// A rejection of the client order id with the given reason.
    fn create_rejection_execution_report(&mut self, cl_ord_id: &str, reason: &str) -> (r: Result<
        FixMessage,
        FixError,
    >)
        requires
            old(self).next_exec_id < u64::MAX,
        ensures
            r matches Ok(FixMessage::ExecutionReport(x)) && reports_rejection(
                x,
                cl_ord_id@,
                old(self).next_exec_id,
                reason@,
            ),
            final(self).next_exec_id == old(self).next_exec_id + 1,
    {
        let header = create_standard_header();
        let exec_id = self.next_exec_id();
        let order_id = "0".to_owned();
        proof {
            reveal_strlit("0");
        }
        let execution_report = ExecutionReport {
            header,
            order_id,
            cl_ord_id: cl_ord_id.to_owned(),
            orig_cl_ord_id: None,
            exec_id: decimal_string(exec_id),
            exec_type: ExecType::Rejected.to_char(),
            ord_status: OrdStatus::Rejected.to_char(),
            account: None,
            symbol: String::new(),
            side: '1',
            order_qty: 0,
            ord_type: '2',
            price: None,
            stop_px: None,
            time_in_force: None,
            last_qty: None,
            last_px: None,
            leaves_qty: 0,
            cum_qty: 0,
            avg_px: None,
            transact_time: get_utc_timestamp(),
            text: Some(reason.to_owned()),
            trailer: Trailer { checksum: 0 },
        };
        assert(execution_report.order_id@ =~= seq!['0']);
        Ok(FixMessage::ExecutionReport(execution_report))
    }
}

/// The codes a report writes read back through the inbound FIX mapping:
/// the side code of every side, the order type code of every order type (an
/// iceberg reads back as the limit order it is reported as), and the time in
/// force code of every time in force but good-till-date, which the inbound
/// mapping does not know.
pub proof fn lemma_report_codes_read_back(s: Side, t: OrderType, f: TimeInForce)
    ensures
        side_of(side_code(s)) == Some(s),
        t != OrderType::Iceberg ==> order_type_of(order_type_code(t)) == Some(t),
        t == OrderType::Iceberg ==> order_type_of(order_type_code(t)) == Some(OrderType::Limit),
        f != TimeInForce::GTD ==> time_in_force_of(Some(tif_code(f))) == f,
{
}

/// A report of an order names, as the inbound mapping reads it, the order's
/// side and time in force (unless good-till-date), and its order type
/// (a limit order for an iceberg).
pub proof fn lemma_report_reads_as_order(
    x: ExecutionReport,
    order: Order,
    cl_ord_id: Seq<char>,
    exec_id: u64,
    exec_type: char,
    ord_status: char,
)
    requires
        reports_order(x, order, cl_ord_id, exec_id, exec_type, ord_status),
    ensures
        side_of(x.side) == Some(order.side),
        order.time_in_force != TimeInForce::GTD ==> time_in_force_of(x.time_in_force)
            == order.time_in_force,
        order_type_of(x.ord_type) == Some(
            if order.order_type == OrderType::Iceberg {
                OrderType::Limit
            } else {
                order.order_type
            },
        ),
{
    lemma_report_codes_read_back(order.side, order.order_type, order.time_in_force);
}

/// An engine price written into a report reads back, through the inbound
/// conversion to units of 10^-4, as the same price, for every positive
/// price that fits a signed mantissa.
pub proof fn lemma_report_price_reads_back(p: u64)
    requires
        0 < p <= i64::MAX,
    ensures
        price_in_units(Some(price_decimal(p)), true) == Ok::<Option<u64>, u64>(Some(p)),
{
    let d = price_decimal(p);
    assert(d.mantissa == p && d.scale == 4);
    assert(crate::fix::decimal::pow10(0) == 1);
    assert((4nat - d.scale) as nat == 0);
    assert(crate::fix::decimal::pow10((4nat - d.scale) as nat) == 1);
    assert(d.mantissa * crate::fix::decimal::pow10((4nat - d.scale) as nat) == p);
    assert(crate::fix::decimal::scaled_units(d, 4) == p);
    assert(crate::fix::decimal::saturate_u64(crate::fix::decimal::scaled_units(d, 4)) == p);
}

/// A report of an order that traded states its progress consistently: the
/// filled and open quantities add up to the order quantity, and it reports a
/// fill (`2`) exactly when nothing is left open and a partial fill (`1`)
/// exactly when something is, as both its execution type and its status;
/// the last and average prices are the first trade's price.
pub proof fn lemma_trade_report_progress(
    r: TradeExecutionResult,
    cl_ord_id: Seq<char>,
    exec_id: u64,
    out: Result<FixMessage, FixError>,
)
    requires
        trade_report(r, cl_ord_id, exec_id, out),
        !r.rejected,
        r.trades@.len() > 0,
        reported_order(r) matches Some(o) && o.fill_ok(),
    ensures
        out matches Ok(FixMessage::ExecutionReport(x)) && {
            &&& x.cum_qty + x.leaves_qty == x.order_qty
            &&& (x.ord_status == '2' <==> x.leaves_qty == 0)
            &&& (x.ord_status == '1' <==> x.leaves_qty > 0)
            &&& x.exec_type == x.ord_status
            &&& x.last_qty == Some(r.trades@[0].quantity)
            &&& x.last_px == Some(price_decimal(r.trades@[0].price))
        },
{
}

/// A report of an order resting without trades is a new order (`0`) with
/// nothing filled yet beyond what the order had, and all of the rest open.
pub proof fn lemma_new_report(
    r: TradeExecutionResult,
    cl_ord_id: Seq<char>,
    exec_id: u64,
    out: Result<FixMessage, FixError>,
)
    requires
        trade_report(r, cl_ord_id, exec_id, out),
        !r.rejected,
        r.trades@.len() == 0,
        r.remaining_order matches Some(o) && o.fill_ok(),
    ensures
        out matches Ok(FixMessage::ExecutionReport(x)) && {
            &&& x.exec_type == '0'
            &&& x.ord_status == '0'
            &&& x.cum_qty + x.leaves_qty == x.order_qty
            &&& x.cum_qty == r.remaining_order->0.filled_quantity
            &&& x.last_qty is None
        },
{
}

} // verus!
