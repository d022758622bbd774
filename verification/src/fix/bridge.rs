//! The bridge between FIX messages and the matching engine: new orders in,
//! execution reports out, with the business rules checked on the way.

pub mod order_converter;
pub mod response_converter;

pub use order_converter::FixOrderConverter;
pub use response_converter::FixResponseConverter;

use crate::fix::error::FixError;
use crate::fix::messages::FixMessage;
use crate::fix::validation::business_validator::{business_reports, new_order_check, BusinessIssue};
use crate::fix::validation::BusinessValidator;
use crate::fix::bridge::order_converter::conversion;
use crate::fix::bridge::response_converter::trade_report;
use crate::matching_engine::{result_orders_ok, TradeExecutionResult};
use crate::order::Order;
use vstd::prelude::*;

verus! {

pub struct FixOrderBridge {
    converter: FixOrderConverter,
    response_converter: FixResponseConverter,
    validator: BusinessValidator,
}

/// `r` reports the business outcome `o` as a FIX error, or success.
pub open spec fn fix_reports<T>(r: Result<T, FixError>, o: Result<(), BusinessIssue>) -> bool {
    match o {
        Ok(()) => true,
        Err(v) => r matches Err(FixError::Business(e)) && crate::fix::validation::business_validator::business_view(e) == v,
    }
}

/// What processing `message` does: a new order is checked against the
/// business rules, becomes active and is converted; a cancel request is
/// checked; other messages pass with nothing to do. `r` is the result,
/// `before` and `after` the bridge around the call.
pub open spec fn processed(
    before: FixOrderBridge,
    after: FixOrderBridge,
    message: FixMessage,
    r: Result<Option<Order>, FixError>,
) -> bool {
    &&& after.symbols() == before.symbols()
    &&& after.next_exec_id() == before.next_exec_id()
    &&& match message {
            FixMessage::NewOrderSingle(o) => {
                let check = new_order_check(before.symbols(), before.active_ids(), o);
                &&& fix_reports(r, check)
                &&& check is Ok ==> (after.active_ids() == before.active_ids().insert(o.cl_ord_id@)
                    && match r {
                    Ok(Some(order)) => conversion(o, Ok(order)),
                    Ok(None) => false,
                    Err(e) => conversion(o, Err(e)),
                })
                &&& check is Err ==> after.active_ids() == before.active_ids()
            },
            FixMessage::OrderCancelRequest(c) => {
                &&& fix_reports(
                    r,
                    if !before.active_ids().contains(c.orig_cl_ord_id@) {
                        Err(BusinessIssue::OrderNotFound(c.orig_cl_ord_id@))
                    } else if before.active_ids().contains(c.cl_ord_id@) {
                        Err(BusinessIssue::DuplicateClOrdId(c.cl_ord_id@))
                    } else {
                        Ok(())
                    },
                )
                &&& r is Ok ==> r == Ok::<Option<Order>, FixError>(None)
                &&& after.active_ids() == before.active_ids()
            },
            _ => r == Ok::<Option<Order>, FixError>(None) && after.active_ids() == before.active_ids(),
        }
}

impl FixOrderBridge {
    /// The symbols the bridge accepts orders for.
    pub closed spec fn symbols(&self) -> Set<Seq<char>> {
        self.validator.symbols()
    }

    /// The client order ids of active orders.
    pub closed spec fn active_ids(&self) -> Set<Seq<char>> {
        self.validator.active_ids()
    }

    /// The execution id of the next report.
    pub closed spec fn next_exec_id(&self) -> u64 {
        self.response_converter.next_id()
    }

    /// The bridge's state is consistent.
    pub closed spec fn wf(&self) -> bool {
        self.validator.wf()
    }

    /// A bridge for the five default symbols, with no active orders.
    pub fn new() -> (r: Self)
        ensures
            r.wf(),
            r.symbols() == crate::fix::validation::business_validator::default_symbols(),
            r.active_ids() == Set::<Seq<char>>::empty(),
            r.next_exec_id() == 1,
    {
        FixOrderBridge {
            converter: FixOrderConverter::new(),
            response_converter: FixResponseConverter::new(),
            validator: BusinessValidator::new(),
        }
    }

    /// A new order is checked against the business rules, becomes active,
    /// and is converted into an engine order; a cancel request is checked;
    /// other messages pass with nothing to do.
    pub fn process_fix_message(&mut self, message: FixMessage) -> (r: Result<Option<Order>, FixError>)
        requires
            old(self).wf(),
        ensures
            final(self).wf(),
            processed(*old(self), *final(self), message, r),
    {
        match message {
            FixMessage::NewOrderSingle(order) => {
                match self.validator.validate_new_order(&order) {
                    Ok(()) => {},
                    Err(e) => {
                        return Err(FixError::Business(e));
                    },
                }
                match self.converter.convert_new_order_single(order) {
                    Ok(internal_order) => Ok(Some(internal_order)),
                    Err(e) => Err(e),
                }
            },
            FixMessage::OrderCancelRequest(cancel) => {
                match self.validator.validate_cancel_request(
                    cancel.orig_cl_ord_id.as_str(),
                    cancel.cl_ord_id.as_str(),
                ) {
                    Ok(()) => Ok(None),
                    Err(e) => Err(FixError::Business(e)),
                }
            },
            _ => Ok(None),
        }
    }

    /// The execution report for the result of placing an order.
    pub fn convert_trade_result(&mut self, result: &TradeExecutionResult, cl_ord_id: &str) -> (r:
        Result<FixMessage, FixError>)
        requires
            old(self).next_exec_id() < u64::MAX,
            result_orders_ok(*result),
        ensures
            trade_report(*result, cl_ord_id@, old(self).next_exec_id(), r),
            r is Ok ==> final(self).next_exec_id() == old(self).next_exec_id() + 1,
            r is Err ==> final(self).next_exec_id() == old(self).next_exec_id(),
            final(self).wf() == old(self).wf(),
            final(self).symbols() == old(self).symbols(),
            final(self).active_ids() == old(self).active_ids(),
    {
        self.response_converter.convert_trade_result(result, cl_ord_id)
    }

    /// The execution id the next report will carry.
    pub fn get_next_exec_id(&self) -> (r: u64)
        ensures
            r == self.next_exec_id(),
    {
        self.response_converter.get_next_exec_id()
    }

    /// Accepts orders for `symbol` too.
    pub fn add_symbol(&mut self, symbol: String)
        requires
            old(self).wf(),
        ensures
            final(self).wf(),
            final(self).symbols() == old(self).symbols().insert(symbol@),
            final(self).active_ids() == old(self).active_ids(),
            final(self).next_exec_id() == old(self).next_exec_id(),
    {
        self.validator.add_symbol(symbol);
    }

    /// The order with this client order id is no longer active.
    pub fn complete_order(&mut self, cl_ord_id: &str)
        requires
            old(self).wf(),
        ensures
            final(self).wf(),
            final(self).active_ids() == old(self).active_ids().remove(cl_ord_id@),
            final(self).symbols() == old(self).symbols(),
            final(self).next_exec_id() == old(self).next_exec_id(),
    {
        self.validator.complete_order(cl_ord_id);
    }
}

} // verus!
