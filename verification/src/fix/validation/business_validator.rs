//! The trading rules on new orders and cancel requests: known symbols,
//! quantities and prices within limits, and client order ids that are not
//! reused while the order is active.

use crate::fix::decimal::{exceeds, exceeds_u64, saturate_u64, scaled_u64, scaled_units, FixDecimal};
use crate::fix::error::BusinessError;
use crate::fix::messages::new_order_single::{needs_price, needs_stop_price};
use crate::fix::messages::NewOrderSingle;
use vstd::prelude::*;

verus! {

/// Known symbols and the client order ids of active orders, each list
/// without repeated texts.
pub struct BusinessValidator {
    active_cl_ord_ids: Vec<String>,
    valid_symbols: Vec<String>,
}

/// What a business error says, with its texts as characters.
pub enum BusinessIssue {
    InvalidSymbol(Seq<char>),
    InvalidQuantity(u32),
    InvalidPrice(u64),
    DuplicateClOrdId(Seq<char>),
    OrderNotFound(Seq<char>),
    Other,
}

/// What `e` says.
pub open spec fn business_view(e: BusinessError) -> BusinessIssue {
    match e {
        BusinessError::InvalidSymbol { symbol } => BusinessIssue::InvalidSymbol(symbol@),
        BusinessError::InvalidQuantity { quantity } => BusinessIssue::InvalidQuantity(quantity),
        BusinessError::InvalidPrice { price } => BusinessIssue::InvalidPrice(price),
        BusinessError::DuplicateClOrdId { cl_ord_id } => BusinessIssue::DuplicateClOrdId(
            cl_ord_id@,
        ),
        BusinessError::OrderNotFound { cl_ord_id } => BusinessIssue::OrderNotFound(cl_ord_id@),
        _ => BusinessIssue::Other,
    }
}

/// The set of texts of a list of strings.
pub open spec fn text_set(v: Seq<String>) -> Set<Seq<char>> {
    Set::new(|t: Seq<char>| exists|i: int| 0 <= i < v.len() && (#[trigger] v[i])@ == t)
}

/// No text occurs twice in the list.
pub open spec fn distinct_texts(v: Seq<String>) -> bool {
    forall|i: int, j: int| 0 <= i < j < v.len() ==> (#[trigger] v[i])@ != (#[trigger] v[j])@
}

/// The five symbols a new validator knows.
pub open spec fn default_symbols() -> Set<Seq<char>> {
    set!["AAPL"@, "GOOGL"@, "MSFT"@, "TSLA"@, "NVDA"@]
}

/// The price rule for a price that an order type needs: it must be there,
/// positive, and at most one million. The error carries the price in units
/// of 10^-4, rounded toward zero, with zero for a non-positive price.
pub open spec fn price_check(price: Option<FixDecimal>, needed: bool) -> Result<(), BusinessIssue> {
    if !needed {
        Ok(())
    } else {
        match price {
            None => Err(BusinessIssue::InvalidPrice(0)),
            Some(p) => if p.mantissa <= 0 || exceeds(p, 1_000_000) {
                Err(BusinessIssue::InvalidPrice(saturate_u64(scaled_units(p, 4))))
            } else {
                Ok(())
            },
        }
    }
}

/// The rules on a new order, in the order they are checked: a known symbol,
/// a quantity from 1 to one million, the limit price and stop price that the
/// order type needs, and a client order id that no active order has.
pub open spec fn new_order_check(
    symbols: Set<Seq<char>>,
    active: Set<Seq<char>>,
    o: NewOrderSingle,
) -> Result<(), BusinessIssue> {
    if !symbols.contains(o.symbol@) {
        Err(BusinessIssue::InvalidSymbol(o.symbol@))
    } else if o.order_qty == 0 || o.order_qty > 1_000_000 {
        Err(BusinessIssue::InvalidQuantity(o.order_qty))
    } else if price_check(o.price, needs_price(o.ord_type)) is Err {
        price_check(o.price, needs_price(o.ord_type))
    } else if price_check(o.stop_px, needs_stop_price(o.ord_type)) is Err {
        price_check(o.stop_px, needs_stop_price(o.ord_type))
    } else if active.contains(o.cl_ord_id@) {
        Err(BusinessIssue::DuplicateClOrdId(o.cl_ord_id@))
    } else {
        Ok(())
    }
}

/// The business check of a new order reads only the price fields its order
/// type uses: a market (`1`) or stop (`3`) order is judged the same whatever
/// its limit price, and a market or limit (`2`) order the same whatever its
/// stop price.
pub proof fn lemma_unused_price_ignored(
    symbols: Set<Seq<char>>,
    active: Set<Seq<char>>,
    o: NewOrderSingle,
    p: Option<FixDecimal>,
)
    ensures
        o.ord_type == '1' || o.ord_type == '3' ==> new_order_check(
            symbols,
            active,
            (NewOrderSingle { price: p, ..o }),
        ) == new_order_check(symbols, active, o),
        o.ord_type == '1' || o.ord_type == '2' ==> new_order_check(
            symbols,
            active,
            (NewOrderSingle { stop_px: p, ..o }),
        ) == new_order_check(symbols, active, o),
{
}

/// A stop order is accepted exactly when its symbol is known, its quantity
/// is from 1 to one million, it carries a stop price that is positive and at
/// most one million, and its client order id is not active; a limit order
/// likewise with its limit price; a stop-limit order needs both prices.
pub proof fn lemma_new_order_acceptance(symbols: Set<Seq<char>>, active: Set<Seq<char>>, o: NewOrderSingle)
    ensures
        o.ord_type == '3' ==> (new_order_check(symbols, active, o) is Ok <==> {
            &&& symbols.contains(o.symbol@)
            &&& 1 <= o.order_qty <= 1_000_000
            &&& o.stop_px matches Some(d) && d.mantissa > 0 && !exceeds(d, 1_000_000)
            &&& !active.contains(o.cl_ord_id@)
        }),
        o.ord_type == '2' ==> (new_order_check(symbols, active, o) is Ok <==> {
            &&& symbols.contains(o.symbol@)
            &&& 1 <= o.order_qty <= 1_000_000
            &&& o.price matches Some(d) && d.mantissa > 0 && !exceeds(d, 1_000_000)
            &&& !active.contains(o.cl_ord_id@)
        }),
        o.ord_type == '4' ==> (new_order_check(symbols, active, o) is Ok <==> {
            &&& symbols.contains(o.symbol@)
            &&& 1 <= o.order_qty <= 1_000_000
            &&& o.price matches Some(d) && d.mantissa > 0 && !exceeds(d, 1_000_000)
            &&& o.stop_px matches Some(e) && e.mantissa > 0 && !exceeds(e, 1_000_000)
            &&& !active.contains(o.cl_ord_id@)
        }),
        o.ord_type == '1' ==> (new_order_check(symbols, active, o) is Ok <==> {
            &&& symbols.contains(o.symbol@)
            &&& 1 <= o.order_qty <= 1_000_000
            &&& !active.contains(o.cl_ord_id@)
        }),
{
}

/// An order accepted once makes its client order id active, so the same
/// order sent again is refused as a duplicate.
pub proof fn lemma_resend_is_duplicate(symbols: Set<Seq<char>>, active: Set<Seq<char>>, o: NewOrderSingle)
    requires
        new_order_check(symbols, active, o) is Ok,
    ensures
        new_order_check(symbols, active.insert(o.cl_ord_id@), o) == Err::<(), BusinessIssue>(
            BusinessIssue::DuplicateClOrdId(o.cl_ord_id@),
        ),
{
}

/// The outcome `o` is the one that `r` reports.
pub open spec fn business_reports(r: Result<(), BusinessError>, o: Result<(), BusinessIssue>) -> bool {
    match o {
        Ok(()) => r is Ok,
        Err(v) => r matches Err(e) && business_view(e) == v,
    }
}

/// The index of the string whose text is `key`, if any.
fn position_of(v: &Vec<String>, key: &String) -> (r: Option<usize>)
    ensures
        match r {
            Some(i) => i < v@.len() && v@[i as int]@ == key@,
            None => !text_set(v@).contains(key@),
        },
{
    let mut i: usize = 0;
    while i < v.len()
        invariant
            i <= v@.len(),
            forall|j: int| 0 <= j < i ==> v@[j]@ != key@,
        decreases v.len() - i,
    {
        if v[i] == *key {
            return Some(i);
        }
        i = i + 1;
    }
    None
}

/// Adds `key` to a list of distinct texts unless it is there.
fn insert_text(v: &mut Vec<String>, key: String)
    requires
        distinct_texts(old(v)@),
    ensures
        distinct_texts(final(v)@),
        text_set(final(v)@) == text_set(old(v)@).insert(key@),
{
    match position_of(v, &key) {
        Some(i) => {
            assert(text_set(v@) =~= text_set(v@).insert(key@));
        },
        None => {
            let ghost before = v@;
            v.push(key);
            assert(v@[before.len() as int] == key);
            assert forall|i: int, j: int| 0 <= i < j < v@.len() implies (#[trigger] v@[i])@ != (
            #[trigger] v@[j])@ by {
                if j < before.len() {
                    assert(v@[i] == before[i] && v@[j] == before[j]);
                } else {
                    assert(v@[i] == before[i]);
                }
            }
            assert forall|t: Seq<char>| text_set(v@).contains(t) <==> text_set(before).insert(
                key@,
            ).contains(t) by {
                if text_set(before).contains(t) {
                    let i = choose|i: int| 0 <= i < before.len() && (#[trigger] before[i])@ == t;
                    assert(v@[i] == before[i]);
                }
                if text_set(v@).contains(t) {
                    let i = choose|i: int| 0 <= i < v@.len() && (#[trigger] v@[i])@ == t;
                    if i < before.len() {
                        assert(v@[i] == before[i]);
                    }
                }
            }
            assert(text_set(v@) =~= text_set(before).insert(key@));
        },
    }
}

/// Takes `key` out of a list of distinct texts.
fn remove_text(v: &mut Vec<String>, key: String)
    requires
        distinct_texts(old(v)@),
    ensures
        distinct_texts(final(v)@),
        text_set(final(v)@) == text_set(old(v)@).remove(key@),
{
    match position_of(v, &key) {
        Some(i) => {
            let ghost before = v@;
            v.remove(i);
            assert(v@ =~= before.subrange(0, i as int) + before.subrange(i + 1, before.len() as int));
            assert forall|a: int, b: int| 0 <= a < b < v@.len() implies (#[trigger] v@[a])@ != (
            #[trigger] v@[b])@ by {
                let a0 = if a < i { a } else { a + 1 };
                let b0 = if b < i { b } else { b + 1 };
                assert(v@[a] == before[a0] && v@[b] == before[b0]);
            }
            assert forall|t: Seq<char>| text_set(v@).contains(t) <==> text_set(before).remove(
                key@,
            ).contains(t) by {
                if text_set(v@).contains(t) {
                    let a = choose|a: int| 0 <= a < v@.len() && (#[trigger] v@[a])@ == t;
                    let a0 = if a < i { a } else { a + 1 };
                    assert(v@[a] == before[a0]);
                    assert(a0 != i);
                }
                if text_set(before).remove(key@).contains(t) {
                    let a = choose|a: int| 0 <= a < before.len() && (#[trigger] before[a])@ == t;
                    assert(a != i);
                    if a < i {
                        assert(v@[a] == before[a]);
                    } else {
                        assert(v@[a - 1] == before[a]);
                    }
                }
            }
            assert(text_set(v@) =~= text_set(before).remove(key@));
        },
        None => {
            assert(text_set(v@) =~= text_set(v@).remove(key@));
        },
    }
}

impl BusinessValidator {
    /// The symbols the validator knows.
    pub closed spec fn symbols(&self) -> Set<Seq<char>> {
        text_set(self.valid_symbols@)
    }

    /// The client order ids of active orders.
    pub closed spec fn active_ids(&self) -> Set<Seq<char>> {
        text_set(self.active_cl_ord_ids@)
    }

    /// The lists hold no text twice.
    pub closed spec fn wf(&self) -> bool {
        distinct_texts(self.valid_symbols@) && distinct_texts(self.active_cl_ord_ids@)
    }

    /// A validator that knows AAPL, GOOGL, MSFT, TSLA and NVDA and has no
    /// active orders.
    pub fn new() -> (r: Self)
        ensures
            r.wf(),
            r.symbols() == default_symbols(),
            r.active_ids() == Set::<Seq<char>>::empty(),
    {
        let mut v = BusinessValidator { active_cl_ord_ids: Vec::new(), valid_symbols: Vec::new() };
        assert(text_set(v.valid_symbols@) =~= Set::<Seq<char>>::empty());
        assert(text_set(v.active_cl_ord_ids@) =~= Set::<Seq<char>>::empty());
        insert_text(&mut v.valid_symbols, "AAPL".to_owned());
        insert_text(&mut v.valid_symbols, "GOOGL".to_owned());
        insert_text(&mut v.valid_symbols, "MSFT".to_owned());
        insert_text(&mut v.valid_symbols, "TSLA".to_owned());
        insert_text(&mut v.valid_symbols, "NVDA".to_owned());
        assert(text_set(v.valid_symbols@) =~= default_symbols());
        v
    }

    /// Checks the trading rules on a new order; when they hold, its client
    /// order id becomes active.
    pub fn validate_new_order(&mut self, order: &NewOrderSingle) -> (r: Result<(), BusinessError>)
        requires
            old(self).wf(),
        ensures
            final(self).wf(),
            business_reports(r, new_order_check(old(self).symbols(), old(self).active_ids(), *order)),
            final(self).symbols() == old(self).symbols(),
            r is Ok ==> final(self).active_ids() == old(self).active_ids().insert(order.cl_ord_id@),
            r is Err ==> final(self).active_ids() == old(self).active_ids(),
    {
        self.validate_symbol(&order.symbol)?;
        self.validate_quantity(order.order_qty)?;
        self.validate_price(order.price, order.ord_type)?;
        self.validate_stop_price(order.stop_px, order.ord_type)?;
        self.validate_duplicate_cl_ord_id(&order.cl_ord_id)?;
        insert_text(&mut self.active_cl_ord_ids, order.cl_ord_id.clone());
        Ok(())
    }

    /// Checks that a cancel request names an active order and a new client
    /// order id that no active order has.
    pub fn validate_cancel_request(&self, orig_cl_ord_id: &str, new_cl_ord_id: &str) -> (r: Result<
        (),
        BusinessError,
    >)
        ensures
            business_reports(
                r,
                if !self.active_ids().contains(orig_cl_ord_id@) {
                    Err(BusinessIssue::OrderNotFound(orig_cl_ord_id@))
                } else if self.active_ids().contains(new_cl_ord_id@) {
                    Err(BusinessIssue::DuplicateClOrdId(new_cl_ord_id@))
                } else {
                    Ok(())
                },
            ),
    {
        let orig = orig_cl_ord_id.to_owned();
        if position_of(&self.active_cl_ord_ids, &orig).is_none() {
            return Err(BusinessError::OrderNotFound { cl_ord_id: orig });
        }
        let new_id = new_cl_ord_id.to_owned();
        if position_of(&self.active_cl_ord_ids, &new_id).is_some() {
            return Err(BusinessError::DuplicateClOrdId { cl_ord_id: new_id });
        }
        Ok(())
    }

    /// Makes `symbol` known.
    pub fn add_symbol(&mut self, symbol: String)
        requires
            old(self).wf(),
        ensures
            final(self).wf(),
            final(self).symbols() == old(self).symbols().insert(symbol@),
            final(self).active_ids() == old(self).active_ids(),
    {
        insert_text(&mut self.valid_symbols, symbol);
    }

    /// Makes `symbol` unknown.
    pub fn remove_symbol(&mut self, symbol: &str)
        requires
            old(self).wf(),
        ensures
            final(self).wf(),
            final(self).symbols() == old(self).symbols().remove(symbol@),
            final(self).active_ids() == old(self).active_ids(),
    {
        remove_text(&mut self.valid_symbols, symbol.to_owned());
    }

    /// The order with this client order id is no longer active.
    pub fn complete_order(&mut self, cl_ord_id: &str)
        requires
            old(self).wf(),
        ensures
            final(self).wf(),
            final(self).active_ids() == old(self).active_ids().remove(cl_ord_id@),
            final(self).symbols() == old(self).symbols(),
    {
        remove_text(&mut self.active_cl_ord_ids, cl_ord_id.to_owned());
    }

    /// The symbol must be known.
    fn validate_symbol(&self, symbol: &String) -> (r: Result<(), BusinessError>)
        ensures
            business_reports(
                r,
                if self.symbols().contains(symbol@) {
                    Ok(())
                } else {
                    Err(BusinessIssue::InvalidSymbol(symbol@))
                },
            ),
    {
        if position_of(&self.valid_symbols, symbol).is_none() {
            return Err(BusinessError::InvalidSymbol { symbol: symbol.clone() });
        }
        Ok(())
    }

    /// The quantity must be from 1 to one million.
    fn validate_quantity(&self, quantity: u32) -> (r: Result<(), BusinessError>)
        ensures
            business_reports(
                r,
                if quantity == 0 || quantity > 1_000_000 {
                    Err(BusinessIssue::InvalidQuantity(quantity))
                } else {
                    Ok(())
                },
            ),
    {
        if quantity == 0 {
            return Err(BusinessError::InvalidQuantity { quantity });
        }
        if quantity > 1_000_000 {
            return Err(BusinessError::InvalidQuantity { quantity });
        }
        Ok(())
    }

    /// A price that the order type needs must be there, positive and at most
    /// one million.
    /// A limit or stop-limit order (type 2 or 4) needs a limit price that
    /// `price_check` accepts.
    fn validate_price(&self, price: Option<FixDecimal>, ord_type: char) -> (r: Result<
        (),
        BusinessError,
    >)
        ensures
            business_reports(r, price_check(price, needs_price(ord_type))),
    {
        self.check_price(price, ord_type == '2' || ord_type == '4')
    }

    /// A stop or stop-limit order (type 3 or 4) needs a stop price that
    /// `price_check` accepts.
    fn validate_stop_price(&self, stop_px: Option<FixDecimal>, ord_type: char) -> (r: Result<
        (),
        BusinessError,
    >)
        ensures
            business_reports(r, price_check(stop_px, needs_stop_price(ord_type))),
    {
        self.check_price(stop_px, ord_type == '3' || ord_type == '4')
    }

    /// When `needed`, the price must be given, positive and at most
    /// 1,000,000.
    fn check_price(&self, price: Option<FixDecimal>, needed: bool) -> (r: Result<
        (),
        BusinessError,
    >)
        ensures
            business_reports(r, price_check(price, needed)),
    {
        if needed {
            match price {
                Some(p) => {
                    if p.mantissa <= 0 || exceeds_u64(p, 1_000_000) {
                        return Err(BusinessError::InvalidPrice { price: scaled_u64(p, 4) });
                    }
                },
                None => {
                    return Err(BusinessError::InvalidPrice { price: 0 });
                },
            }
        }
        Ok(())
    }

    /// No active order may have the client order id.
    fn validate_duplicate_cl_ord_id(&self, cl_ord_id: &String) -> (r: Result<(), BusinessError>)
        ensures
            business_reports(
                r,
                if self.active_ids().contains(cl_ord_id@) {
                    Err(BusinessIssue::DuplicateClOrdId(cl_ord_id@))
                } else {
                    Ok(())
                },
            ),
    {
        if position_of(&self.active_cl_ord_ids, cl_ord_id).is_some() {
            return Err(BusinessError::DuplicateClOrdId { cl_ord_id: cl_ord_id.clone() });
        }
        Ok(())
    }
}

} // verus!
