//! Counters of what the exchange did, and running sums of how long it took.
//! The counters wrap around at 2^64, as atomic counters do.

use crate::clock::{duration_nanos, epoch_offset, nanos_of, unix_nanos};
use std::time::{Duration, SystemTime};
use vstd::prelude::*;

verus! {

/// `a + b` modulo 2^64.
pub open spec fn wrap_add(a: u64, b: u64) -> u64 {
    ((a + b) % 0x1_0000_0000_0000_0000) as u64
}

/// `a + b` wrapping around at 2^64.
pub fn wrapping_add(a: u64, b: u64) -> (r: u64)
    ensures
        r == wrap_add(a, b),
{
    if a <= u64::MAX - b {
        a + b
    } else {
        b - (u64::MAX - a) - 1
    }
}

/// The stamp of the clock reading `t`: nanoseconds since the epoch, cut to
/// 64 bits as `as u64` cuts them; zero for a reading before the epoch.
pub open spec fn stamp_of(t: SystemTime) -> u64 {
    match epoch_offset(t) {
        Some(d) => duration_nanos(d) as u64,
        None => 0,
    }
}

/// The clock in nanoseconds since the epoch, cut to 64 bits as `as u64`
/// cuts it; a clock before the epoch reads as zero.
fn now_nanos() -> (r: u64)
    ensures
        exists|t: SystemTime| r == #[trigger] stamp_of(t),
{
    let reading = unix_nanos();
    let r = match reading {
        Some(n) => n as u64,
        None => 0,
    };
    proof {
        let t = choose|t: SystemTime|
            reading == match #[trigger] epoch_offset(t) {
                Some(d) => Some(duration_nanos(d)),
                None => None,
            };
        assert(r == stamp_of(t));
    }
    r
}

pub struct OrderMetrics {
    orders_received: u64,
    orders_matched: u64,
    orders_cancelled: u64,
    orders_expired: u64,
    trades_executed: u64,
    total_volume: u64,
    total_value: u64,
    last_update: u64,
}

#[derive(Debug, Clone, Copy, PartialEq, Eq, Structural)]
pub struct OrderMetricsSnapshot {
    pub orders_received: u64,
    pub orders_matched: u64,
    pub orders_cancelled: u64,
    pub orders_expired: u64,
    pub trades_executed: u64,
    pub total_volume: u64,
    pub total_value: u64,
    pub last_update: u64,
}

impl OrderMetrics {
    /// The counters as a snapshot.
    pub closed spec fn counts(&self) -> OrderMetricsSnapshot {
        OrderMetricsSnapshot {
            orders_received: self.orders_received,
            orders_matched: self.orders_matched,
            orders_cancelled: self.orders_cancelled,
            orders_expired: self.orders_expired,
            trades_executed: self.trades_executed,
            total_volume: self.total_volume,
            total_value: self.total_value,
            last_update: self.last_update,
        }
    }

    /// All counters at zero, stamped with the current time.
    pub fn new() -> (r: Self)
        ensures
            r.counts().orders_received == 0,
            r.counts().orders_matched == 0,
            r.counts().orders_cancelled == 0,
            r.counts().orders_expired == 0,
            r.counts().trades_executed == 0,
            r.counts().total_volume == 0,
            r.counts().total_value == 0,
            exists|t: SystemTime| r.counts().last_update == #[trigger] stamp_of(t),
    {
        OrderMetrics {
            orders_received: 0,
            orders_matched: 0,
            orders_cancelled: 0,
            orders_expired: 0,
            trades_executed: 0,
            total_volume: 0,
            total_value: 0,
            last_update: now_nanos(),
        }
    }

    /// Counts an order received.
    pub fn record_order_received(&mut self)
        ensures
            final(self).counts() == (OrderMetricsSnapshot {
                orders_received: wrap_add(old(self).counts().orders_received, 1),
                last_update: final(self).counts().last_update,
                ..old(self).counts()
            }),
    {
        self.orders_received = wrapping_add(self.orders_received, 1);
        self.update_timestamp();
    }

    /// Counts an order matched.
    pub fn record_order_matched(&mut self)
        ensures
            final(self).counts() == (OrderMetricsSnapshot {
                orders_matched: wrap_add(old(self).counts().orders_matched, 1),
                last_update: final(self).counts().last_update,
                ..old(self).counts()
            }),
    {
        self.orders_matched = wrapping_add(self.orders_matched, 1);
        self.update_timestamp();
    }

    /// Counts an order cancelled.
    pub fn record_order_cancelled(&mut self)
        ensures
            final(self).counts() == (OrderMetricsSnapshot {
                orders_cancelled: wrap_add(old(self).counts().orders_cancelled, 1),
                last_update: final(self).counts().last_update,
                ..old(self).counts()
            }),
    {
        self.orders_cancelled = wrapping_add(self.orders_cancelled, 1);
        self.update_timestamp();
    }

    /// Counts an order expired.
    pub fn record_order_expired(&mut self)
        ensures
            final(self).counts() == (OrderMetricsSnapshot {
                orders_expired: wrap_add(old(self).counts().orders_expired, 1),
                last_update: final(self).counts().last_update,
                ..old(self).counts()
            }),
    {
        self.orders_expired = wrapping_add(self.orders_expired, 1);
        self.update_timestamp();
    }

    /// Counts a trade and adds its quantity and value to the totals.
    pub fn record_trade(&mut self, quantity: u64, price: u64)
        requires
            quantity * price <= u64::MAX,
        ensures
            final(self).counts() == (OrderMetricsSnapshot {
                trades_executed: wrap_add(old(self).counts().trades_executed, 1),
                total_volume: wrap_add(old(self).counts().total_volume, quantity),
                total_value: wrap_add(old(self).counts().total_value, (quantity * price) as u64),
                last_update: final(self).counts().last_update,
                ..old(self).counts()
            }),
    {
        self.trades_executed = wrapping_add(self.trades_executed, 1);
        self.total_volume = wrapping_add(self.total_volume, quantity);
        self.total_value = wrapping_add(self.total_value, quantity * price);
        self.update_timestamp();
    }

    /// Stamps the counters with the current time.
    fn update_timestamp(&mut self)
        ensures
            final(self).orders_received == old(self).orders_received,
            final(self).orders_matched == old(self).orders_matched,
            final(self).orders_cancelled == old(self).orders_cancelled,
            final(self).orders_expired == old(self).orders_expired,
            final(self).trades_executed == old(self).trades_executed,
            final(self).total_volume == old(self).total_volume,
            final(self).total_value == old(self).total_value,
            exists|t: SystemTime| final(self).last_update == #[trigger] stamp_of(t),
    {
        self.last_update = now_nanos();
    }

    /// The counters as they stand.
    pub fn get_metrics(&self) -> (r: OrderMetricsSnapshot)
        ensures
            r == self.counts(),
    {
        OrderMetricsSnapshot {
            orders_received: self.orders_received,
            orders_matched: self.orders_matched,
            orders_cancelled: self.orders_cancelled,
            orders_expired: self.orders_expired,
            trades_executed: self.trades_executed,
            total_volume: self.total_volume,
            total_value: self.total_value,
            last_update: self.last_update,
        }
    }
}

pub struct LatencyMetrics {
    order_processing_time: u64,
    order_processing_count: u64,
    matching_time: u64,
    matching_count: u64,
}

#[derive(Debug, Clone, Copy, PartialEq, Eq, Structural)]
pub struct LatencyMetricsSnapshot {
    pub avg_order_processing_time: u64,
    pub avg_matching_time: u64,
    pub order_processing_count: u64,
    pub matching_count: u64,
}

/// `total / count`, or zero when nothing was counted.
pub open spec fn average(total: u64, count: u64) -> u64 {
    if count > 0 {
        total / count
    } else {
        0
    }
}

impl LatencyMetrics {
    /// The total time spent processing orders, in nanoseconds.
    pub closed spec fn processing_total(&self) -> u64 {
        self.order_processing_time
    }

    /// The number of orders processed.
    pub closed spec fn processing_count(&self) -> u64 {
        self.order_processing_count
    }

    /// The total time spent matching, in nanoseconds.
    pub closed spec fn matching_total(&self) -> u64 {
        self.matching_time
    }

    /// The number of matchings.
    pub closed spec fn matching_runs(&self) -> u64 {
        self.matching_count
    }

    /// Nothing counted yet.
    pub fn new() -> (r: Self)
        ensures
            r.processing_total() == 0,
            r.processing_count() == 0,
            r.matching_total() == 0,
            r.matching_runs() == 0,
    {
        LatencyMetrics {
            order_processing_time: 0,
            order_processing_count: 0,
            matching_time: 0,
            matching_count: 0,
        }
    }

    /// Adds the time one order took to process, in whole nanoseconds cut to
    /// 64 bits.
    pub fn record_order_processing_time(&mut self, duration: Duration)
        ensures
            final(self).processing_total() == wrap_add(
                old(self).processing_total(),
                crate::clock::duration_nanos(duration) as u64,
            ),
            final(self).processing_count() == wrap_add(old(self).processing_count(), 1),
            final(self).matching_total() == old(self).matching_total(),
            final(self).matching_runs() == old(self).matching_runs(),
    {
        let nanos = nanos_of(&duration) as u64;
        self.order_processing_time = wrapping_add(self.order_processing_time, nanos);
        self.order_processing_count = wrapping_add(self.order_processing_count, 1);
    }

    /// Adds the time one matching took, in whole nanoseconds cut to 64 bits.
    pub fn record_matching_time(&mut self, duration: Duration)
        ensures
            final(self).matching_total() == wrap_add(
                old(self).matching_total(),
                crate::clock::duration_nanos(duration) as u64,
            ),
            final(self).matching_runs() == wrap_add(old(self).matching_runs(), 1),
            final(self).processing_total() == old(self).processing_total(),
            final(self).processing_count() == old(self).processing_count(),
    {
        let nanos = nanos_of(&duration) as u64;
        self.matching_time = wrapping_add(self.matching_time, nanos);
        self.matching_count = wrapping_add(self.matching_count, 1);
    }

    /// The averages and counts as they stand.
    pub fn get_metrics(&self) -> (r: LatencyMetricsSnapshot)
        ensures
            r.avg_order_processing_time == average(
                self.processing_total(),
                self.processing_count(),
            ),
            r.avg_matching_time == average(self.matching_total(), self.matching_runs()),
            r.order_processing_count == self.processing_count(),
            r.matching_count == self.matching_runs(),
    {
        let order_processing_count = self.order_processing_count;
        let matching_count = self.matching_count;
        LatencyMetricsSnapshot {
            avg_order_processing_time: if order_processing_count > 0 {
                self.order_processing_time / order_processing_count
            } else {
                0
            },
            avg_matching_time: if matching_count > 0 {
                self.matching_time / matching_count
            } else {
                0
            },
            order_processing_count,
            matching_count,
        }
    }
}

/// The sum of a run of times.
pub open spec fn total_of(ns: Seq<u64>) -> nat
    decreases ns.len(),
{
    if ns.len() == 0 {
        0
    } else {
        total_of(ns.drop_last()) + ns.last() as nat
    }
}

/// Latencies add up: when the processing times `ns` (in nanoseconds, as
/// recorded) are recorded one after the other from nothing, `states` being
/// the metrics before each recording and after the last, and their sum fits
/// in 64 bits, the total is their sum, the count is how many there were,
/// and the reported average is the sum divided by the count.
pub proof fn lemma_processing_average(states: Seq<LatencyMetrics>, ns: Seq<u64>)
    requires
        states.len() == ns.len() + 1,
        states[0].processing_total() == 0,
        states[0].processing_count() == 0,
        forall|k: int|
            0 <= k < ns.len() ==> (#[trigger] states[k + 1]).processing_total() == wrap_add(
                states[k].processing_total(),
                ns[k],
            ) && states[k + 1].processing_count() == wrap_add(states[k].processing_count(), 1),
        total_of(ns) <= u64::MAX,
        ns.len() <= u64::MAX,
    ensures
        states.last().processing_total() == total_of(ns),
        states.last().processing_count() == ns.len(),
        average(states.last().processing_total(), states.last().processing_count()) == if ns.len()
            > 0 {
            total_of(ns) / ns.len()
        } else {
            0
        },
{
    lemma_running_total(states, ns, ns.len() as int);
    assert(ns.take(ns.len() as int) =~= ns);
}

/// After the first `k` recordings the total is the sum of the first `k`
/// times and the count is `k`.
proof fn lemma_running_total(states: Seq<LatencyMetrics>, ns: Seq<u64>, k: int)
    requires
        states.len() == ns.len() + 1,
        states[0].processing_total() == 0,
        states[0].processing_count() == 0,
        forall|j: int|
            0 <= j < ns.len() ==> (#[trigger] states[j + 1]).processing_total() == wrap_add(
                states[j].processing_total(),
                ns[j],
            ) && states[j + 1].processing_count() == wrap_add(states[j].processing_count(), 1),
        total_of(ns) <= u64::MAX,
        ns.len() <= u64::MAX,
        0 <= k <= ns.len(),
    ensures
        states[k].processing_total() == total_of(ns.take(k)),
        states[k].processing_count() == k,
        total_of(ns.take(k)) <= total_of(ns),
    decreases k,
{
    if k == 0 {
        assert(ns.take(0) =~= Seq::<u64>::empty());
        lemma_total_prefix(ns, 0);
    } else {
        lemma_running_total(states, ns, k - 1);
        let j = k - 1;
        assert(ns.take(k).drop_last() =~= ns.take(j));
        assert(ns.take(k).last() == ns[j]);
        lemma_total_prefix(ns, k);
        assert(states[j + 1].processing_total() == wrap_add(states[j].processing_total(), ns[j]));
    }
}

/// A prefix of a run of times sums to no more than the whole run.
proof fn lemma_total_prefix(ns: Seq<u64>, k: int)
    requires
        0 <= k <= ns.len(),
    ensures
        total_of(ns.take(k)) <= total_of(ns),
    decreases ns.len() - k,
{
    if k < ns.len() {
        lemma_total_prefix(ns, k + 1);
        assert(ns.take(k + 1).drop_last() =~= ns.take(k));
    } else {
        assert(ns.take(k) =~= ns);
    }
}

} // verus!
