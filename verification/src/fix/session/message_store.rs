//! The messages a session has sent and received, by sequence number, kept
//! for resending.

use crate::fix::error::FixError;
use crate::fix::messages::FixMessage;
use std::collections::HashMap;
use vstd::prelude::*;
use vstd::std_specs::iter::IteratorSpec;

verus! {

broadcast use vstd::std_specs::hash::group_hash_axioms;

/// The keys of `m` greater than `k`.
pub open spec fn keys_above<V>(m: Map<u32, V>, k: u32) -> Set<u32> {
    m.dom().filter(|j: u32| j > k)
}

/// The part of `m` that keeping the newest `n` entries leaves: an entry
/// stays when fewer than `n` entries have a greater sequence number.
pub open spec fn newest<V>(m: Map<u32, V>, n: nat) -> Map<u32, V> {
    m.restrict(m.dom().filter(|k: u32| keys_above(m, k).len() < n))
}

/// `message` is stored in `m` under a sequence number in `from ..= to`.
pub open spec fn stored_between(m: Map<u32, FixMessage>, from: u32, to: u32, message: FixMessage) -> bool {
    exists|k: u32| from <= k <= to && #[trigger] m.contains_key(k) && message == m[k]
}

pub struct MessageStore {
    outgoing_messages: HashMap<u32, FixMessage>,
    incoming_messages: HashMap<u32, FixMessage>,
}

/// The smallest key of a map that is not empty.
fn least_key(map: &HashMap<u32, FixMessage>) -> (r: u32)
    requires
        map@.len() > 0,
    ensures
        map@.contains_key(r),
        forall|k: u32| map@.contains_key(k) ==> r <= k,
{
    let ghost keys = map.keys().remaining().unref();
    proof {
        assert(keys.to_set() == map@.dom());
        assert(keys.len() == map@.dom().len());
    }
    let mut best: u32 = 0;
    let mut found = false;
    for k in it: map.keys()
        invariant
            it.seq().unref() == keys,
            keys.to_set() == map@.dom(),
            keys.len() > 0,
            found <==> it.index() > 0,
            found ==> map@.contains_key(best),
            forall|i: int| 0 <= i < it.index() ==> best <= #[trigger] keys[i],
    {
        proof {
            assert(keys[it.index()] == *k);
            assert(keys.to_set().contains(keys[it.index()]));
        }
        if !found || *k < best {
            best = *k;
        }
        found = true;
    }
    proof {
        assert forall|k: u32| map@.contains_key(k) implies best <= k by {
            assert(keys.to_set().contains(k));
            let i = keys.index_of(k);
        }
    }
    best
}

/// Removes the entries with the smallest sequence numbers until at most
/// `keep` are left.
fn drop_oldest(map: &mut HashMap<u32, FixMessage>, keep: usize)
    ensures
        final(map)@ == newest(old(map)@, keep as nat),
        final(map)@.len() == if old(map)@.len() > keep {
            keep as nat
        } else {
            old(map)@.len()
        },
{
    let ghost start = map@;
    while map.len() > keep
        invariant
            start.dom().finite(),
            map@.dom().subset_of(start.dom()),
            forall|k: u32| #[trigger] map@.contains_key(k) ==> map@[k] == start[k],
            forall|j: u32, k: u32|
                start.contains_key(j) && !map@.contains_key(j) && map@.contains_key(k) ==> j < k,
            map@.len() >= keep || map@ == start,
        decreases map@.len(),
    {
        let least = least_key(map);
        map.remove(&least);
    }
    proof {
        lemma_newest_prefix(start, map@, keep as nat);
        if start.len() <= keep && map@ != start {
            vstd::set_lib::lemma_len_subset(map@.dom(), start.dom());
        }
    }
}

/// A map `c` that keeps the `c.len()` largest keys of `m`, with their
/// values, is `newest(m, n)` when it has `n` entries, or is all of `m`.
proof fn lemma_newest_prefix(m: Map<u32, FixMessage>, c: Map<u32, FixMessage>, n: nat)
    requires
        m.dom().finite(),
        c.dom().subset_of(m.dom()),
        forall|k: u32| #[trigger] c.contains_key(k) ==> c[k] == m[k],
        forall|j: u32, k: u32| m.contains_key(j) && !c.contains_key(j) && c.contains_key(k) ==> j < k,
        c.len() <= n,
        c.len() >= n || c == m,
    ensures
        c == newest(m, n),
{
    let kept = m.dom().filter(|k: u32| keys_above(m, k).len() < n);
    assert forall|k: u32| c.contains_key(k) implies kept.contains(k) by {
        let above = keys_above(m, k);
        assert(above.subset_of(c.dom().remove(k))) by {
            assert forall|j: u32| above.contains(j) implies c.dom().remove(k).contains(j) by {
                if !c.contains_key(j) {
                    assert(j < k);
                }
            }
        }
        vstd::set_lib::lemma_len_subset(above, c.dom().remove(k));
    }
    assert forall|k: u32| m.contains_key(k) && !c.contains_key(k) implies !kept.contains(k) by {
        let above = keys_above(m, k);
        assert(c.dom().subset_of(above));
        vstd::set_lib::lemma_len_subset(c.dom(), above);
        assert(c.len() >= n) by {
            if c == m {
                assert(false);
            }
        }
    }
    assert(c.dom() =~= kept);
    assert(c =~= newest(m, n));
}

/// Keeping the newest entries keeps those with the greatest sequence
/// numbers: every entry dropped has a smaller number than every entry kept,
/// and the entries kept are unchanged.
pub proof fn lemma_newest_keeps_greatest(m: Map<u32, FixMessage>, n: nat)
    requires
        m.dom().finite(),
    ensures
        newest(m, n).dom().subset_of(m.dom()),
        forall|k: u32| #[trigger] newest(m, n).contains_key(k) ==> newest(m, n)[k] == m[k],
        forall|j: u32, k: u32|
            #[trigger] m.contains_key(j) && !newest(m, n).contains_key(j)
                && #[trigger] newest(m, n).contains_key(k) ==> j < k,
{
    assert forall|j: u32, k: u32|
        #[trigger] m.contains_key(j) && !newest(m, n).contains_key(j)
            && #[trigger] newest(m, n).contains_key(k) implies j < k by {
        if j >= k {
            let above_j = keys_above(m, j);
            let above_k = keys_above(m, k);
            assert(above_j.subset_of(above_k.remove(j)));
            vstd::set_lib::lemma_len_subset(above_j, above_k.remove(j));
            assert(above_k.contains(j));
        }
    }
}

impl MessageStore {
    /// The messages sent, by sequence number.
    pub closed spec fn outgoing(&self) -> Map<u32, FixMessage> {
        self.outgoing_messages@
    }

    /// The messages received, by sequence number.
    pub closed spec fn incoming(&self) -> Map<u32, FixMessage> {
        self.incoming_messages@
    }

    pub fn new() -> (r: Self)
        ensures
            r.outgoing() == Map::<u32, FixMessage>::empty(),
            r.incoming() == Map::<u32, FixMessage>::empty(),
    {
        MessageStore { outgoing_messages: HashMap::new(), incoming_messages: HashMap::new() }
    }

    /// Keeps a copy of a sent message under its sequence number, in place of
    /// any message stored under it before.
    pub fn store_outgoing_message(&mut self, message: &FixMessage) -> (r: Result<(), FixError>)
        ensures
            r is Ok,
            final(self).outgoing().dom() == old(self).outgoing().dom().insert(message.seq_num()),
            final(self).outgoing()[message.seq_num()].same_as(*message),
            forall|k: u32|
                k != message.seq_num() && #[trigger] old(self).outgoing().contains_key(k)
                    ==> final(self).outgoing()[k] == old(self).outgoing()[k],
            final(self).incoming() == old(self).incoming(),
    {
        let seq_num = self.extract_seq_num(message)?;
        self.outgoing_messages.insert(seq_num, message.clone());
        Ok(())
    }

    /// Keeps a copy of a received message under its sequence number, in
    /// place of any message stored under it before.
    pub fn store_incoming_message(&mut self, message: &FixMessage) -> (r: Result<(), FixError>)
        ensures
            r is Ok,
            final(self).incoming().dom() == old(self).incoming().dom().insert(message.seq_num()),
            final(self).incoming()[message.seq_num()].same_as(*message),
            forall|k: u32|
                k != message.seq_num() && #[trigger] old(self).incoming().contains_key(k)
                    ==> final(self).incoming()[k] == old(self).incoming()[k],
            final(self).outgoing() == old(self).outgoing(),
    {
        let seq_num = self.extract_seq_num(message)?;
        self.incoming_messages.insert(seq_num, message.clone());
        Ok(())
    }

    /// The sent message stored under `seq_num`.
    pub fn get_outgoing_message(&self, seq_num: u32) -> (r: Option<&FixMessage>)
        ensures
            match r {
                Some(m) => self.outgoing().contains_key(seq_num) && *m == self.outgoing()[seq_num],
                None => !self.outgoing().contains_key(seq_num),
            },
    {
        self.outgoing_messages.get(&seq_num)
    }

    /// The received message stored under `seq_num`.
    pub fn get_incoming_message(&self, seq_num: u32) -> (r: Option<&FixMessage>)
        ensures
            match r {
                Some(m) => self.incoming().contains_key(seq_num) && *m == self.incoming()[seq_num],
                None => !self.incoming().contains_key(seq_num),
            },
    {
        self.incoming_messages.get(&seq_num)
    }

    /// The sent messages stored under `from_seq_num ..= to_seq_num`, in
    /// order of sequence number.
    pub fn get_outgoing_messages_from(&self, from_seq_num: u32, to_seq_num: u32) -> (r: Vec<
        &FixMessage,
    >)
        ensures
            r@.len() == self.outgoing().dom().filter(
                |k: u32| from_seq_num <= k <= to_seq_num,
            ).len(),
            forall|i: int|
                0 <= i < r@.len() ==> stored_between(self.outgoing(), from_seq_num, to_seq_num, *#[trigger] r@[i]),
    {
        let mut messages: Vec<&FixMessage> = Vec::new();
        if from_seq_num > to_seq_num {
            proof {
                assert(self.outgoing().dom().filter(|k: u32| from_seq_num <= k <= to_seq_num)
                    =~= Set::empty());
            }
            return messages;
        }
        let mut seq_num = from_seq_num;
        proof {
            assert(self.outgoing().dom().filter(|k: u32| from_seq_num <= k < seq_num) =~= Set::empty());
        }
        loop
            invariant
                from_seq_num <= seq_num <= to_seq_num,
                self.outgoing() == self.outgoing_messages@,
                self.outgoing().dom().finite(),
                messages@.len() == self.outgoing().dom().filter(
                    |k: u32| from_seq_num <= k < seq_num,
                ).len(),
                forall|i: int|
                    0 <= i < messages@.len() ==> stored_between(
                        self.outgoing(),
                        from_seq_num,
                        to_seq_num,
                        *#[trigger] messages@[i],
                    ),
            decreases to_seq_num - seq_num,
        {
            let ghost below = self.outgoing().dom().filter(|k: u32| from_seq_num <= k < seq_num);
            let ghost upto = self.outgoing().dom().filter(|k: u32| from_seq_num <= k <= seq_num);
            if let Some(message) = self.outgoing_messages.get(&seq_num) {
                messages.push(message);
                proof {
                    assert(upto =~= below.insert(seq_num));
                    assert(*messages@[messages@.len() - 1] == self.outgoing()[seq_num]);
                }
            } else {
                proof {
                    assert(upto =~= below);
                }
            }
            if seq_num == to_seq_num {
                proof {
                    assert(upto =~= self.outgoing().dom().filter(
                        |k: u32| from_seq_num <= k <= to_seq_num,
                    ));
                }
                return messages;
            }
            seq_num = seq_num + 1;
            proof {
                assert(upto =~= self.outgoing().dom().filter(|k: u32| from_seq_num <= k < seq_num));
            }
        }
    }

    /// Keeps, in each direction, the `keep_last_n` messages with the
    /// greatest sequence numbers.
    pub fn clear_old_messages(&mut self, keep_last_n: usize)
        ensures
            final(self).outgoing() == newest(old(self).outgoing(), keep_last_n as nat),
            final(self).incoming() == newest(old(self).incoming(), keep_last_n as nat),
            final(self).outgoing().len() == if old(self).outgoing().len() > keep_last_n {
                keep_last_n as nat
            } else {
                old(self).outgoing().len()
            },
            final(self).incoming().len() == if old(self).incoming().len() > keep_last_n {
                keep_last_n as nat
            } else {
                old(self).incoming().len()
            },
    {
        drop_oldest(&mut self.outgoing_messages, keep_last_n);
        drop_oldest(&mut self.incoming_messages, keep_last_n);
    }

    /// The sequence number in the message's header.
    fn extract_seq_num(&self, message: &FixMessage) -> (r: Result<u32, FixError>)
        ensures
            r == Ok::<u32, FixError>(message.seq_num()),
    {
        match message {
            FixMessage::NewOrderSingle(order) => Ok(order.header.msg_seq_num),
            FixMessage::ExecutionReport(report) => Ok(report.header.msg_seq_num),
            FixMessage::OrderCancelRequest(cancel) => Ok(cancel.header.msg_seq_num),
            FixMessage::Heartbeat(heartbeat) => Ok(heartbeat.header.msg_seq_num),
            FixMessage::Logon(logon) => Ok(logon.header.msg_seq_num),
        }
    }
}

impl Default for MessageStore {
    fn default() -> (r: Self)
        ensures
            r.outgoing() == Map::<u32, FixMessage>::empty(),
            r.incoming() == Map::<u32, FixMessage>::empty(),
    {
        Self::new()
    }
}

} // verus!
