//! Asynchronous messages: calls scheduled between smart contracts, held in a
//! pool until a slot of their validity window runs them.

use vstd::prelude::*;
use crate::amount::Amount;
use crate::slot::{Slot, slot_lt};
use crate::speculative_ledger::Address;

verus! {

broadcast use vstd::seq_lib::group_seq_properties;

/// A call scheduled from one smart contract to another.
#[derive(Clone, Debug, PartialEq, Eq)]
pub struct AsyncMessage {
    /// Slot at which the message was emitted.
    pub emission_slot: Slot,
    /// Index of the message among those emitted at that slot.
    pub emission_index: u64,
    /// Address that sent the message.
    pub sender: Address,
    /// Address whose bytecode the message calls.
    pub destination: Address,
    /// Name of the function called.
    pub handler: String,
    /// Gas that the call may use.
    pub max_gas: u64,
    /// Price paid per unit of gas.
    pub gas_price: Amount,
    /// Coins carried by the message.
    pub coins: Amount,
    /// First slot at which the message may run.
    pub validity_start: Slot,
    /// Slot from which the message has expired.
    pub validity_end: Slot,
    /// Argument of the call.
    pub data: Vec<u8>,
}

/// Identifier of a message, ordered so that the message to run first comes
/// first: highest gas price, then earliest emission slot, then lowest
/// emission index.
pub type AsyncMessageId = (u64, u64, u8, u64);

/// The identifier of a message.
pub open spec fn msg_id(m: AsyncMessage) -> AsyncMessageId {
    ((u64::MAX - m.gas_price.0) as u64, m.emission_slot.period, m.emission_slot.thread, m.emission_index)
}

/// Order of identifiers: lexicographic, not strict.
pub open spec fn id_le(a: AsyncMessageId, b: AsyncMessageId) -> bool {
    a.0 < b.0 || (a.0 == b.0 && (a.1 < b.1 || (a.1 == b.1 && (a.2 < b.2 || (a.2 == b.2 && a.3 <= b.3)))))
}

/// Messages in identifier order.
pub open spec fn ids_ordered(s: Seq<AsyncMessage>) -> bool {
    forall|i: int, j: int| 0 <= i < j < s.len() ==> id_le(msg_id(#[trigger] s[i]), msg_id(#[trigger] s[j]))
}

/// Whether the message may run at `slot`.
pub open spec fn runnable_at(m: AsyncMessage, slot: Slot) -> bool {
    !slot_lt(slot, m.validity_start) && slot_lt(slot, m.validity_end)
}

/// Whether the message has expired at `slot`.
pub open spec fn expired_at(m: AsyncMessage, slot: Slot) -> bool {
    !slot_lt(slot, m.validity_end)
}

/// Walking `s` in order with `gas` to spend, the messages taken to run at
/// `slot` (each that may run then and whose gas is still available), those
/// kept, and the gas left.
pub open spec fn batch(s: Seq<AsyncMessage>, slot: Slot, gas: nat) -> (Seq<AsyncMessage>, Seq<AsyncMessage>, nat)
    decreases s.len(),
{
    if s.len() == 0 {
        (Seq::empty(), Seq::empty(), gas)
    } else {
        let (t, k, g) = batch(s.drop_last(), slot, gas);
        let m = s.last();
        if runnable_at(m, slot) && m.max_gas <= g {
            (t.push(m), k, (g - m.max_gas) as nat)
        } else {
            (t, k.push(m), g)
        }
    }
}

/// Out of messages in identifier order, the batch taken and the messages
/// kept are in identifier order too.
pub proof fn lemma_batch_ordered(s: Seq<AsyncMessage>, slot: Slot, gas: nat)
    requires
        ids_ordered(s),
    ensures
        ids_ordered(batch(s, slot, gas).0),
        ids_ordered(batch(s, slot, gas).1),
        forall|i: int| 0 <= i < batch(s, slot, gas).0.len() ==> s.contains(#[trigger] batch(s, slot, gas).0[i]),
        forall|i: int| 0 <= i < batch(s, slot, gas).1.len() ==> s.contains(#[trigger] batch(s, slot, gas).1[i]),
    decreases s.len(),
{
    if s.len() > 0 {
        let init = s.drop_last();
        assert(ids_ordered(init)) by {
            assert forall|i: int, j: int| 0 <= i < j < init.len() implies id_le(msg_id(#[trigger] init[i]), msg_id(#[trigger] init[j])) by {
                assert(init[i] == s[i] && init[j] == s[j]);
            }
        }
        lemma_batch_ordered(init, slot, gas);
        let (t, k, g) = batch(init, slot, gas);
        let m = s.last();
        assert forall|x: AsyncMessage| init.contains(x) implies s.contains(x) && id_le(msg_id(x), msg_id(m)) by {
            let j = choose|j: int| 0 <= j < init.len() && init[j] == x;
            assert(s[j] == x);
            assert(id_le(msg_id(s[j]), msg_id(s[s.len() - 1])));
        }
        assert(s.contains(m)) by {
            assert(s[s.len() - 1] == m);
        }
        assert forall|i: int| 0 <= i < t.len() implies init.contains(#[trigger] t[i]) by {}
        assert forall|i: int| 0 <= i < k.len() implies init.contains(#[trigger] k[i]) by {}
        if runnable_at(m, slot) && m.max_gas <= g {
            let t2 = t.push(m);
            assert forall|i: int, j: int| 0 <= i < j < t2.len() implies id_le(msg_id(#[trigger] t2[i]), msg_id(#[trigger] t2[j])) by {
                if j == t.len() {
                    assert(init.contains(t[i]));
                } else {
                    assert(t2[i] == t[i] && t2[j] == t[j]);
                }
            }
            assert forall|i: int| 0 <= i < t2.len() implies s.contains(#[trigger] t2[i]) by {
                if i < t.len() {
                    assert(t2[i] == t[i]);
                    assert(init.contains(t[i]));
                }
            }
            assert forall|i: int| 0 <= i < k.len() implies s.contains(#[trigger] k[i]) by {
                assert(init.contains(k[i]));
            }
        } else {
            let k2 = k.push(m);
            assert forall|i: int, j: int| 0 <= i < j < k2.len() implies id_le(msg_id(#[trigger] k2[i]), msg_id(#[trigger] k2[j])) by {
                if j == k.len() {
                    assert(init.contains(k[i]));
                } else {
                    assert(k2[i] == k[i] && k2[j] == k[j]);
                }
            }
            assert forall|i: int| 0 <= i < k2.len() implies s.contains(#[trigger] k2[i]) by {
                if i < k.len() {
                    assert(k2[i] == k[i]);
                    assert(init.contains(k[i]));
                }
            }
            assert forall|i: int| 0 <= i < t.len() implies s.contains(#[trigger] t[i]) by {
                assert(init.contains(t[i]));
            }
        }
    }
}

impl AsyncMessage {
    /// The message's identifier.
    pub fn compute_id(&self) -> (r: AsyncMessageId)
        ensures
            r == msg_id(*self),
    {
        (u64::MAX - self.gas_price.0, self.emission_slot.period, self.emission_slot.thread, self.emission_index)
    }
}

/// Whether `a` comes before `b`, or has the same identifier.
fn id_le_exec(a: AsyncMessageId, b: AsyncMessageId) -> (r: bool)
    ensures
        r == id_le(a, b),
{
    a.0 < b.0 || (a.0 == b.0 && (a.1 < b.1 || (a.1 == b.1 && (a.2 < b.2 || (a.2 == b.2 && a.3 <= b.3)))))
}

/// Inserts `m` into `v` after every message whose identifier is not above
/// its own.
fn insert_ordered(v: &mut Vec<AsyncMessage>, m: AsyncMessage)
    requires
        ids_ordered(old(v)@),
    ensures
        ids_ordered(final(v)@),
        final(v)@.to_multiset() == old(v)@.to_multiset().insert(m),
{
    let id = m.compute_id();
    let n = v.len();
    let mut i: usize = 0;
    while i < n && id_le_exec(v[i].compute_id(), id)
        invariant
            n == v@.len(),
            i <= n,
            id == msg_id(m),
            ids_ordered(v@),
            forall|j: int| 0 <= j < i ==> id_le(msg_id(#[trigger] v@[j]), id),
        decreases n - i,
    {
        i += 1;
    }
    let ghost s = v@;
    v.insert(i, m);
    assert(v@ == s.insert(i as int, m));
    assert(ids_ordered(v@)) by {
        assert forall|a: int, b: int| 0 <= a < b < v@.len() implies id_le(msg_id(#[trigger] v@[a]), msg_id(#[trigger] v@[b])) by {
            if b < i {
            } else if b == i {
            } else if a < i {
                assert(v@[b] == s[b - 1]);
                if i < n {
                    assert(!id_le(msg_id(s[i as int]), id));
                    assert(id_le(msg_id(s[i as int]), msg_id(s[b - 1])) || i == b - 1);
                }
            } else if a == i {
                assert(v@[b] == s[b - 1]);
                assert(!id_le(msg_id(s[i as int]), id));
                assert(id_le(msg_id(s[i as int]), msg_id(s[b - 1])) || i == b - 1);
            } else {
                assert(v@[a] == s[a - 1] && v@[b] == s[b - 1]);
            }
        }
    }
}

/// The messages of the pool and those emitted since, not yet settled.
pub struct SpeculativeAsyncPool {
    /// Messages of the pool, in identifier order.
    messages: Vec<AsyncMessage>,
    /// Messages emitted since the pool was last settled, in emission order.
    emitted: Vec<AsyncMessage>,
    /// Most messages that the pool holds once settled.
    max_length: u64,
}

impl SpeculativeAsyncPool {
    #[verifier::type_invariant]
    closed spec fn in_order(&self) -> bool {
        ids_ordered(self.messages@)
    }

    /// Messages of the pool, in identifier order.
    pub closed spec fn messages_seq(&self) -> Seq<AsyncMessage> {
        self.messages@
    }

    /// Messages emitted since the pool was last settled, in emission order.
    pub closed spec fn emitted_seq(&self) -> Seq<AsyncMessage> {
        self.emitted@
    }

    /// Most messages that the pool holds once settled.
    pub closed spec fn capacity(&self) -> u64 {
        self.max_length
    }

    /// The pool's messages are in identifier order.
    pub fn is_ordered(&self)
        ensures
            ids_ordered(self.messages_seq()),
    {
        proof {
            use_type_invariant(self);
        }
    }

    /// Messages of the pool, in identifier order.
    pub fn messages(&self) -> (r: &Vec<AsyncMessage>)
        ensures
            r@ == self.messages_seq(),
    {
        &self.messages
    }

    /// Messages emitted since the pool was last settled.
    pub fn emitted(&self) -> (r: &Vec<AsyncMessage>)
        ensures
            r@ == self.emitted_seq(),
    {
        &self.emitted
    }

    /// Most messages that the pool holds once settled.
    pub fn max_length(&self) -> (r: u64)
        ensures
            r == self.capacity(),
    {
        self.max_length
    }

    /// A pool holding `messages`, with the messages `previous_emitted` not yet
    /// settled, and holding at most `max_length` once settled.
    pub fn new(messages: Vec<AsyncMessage>, previous_emitted: Vec<AsyncMessage>, max_length: u64) -> (r: SpeculativeAsyncPool)
        ensures
            ids_ordered(r.messages_seq()),
            r.messages_seq().to_multiset() == messages@.to_multiset(),
            r.emitted_seq() == previous_emitted@,
            r.capacity() == max_length,
    {
        let mut src = messages;
        let ghost all = src@;
        let mut ordered: Vec<AsyncMessage> = Vec::new();
        while src.len() > 0
            invariant
                ids_ordered(ordered@),
                ordered@.to_multiset().add(src@.to_multiset()) == all.to_multiset(),
            decreases src@.len(),
        {
            let ghost before = src@;
            let m = src.pop().unwrap();
            assert(before == src@.push(m));
            insert_ordered(&mut ordered, m);
            assert(ordered@.to_multiset().add(src@.to_multiset()) =~= all.to_multiset());
        }
        assert(ordered@.to_multiset() =~= all.to_multiset());
        SpeculativeAsyncPool { messages: ordered, emitted: previous_emitted, max_length }
    }

    /// Adds a newly emitted message.
    pub fn push_new_message(&mut self, msg: AsyncMessage)
        ensures
            final(self).emitted_seq() == old(self).emitted_seq().push(msg),
            final(self).messages_seq() == old(self).messages_seq(),
            final(self).capacity() == old(self).capacity(),
    {
        proof {
            use_type_invariant(&*self);
        }
        let mut emitted: Vec<AsyncMessage> = Vec::new();
        std::mem::swap(&mut emitted, &mut self.emitted);
        emitted.push(msg);
        self.emitted = emitted;
    }

    /// Takes out of the pool, in pool order, each message that may run at
    /// `slot` and whose gas still fits within `max_gas`.
    pub fn take_batch_to_execute(&mut self, slot: Slot, max_gas: u64) -> (r: Vec<AsyncMessage>)
        ensures
            r@ == batch(old(self).messages_seq(), slot, max_gas as nat).0,
            final(self).messages_seq() == batch(old(self).messages_seq(), slot, max_gas as nat).1,
            ids_ordered(r@),
            final(self).emitted_seq() == old(self).emitted_seq(),
            final(self).capacity() == old(self).capacity(),
    {
        proof {
            use_type_invariant(&*self);
        }
        let ghost all = self.messages@;
        let total = self.messages.len();
        let mut src: Vec<AsyncMessage> = Vec::new();
        std::mem::swap(&mut src, &mut self.messages);
        let mut taken: Vec<AsyncMessage> = Vec::new();
        let mut kept: Vec<AsyncMessage> = Vec::new();
        let mut gas: u64 = max_gas;
        let mut i: usize = 0;
        while src.len() > 0
            invariant
                i <= all.len(),
                total == all.len(),
                src@ == all.subrange(i as int, all.len() as int),
                batch(all.take(i as int), slot, max_gas as nat) == (taken@, kept@, gas as nat),
            decreases src@.len(),
        {
            let m = src.remove(0);
            assert(all.take(i + 1).drop_last() =~= all.take(i as int));
            assert(all.take(i + 1).last() == m);
            let runnable = !slot.lt(&m.validity_start) && slot.lt(&m.validity_end);
            if runnable && m.max_gas <= gas {
                gas = gas - m.max_gas;
                taken.push(m);
            } else {
                kept.push(m);
            }
            i += 1;
        }
        assert(all.take(i as int) =~= all);
        proof {
            if ids_ordered(all) {
                lemma_batch_ordered(all, slot, max_gas as nat);
            }
        }
        self.messages = kept;
        taken
    }

    /// Settles the pool at `slot`: the emitted messages join it in identifier
    /// order, then the expired messages leave it, then the last ones beyond
    /// `max_length`. Returns the messages that left.
    pub fn settle_slot(&mut self, slot: Slot) -> (r: Vec<AsyncMessage>)
        ensures
            ids_ordered(final(self).messages_seq()),
            final(self).emitted_seq() == Seq::<AsyncMessage>::empty(),
            final(self).capacity() == old(self).capacity(),
            final(self).messages_seq().len() <= old(self).capacity(),
            forall|i: int| 0 <= i < final(self).messages_seq().len() ==> !expired_at(#[trigger] final(self).messages_seq()[i], slot),
            (final(self).messages_seq() + r@).to_multiset() == (old(self).messages_seq() + old(self).emitted_seq()).to_multiset(),
            forall|i: int| 0 <= i < r@.len() ==> expired_at(#[trigger] r@[i], slot) || (final(self).messages_seq().len()
                == old(self).capacity() && forall|j: int| 0 <= j < final(self).messages_seq().len() ==> id_le(
                msg_id(#[trigger] final(self).messages_seq()[j]),
                msg_id(r@[i]),
            )),
    {
        proof {
            use_type_invariant(&*self);
        }
        let ghost all = (self.messages@ + self.emitted@).to_multiset();
        let mut merged: Vec<AsyncMessage> = Vec::new();
        let mut src: Vec<AsyncMessage> = Vec::new();
        std::mem::swap(&mut src, &mut self.messages);
        let mut emitted: Vec<AsyncMessage> = Vec::new();
        std::mem::swap(&mut emitted, &mut self.emitted);
        proof {
            vstd::seq_lib::lemma_multiset_commutative(src@, emitted@);
            assert(merged@.to_multiset() =~= vstd::multiset::Multiset::<AsyncMessage>::empty());
            assert(merged@.to_multiset().add(src@.to_multiset()).add(emitted@.to_multiset()) =~= all);
        }
        while src.len() > 0
            invariant
                ids_ordered(merged@),
                merged@.to_multiset().add(src@.to_multiset()).add(emitted@.to_multiset()) == all,
            decreases src@.len(),
        {
            let ghost before = src@;
            let m = src.pop().unwrap();
            assert(before == src@.push(m));
            insert_ordered(&mut merged, m);
            assert(merged@.to_multiset().add(src@.to_multiset()).add(emitted@.to_multiset()) =~= all);
        }
        while emitted.len() > 0
            invariant
                ids_ordered(merged@),
                merged@.to_multiset().add(emitted@.to_multiset()) == all,
            decreases emitted@.len(),
        {
            let ghost before = emitted@;
            let m = emitted.pop().unwrap();
            assert(before == emitted@.push(m));
            insert_ordered(&mut merged, m);
            assert(merged@.to_multiset().add(emitted@.to_multiset()) =~= all);
        }
        let ghost ordered = merged@;
        let total = merged.len();
        let mut alive: Vec<AsyncMessage> = Vec::new();
        let mut deleted: Vec<AsyncMessage> = Vec::new();
        let mut i: usize = 0;
        while merged.len() > 0
            invariant
                total == ordered.len(),
                i <= total,
                ids_ordered(ordered),
                ordered.to_multiset() == all,
                merged@ == ordered.subrange(i as int, total as int),
                ids_ordered(alive@),
                forall|p: int, j: int| 0 <= p < alive@.len() && i <= j < total ==> id_le(msg_id(#[trigger] alive@[p]), msg_id(#[trigger] ordered[j])),
                forall|p: int| 0 <= p < alive@.len() ==> !expired_at(#[trigger] alive@[p], slot),
                forall|p: int| 0 <= p < deleted@.len() ==> expired_at(#[trigger] deleted@[p], slot),
                alive@.to_multiset().add(deleted@.to_multiset()).add(merged@.to_multiset()) == all,
            decreases merged@.len(),
        {
            let ghost before = merged@;
            let m = merged.remove(0);
            assert(merged@ =~= ordered.subrange(i + 1, total as int));
            assert(before =~= seq![m] + merged@);
            assert(m == ordered[i as int]);
            let expired = !slot.lt(&m.validity_end);
            if expired {
                deleted.push(m);
            } else {
                alive.push(m);
            }
            assert(alive@.to_multiset().add(deleted@.to_multiset()).add(merged@.to_multiset()) =~= all);
            i += 1;
        }
        while alive.len() as u64 > self.max_length
            invariant
                ids_ordered(alive@),
                forall|p: int| 0 <= p < alive@.len() ==> !expired_at(#[trigger] alive@[p], slot),
                alive@.to_multiset().add(deleted@.to_multiset()) == all,
                forall|p: int| 0 <= p < deleted@.len() ==> expired_at(#[trigger] deleted@[p], slot) || (alive@.len() >= self.max_length
                    && forall|j: int| 0 <= j < alive@.len() ==> id_le(msg_id(#[trigger] alive@[j]), msg_id(deleted@[p]))),
            decreases alive@.len(),
        {
            let ghost before = alive@;
            let m = alive.pop().unwrap();
            assert(before == alive@.push(m));
            let ghost old_deleted = deleted@;
            deleted.push(m);
            assert(alive@.to_multiset().add(deleted@.to_multiset()) =~= all);
            assert forall|p: int| 0 <= p < deleted@.len() implies expired_at(#[trigger] deleted@[p], slot) || (alive@.len() >= self.max_length
                && forall|j: int| 0 <= j < alive@.len() ==> id_le(msg_id(#[trigger] alive@[j]), msg_id(deleted@[p]))) by {
                if p < old_deleted.len() {
                    assert(deleted@[p] == old_deleted[p]);
                    if !expired_at(deleted@[p], slot) {
                        assert forall|j: int| 0 <= j < alive@.len() implies id_le(msg_id(#[trigger] alive@[j]), msg_id(deleted@[p])) by {
                            assert(alive@[j] == before[j]);
                        }
                    }
                } else {
                    assert forall|j: int| 0 <= j < alive@.len() implies id_le(msg_id(#[trigger] alive@[j]), msg_id(deleted@[p])) by {
                        assert(alive@[j] == before[j]);
                        assert(deleted@[p] == before[before.len() - 1]);
                    }
                }
            }
        }
        self.messages = alive;
        proof {
            vstd::seq_lib::lemma_multiset_commutative(self.messages@, deleted@);
        }
        deleted
    }

    /// A copy of the messages emitted since the last settlement.
    pub fn get_snapshot(&self) -> (r: Vec<AsyncMessage>)
        ensures
            r@.len() == self.emitted_seq().len(),
            forall|i: int| 0 <= i < r@.len() ==> message_copy(#[trigger] r@[i], self.emitted_seq()[i]),
    {
        let mut r: Vec<AsyncMessage> = Vec::new();
        let n = self.emitted.len();
        let mut i: usize = 0;
        while i < n
            invariant
                n == self.emitted@.len(),
                i <= n,
                r@.len() == i,
                forall|j: int| 0 <= j < i ==> message_copy(#[trigger] r@[j], self.emitted@[j]),
            decreases n - i,
        {
            r.push(self.emitted[i].copy());
            i += 1;
        }
        r
    }

    /// Replaces the messages emitted since the last settlement with `snapshot`.
    pub fn reset_to_snapshot(&mut self, snapshot: Vec<AsyncMessage>)
        ensures
            final(self).emitted_seq() == snapshot@,
            final(self).messages_seq() == old(self).messages_seq(),
            final(self).capacity() == old(self).capacity(),
    {
        proof {
            use_type_invariant(&*self);
        }
        self.emitted = snapshot;
    }

    /// Hands out the messages emitted since the last settlement, and forgets them.
    pub fn take(&mut self) -> (r: Vec<AsyncMessage>)
        ensures
            r@ == old(self).emitted_seq(),
            final(self).emitted_seq() == Seq::<AsyncMessage>::empty(),
            final(self).messages_seq() == old(self).messages_seq(),
            final(self).capacity() == old(self).capacity(),
    {
        proof {
            use_type_invariant(&*self);
        }
        let mut r: Vec<AsyncMessage> = Vec::new();
        std::mem::swap(&mut r, &mut self.emitted);
        r
    }
}

/// `a` is a copy of `b`: the same fields, strings and bytes.
pub open spec fn message_copy(a: AsyncMessage, b: AsyncMessage) -> bool {
    &&& a.emission_slot == b.emission_slot
    &&& a.emission_index == b.emission_index
    &&& a.sender == b.sender
    &&& a.destination == b.destination
    &&& a.handler@ == b.handler@
    &&& a.max_gas == b.max_gas
    &&& a.gas_price == b.gas_price
    &&& a.coins == b.coins
    &&& a.validity_start == b.validity_start
    &&& a.validity_end == b.validity_end
    &&& a.data@ == b.data@
}

impl AsyncMessage {
    /// A copy of the message.
    pub fn copy(&self) -> (r: AsyncMessage)
        ensures
            message_copy(r, *self),
    {
        AsyncMessage {
            emission_slot: self.emission_slot,
            emission_index: self.emission_index,
            sender: self.sender,
            destination: self.destination,
            handler: self.handler.clone(),
            max_gas: self.max_gas,
            gas_price: self.gas_price,
            coins: self.coins,
            validity_start: self.validity_start,
            validity_end: self.validity_end,
            data: crate::ledger_entry::copy_bytes(&self.data),
        }
    }
}

} // verus!
