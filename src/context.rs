//! The context in which smart-contract bytecode runs: a speculative ledger
//! and asynchronous pool, the call stack, per-slot counters, a seeded random
//! generator and the events emitted so far. It only changes its own state.

use vstd::prelude::*;
use crate::amount::Amount;
use crate::async_pool::{AsyncMessage, SpeculativeAsyncPool, batch, message_copy, ids_ordered, expired_at, id_le, msg_id};
use crate::hash::{Digest, blake3_of};
use crate::ledger_changes::LedgerChanges;
use crate::slot::{Slot, slot_key, be_bytes, u64_to_be_bytes};
use crate::speculative_ledger::{
    Address, FinalLedger, LedgerError, SpeculativeLedger, eff_balance, eff_bytecode, eff_data,
    eff_exists, same_effect, transfer_result, data_written, bytecode_written, entry_created,
    coins_transferred,
};
use crate::ledger_entry::copy_bytes;

verus! {

#[verifier::external_type_specification]
#[verifier::external_body]
pub struct ExXoshiro256PlusPlus(rand_xoshiro::Xoshiro256PlusPlus);

/// Relies on the derived `Clone` of `rand_xoshiro::Xoshiro256PlusPlus`, whose
/// only field is its state array: the clone has the same state.
pub assume_specification[ <rand_xoshiro::Xoshiro256PlusPlus as Clone>::clone ](
    r: &rand_xoshiro::Xoshiro256PlusPlus,
) -> (c: rand_xoshiro::Xoshiro256PlusPlus)
    ensures
        c == *r,
;

/// The generator that `Xoshiro256PlusPlus::from_seed` builds from `seed`.
pub uninterp spec fn xoshiro_from_seed_of(seed: Seq<u8>) -> rand_xoshiro::Xoshiro256PlusPlus;

/// Relies on `rand_xoshiro::Xoshiro256PlusPlus::from_seed` (`SeedableRng`) to
/// build the generator from 32 seed bytes; its state depends on them alone.
#[verifier::external_body]
fn rng_from_seed(seed: [u8; 32]) -> (r: rand_xoshiro::Xoshiro256PlusPlus)
    ensures
        r == xoshiro_from_seed_of(seed@),
{
    <rand_xoshiro::Xoshiro256PlusPlus as rand_xoshiro::rand_core::SeedableRng>::from_seed(seed)
}

/// Identifier of a block: the digest of its binary form.
pub type BlockId = Digest;

/// Identifier of an operation.
pub type OperationId = Digest;

/// A frame of the call stack.
#[derive(Clone, Debug, PartialEq, Eq)]
pub struct ExecutionStackElement {
    /// Address whose code runs.
    pub address: Address,
    /// Coins sent with the call.
    pub coins: Amount,
    /// Addresses that the call may write to.
    pub owned_addresses: Vec<Address>,
}

/// Address, coins and owned addresses of each frame.
pub open spec fn stack_view(s: Seq<ExecutionStackElement>) -> Seq<(Address, Amount, Seq<Address>)> {
    s.map_values(|e: ExecutionStackElement| (e.address, e.coins, e.owned_addresses@))
}

/// Where and when an event was emitted.
#[derive(Clone, Debug, PartialEq, Eq)]
pub struct EventExecutionContext {
    pub slot: Slot,
    pub block: Option<BlockId>,
    pub call_stack: Vec<Address>,
    pub read_only: bool,
    pub index_in_slot: u64,
    pub origin_operation_id: Option<OperationId>,
}

/// An event emitted by a smart contract.
#[derive(Clone, Debug, PartialEq, Eq)]
pub struct SCOutputEvent {
    pub context: EventExecutionContext,
    pub data: String,
}

/// Plain content of an event.
pub type EventView = (Slot, Option<BlockId>, Seq<Address>, bool, u64, Option<OperationId>, Seq<char>);

/// Plain content of each event.
pub open spec fn events_view(s: Seq<SCOutputEvent>) -> Seq<EventView> {
    s.map_values(
        |e: SCOutputEvent|
            (
                e.context.slot,
                e.context.block,
                e.context.call_stack@,
                e.context.read_only,
                e.context.index_in_slot,
                e.context.origin_operation_id,
                e.data@,
            ),
    )
}

/// Why an operation of the context failed. Nothing is changed when one fails.
#[derive(Clone, Copy, Debug, PartialEq, Eq, Structural)]
pub enum ExecutionError {
    /// The call stack is empty.
    EmptyCallStack,
    /// The current call may not write to the address.
    WriteNotAllowed,
    /// The speculative ledger refused the change.
    Ledger(LedgerError),
}

/// The final state that executions read: ledger and asynchronous pool.
#[derive(Clone, Debug, PartialEq, Eq)]
pub struct FinalState {
    pub ledger: FinalLedger,
    pub async_pool: Vec<AsyncMessage>,
    pub async_pool_max_length: u64,
}

/// Changes that executions made to the final state.
#[derive(Clone, Debug, PartialEq, Eq)]
pub struct StateChanges {
    /// Changes to ledger entries.
    pub ledger_changes: LedgerChanges,
    /// Asynchronous messages emitted.
    pub async_pool_changes: Vec<AsyncMessage>,
}

/// What the execution of a slot produced.
#[derive(Debug, PartialEq, Eq)]
pub struct ExecutionOutput {
    pub slot: Slot,
    pub block_id: Option<BlockId>,
    pub state_changes: StateChanges,
    pub events: Vec<SCOutputEvent>,
    /// Messages that left the pool when it was settled, in the order their
    /// coins went back to their senders.
    pub evicted_messages: Vec<AsyncMessage>,
}

/// The state of a context that a snapshot restores.
pub struct ExecutionContextSnapshot {
    pub ledger_changes: LedgerChanges,
    pub async_pool_changes: Vec<AsyncMessage>,
    pub created_addr_index: u64,
    pub created_event_index: u64,
    pub created_message_index: u64,
    pub stack: Vec<ExecutionStackElement>,
    pub events: Vec<SCOutputEvent>,
    pub unsafe_rng: rand_xoshiro::Xoshiro256PlusPlus,
}

/// Seed bytes of a smart-contract address: the slot's key, the creation
/// index in eight big-endian bytes, then 0 in read-only mode and 1 otherwise.
pub open spec fn address_seed(slot: Slot, index: u64, read_only: bool) -> Seq<u8> {
    slot_key(slot) + be_bytes(index as nat, 8) + seq![if read_only { 0u8 } else { 1u8 }]
}

/// Seed bytes of the generator of an active slot: the slot's key, 1, then the
/// block's digest if there is a block.
pub open spec fn active_rng_seed(slot: Slot, block: Option<BlockId>) -> Seq<u8> {
    slot_key(slot) + seq![1u8] + match block {
        Some(b) => b.0@,
        None => Seq::empty(),
    }
}

/// Seed bytes of the generator of a read-only execution: the slot's key, then 0.
pub open spec fn readonly_rng_seed(slot: Slot) -> Seq<u8> {
    slot_key(slot) + seq![0u8]
}

/// Appends the bytes `b` to `out`.
fn push_all(out: &mut Vec<u8>, b: &[u8])
    ensures
        final(out)@ == old(out)@ + b@,
{
    crate::serialization::append_bytes(out, b);
}

/// The generator seed of an active slot: the digest of its seed bytes.
pub fn active_slot_seed(slot: Slot, opt_block_id: Option<BlockId>) -> (r: [u8; 32])
    ensures
        r@ == blake3_of(active_rng_seed(slot, opt_block_id)),
{
    let mut seed: Vec<u8> = Vec::new();
    let key = slot.to_bytes_key();
    push_all(&mut seed, key.as_slice());
    seed.push(1u8);
    match opt_block_id {
        Some(b) => {
            push_all(&mut seed, b.0.as_slice());
        },
        None => {},
    }
    assert(seed@ =~= active_rng_seed(slot, opt_block_id));
    Digest::compute_from(seed.as_slice()).0
}

/// The generator seed of a read-only execution: the digest of its seed bytes.
pub fn readonly_seed(slot: Slot) -> (r: [u8; 32])
    ensures
        r@ == blake3_of(readonly_rng_seed(slot)),
{
    let mut seed: Vec<u8> = Vec::new();
    let key = slot.to_bytes_key();
    push_all(&mut seed, key.as_slice());
    seed.push(0u8);
    assert(seed@ =~= readonly_rng_seed(slot));
    Digest::compute_from(seed.as_slice()).0
}

/// The address created with index `index` at `slot`, in read-only mode or not.
pub fn derive_sc_address(slot: Slot, index: u64, read_only: bool) -> (r: Address)
    ensures
        r.0@ == blake3_of(address_seed(slot, index, read_only)),
{
    let mut data: Vec<u8> = Vec::new();
    let key = slot.to_bytes_key();
    push_all(&mut data, key.as_slice());
    let idx = u64_to_be_bytes(index);
    push_all(&mut data, idx.as_slice());
    if read_only {
        data.push(0u8);
    } else {
        data.push(1u8);
    }
    assert(data@ =~= address_seed(slot, index, read_only));
    Digest::compute_from(data.as_slice())
}

/// Addresses created in read-only mode and in active mode are derived from
/// different seeds, whatever the slot and index.
pub proof fn lemma_address_seed_modes_differ(slot: Slot, index: u64)
    ensures
        address_seed(slot, index, true) != address_seed(slot, index, false),
{
    let a = address_seed(slot, index, true);
    let b = address_seed(slot, index, false);
    assert(a[a.len() - 1] == 0u8);
    assert(b[b.len() - 1] == 1u8);
}

/// A copy of a call stack.
fn copy_stack(s: &Vec<ExecutionStackElement>) -> (r: Vec<ExecutionStackElement>)
    ensures
        stack_view(r@) == stack_view(s@),
{
    let mut r: Vec<ExecutionStackElement> = Vec::new();
    let n = s.len();
    let mut i: usize = 0;
    while i < n
        invariant
            n == s@.len(),
            i <= n,
            r@.len() == i,
            stack_view(r@) == stack_view(s@).take(i as int),
        decreases n - i,
    {
        let e = &s[i];
        let owned = vstd::slice::slice_to_vec(e.owned_addresses.as_slice());
        let ghost before = r@;
        r.push(ExecutionStackElement { address: e.address, coins: e.coins, owned_addresses: owned });
        assert forall|j: int| 0 <= j < i + 1 implies #[trigger] stack_view(r@)[j] == stack_view(s@)[j] by {
            if j < i {
                assert(r@[j] == before[j]);
                assert(stack_view(before)[j] == stack_view(s@).take(i as int)[j]);
            }
        }
        assert(stack_view(r@) =~= stack_view(s@).take(i + 1));
        i += 1;
    }
    assert(stack_view(s@).take(n as int) =~= stack_view(s@));
    r
}

/// A copy of a list of events.
fn copy_events(s: &Vec<SCOutputEvent>) -> (r: Vec<SCOutputEvent>)
    ensures
        events_view(r@) == events_view(s@),
{
    let mut r: Vec<SCOutputEvent> = Vec::new();
    let n = s.len();
    let mut i: usize = 0;
    while i < n
        invariant
            n == s@.len(),
            i <= n,
            r@.len() == i,
            events_view(r@) == events_view(s@).take(i as int),
        decreases n - i,
    {
        let e = &s[i];
        let c = EventExecutionContext {
            slot: e.context.slot,
            block: e.context.block,
            call_stack: vstd::slice::slice_to_vec(e.context.call_stack.as_slice()),
            read_only: e.context.read_only,
            index_in_slot: e.context.index_in_slot,
            origin_operation_id: e.context.origin_operation_id,
        };
        let ghost before = r@;
        r.push(SCOutputEvent { context: c, data: e.data.clone() });
        assert forall|j: int| 0 <= j < i + 1 implies #[trigger] events_view(r@)[j] == events_view(s@)[j] by {
            if j < i {
                assert(r@[j] == before[j]);
                assert(events_view(before)[j] == events_view(s@).take(i as int)[j]);
            }
        }
        assert(events_view(r@) =~= events_view(s@).take(i + 1));
        i += 1;
    }
    assert(events_view(s@).take(n as int) =~= events_view(s@));
    r
}

/// Raw balance read from `b`, zero when there is none.
pub open spec fn balance_or_zero(b: Option<Amount>) -> nat {
    match b {
        Some(x) => x.0 as nat,
        None => 0,
    }
}

/// The balance of `a`, atop `f` through `c`, once the coins of each message
/// of `msgs` went back to its sender in turn; a refund that would overflow
/// the sender's balance is skipped.
pub open spec fn refunded_balance(f: FinalLedger, c: LedgerChanges, msgs: Seq<AsyncMessage>, a: Address) -> Option<Amount>
    decreases msgs.len(),
{
    if msgs.len() == 0 {
        eff_balance(f, c, a)
    } else {
        let prev = refunded_balance(f, c, msgs.drop_last(), a);
        let m = msgs.last();
        if m.sender == a && balance_or_zero(prev) + m.coins.0 <= u64::MAX {
            Some(Amount((balance_or_zero(prev) + m.coins.0) as u64))
        } else {
            prev
        }
    }
}

/// The bytecode of `a` after those refunds: unchanged for an address that
/// had an entry, none for an entry that a refund created.
pub open spec fn refunded_bytecode(f: FinalLedger, c: LedgerChanges, msgs: Seq<AsyncMessage>, a: Address) -> Option<Seq<u8>> {
    if eff_exists(f, c, a) {
        eff_bytecode(f, c, a)
    } else if refunded_balance(f, c, msgs, a) is Some {
        Some(Seq::empty())
    } else {
        None
    }
}

/// The datastore value of `a` under `k` after those refunds: unchanged, and
/// none for an entry that a refund created.
pub open spec fn refunded_data(f: FinalLedger, c: LedgerChanges, msgs: Seq<AsyncMessage>, a: Address, k: Digest) -> Option<Seq<u8>> {
    if eff_exists(f, c, a) {
        eff_data(f, c, a, k)
    } else {
        None
    }
}

/// An address with an entry keeps one through the refunds.
proof fn lemma_refunded_keeps_entry(f: FinalLedger, c: LedgerChanges, msgs: Seq<AsyncMessage>, a: Address)
    ensures
        eff_balance(f, c, a) is Some ==> refunded_balance(f, c, msgs, a) is Some,
    decreases msgs.len(),
{
    if msgs.len() > 0 {
        lemma_refunded_keeps_entry(f, c, msgs.drop_last(), a);
    }
}

/// Address `a` reads through `c2` atop `f` as it reads through `c`, once the
/// coins of the messages `msgs` went back to their senders in turn.
pub open spec fn reads_refunded(f: FinalLedger, c: LedgerChanges, msgs: Seq<AsyncMessage>, c2: LedgerChanges, a: Address) -> bool {
    &&& eff_exists(f, c2, a) == (refunded_balance(f, c, msgs, a) is Some)
    &&& eff_balance(f, c2, a) == refunded_balance(f, c, msgs, a)
    &&& eff_bytecode(f, c2, a) == refunded_bytecode(f, c, msgs, a)
    &&& forall|k: Digest| #[trigger] eff_data(f, c2, a, k) == refunded_data(f, c, msgs, a, k)
}

/// Finalizing a settled slot: a final ledger `f1` written from `f` with the
/// ledger changes `out` of a settled slot (as `apply_ledger_changes` does)
/// holds, for every address, what the changes so far `c` read as once the
/// coins of the evicted messages `evicted` went back to their senders.
pub proof fn lemma_finalize_settled(
    f: FinalLedger,
    c: LedgerChanges,
    evicted: Seq<AsyncMessage>,
    out: LedgerChanges,
    f1: FinalLedger,
    a: Address,
)
    requires
        reads_refunded(f, c, evicted, out, a),
        crate::speculative_ledger::entry_reads_as(crate::key_map::lookup(f1@, a), f, out, a),
    ensures
        (crate::key_map::lookup(f1@, a) is Some) == (refunded_balance(f, c, evicted, a) is Some),
        crate::key_map::lookup(f1@, a) matches Some(e) ==> {
            &&& Some(e.parallel_balance) == refunded_balance(f, c, evicted, a)
            &&& Some(e.bytecode@) == refunded_bytecode(f, c, evicted, a)
            &&& forall|k: Digest| #[trigger] crate::ledger_entry::lookup_bytes(e.datastore, k) == refunded_data(f, c, evicted, a, k)
        },
{
    if let Some(e) = crate::key_map::lookup(f1@, a) {
        assert forall|k: Digest| #[trigger] crate::ledger_entry::lookup_bytes(e.datastore, k) == refunded_data(f, c, evicted, a, k) by {
            assert(eff_data(f, out, a, k) == refunded_data(f, c, evicted, a, k));
        }
    }
}

/// Settling a slot moves the pool from `before`, with the messages
/// `emitted` at that slot, to `after`: the pool holds what it held and what
/// was emitted, less the messages that were evicted.
pub proof fn lemma_pool_after_settle(
    before: Seq<AsyncMessage>,
    emitted: Seq<AsyncMessage>,
    evicted: Seq<AsyncMessage>,
    after: Seq<AsyncMessage>,
)
    requires
        (after + evicted).to_multiset() == (before + emitted).to_multiset(),
    ensures
        after.to_multiset() == before.to_multiset().add(emitted.to_multiset()).sub(evicted.to_multiset()),
{
    vstd::seq_lib::lemma_multiset_commutative(after, evicted);
    vstd::seq_lib::lemma_multiset_commutative(before, emitted);
    assert(after.to_multiset() =~= after.to_multiset().add(evicted.to_multiset()).sub(evicted.to_multiset()));
}

/// Context in which bytecode runs at one slot.
pub struct ExecutionContext {
    /// Ledger as seen after everything that happened so far in the context.
    pub speculative_ledger: SpeculativeLedger,
    /// Asynchronous pool as seen after everything that happened so far.
    pub speculative_async_pool: SpeculativeAsyncPool,
    /// Most gas of this execution.
    pub max_gas: u64,
    /// Gas price of this execution.
    pub gas_price: Amount,
    /// Slot of the execution.
    pub slot: Slot,
    /// Number of addresses created so far at this slot.
    pub created_addr_index: u64,
    /// Number of events emitted so far.
    pub created_event_index: u64,
    /// Number of messages emitted so far.
    pub created_message_index: u64,
    /// Block at the slot, if any.
    pub opt_block_id: Option<BlockId>,
    /// Call stack, the current call last.
    pub stack: Vec<ExecutionStackElement>,
    /// Whether the execution is read-only.
    pub read_only: bool,
    /// Events emitted so far.
    pub events: Vec<SCOutputEvent>,
    /// Random generator that bytecode may draw from; its state is not secret.
    pub unsafe_rng: rand_xoshiro::Xoshiro256PlusPlus,
    /// Operation that caused this execution, if any.
    pub origin_operation_id: Option<OperationId>,
}

/// Whether the current call of `ctx` may write to `a`: `a` is among the
/// addresses owned by the top frame of the stack.
pub open spec fn write_allowed(ctx: ExecutionContext, a: Address) -> bool {
    ctx.stack@.len() > 0 && ctx.stack@.last().owned_addresses@.contains(a)
}

/// What a snapshot holds of the context it was taken from.
pub open spec fn snapshot_of(snap: ExecutionContextSnapshot, ctx: ExecutionContext) -> bool {
    &&& same_effect(snap.ledger_changes, ctx.speculative_ledger.added_changes)
    &&& snap.async_pool_changes@.len() == ctx.speculative_async_pool.emitted_seq().len()
    &&& forall|i: int| 0 <= i < snap.async_pool_changes@.len() ==> message_copy(
        #[trigger] snap.async_pool_changes@[i],
        ctx.speculative_async_pool.emitted_seq()[i],
    )
    &&& snap.created_addr_index == ctx.created_addr_index
    &&& snap.created_event_index == ctx.created_event_index
    &&& snap.created_message_index == ctx.created_message_index
    &&& stack_view(snap.stack@) == stack_view(ctx.stack@)
    &&& events_view(snap.events@) == events_view(ctx.events@)
    &&& snap.unsafe_rng == ctx.unsafe_rng
}

/// The parts of a context that it fixes when it is built and no operation
/// changes: final state, pool contents and limits, gas, mode and origin.
pub open spec fn fixed_parts_equal(a: ExecutionContext, b: ExecutionContext) -> bool {
    &&& a.speculative_ledger.final_ledger == b.speculative_ledger.final_ledger
    &&& a.speculative_async_pool.messages_seq() == b.speculative_async_pool.messages_seq()
    &&& a.speculative_async_pool.capacity() == b.speculative_async_pool.capacity()
    &&& a.max_gas == b.max_gas
    &&& a.gas_price == b.gas_price
    &&& a.read_only == b.read_only
    &&& a.origin_operation_id == b.origin_operation_id
}

/// Whether the address that `ctx` would create next already has an entry.
pub open spec fn sc_address_taken(ctx: ExecutionContext) -> bool {
    forall|d: Digest| d.0@ == blake3_of(address_seed(ctx.slot, ctx.created_addr_index, ctx.read_only))
        ==> #[trigger] eff_exists(ctx.speculative_ledger.final_ledger, ctx.speculative_ledger.added_changes, d)
}

/// `b` is `a` after creating the smart-contract address `addr` holding
/// `code`: its digest comes from the slot, index and mode of `a`, the ledger
/// has its entry, the current call owns it, and the index moved on.
pub open spec fn sc_address_created(a: ExecutionContext, b: ExecutionContext, addr: Address, code: Seq<u8>) -> bool {
    &&& addr.0@ == blake3_of(address_seed(a.slot, a.created_addr_index, a.read_only))
    &&& entry_created(a.speculative_ledger, b.speculative_ledger, addr, code)
    &&& b.stack@.len() == a.stack@.len()
    &&& b.stack@.drop_last() == a.stack@.drop_last()
    &&& b.stack@.last().address == a.stack@.last().address
    &&& b.stack@.last().coins == a.stack@.last().coins
    &&& b.stack@.last().owned_addresses@ == a.stack@.last().owned_addresses@.push(addr)
    &&& b.created_addr_index == a.created_addr_index + 1
    &&& fixed_parts_equal(a, b)
    &&& b.speculative_async_pool == a.speculative_async_pool
    &&& b.slot == a.slot
    &&& b.opt_block_id == a.opt_block_id
    &&& b.created_event_index == a.created_event_index
    &&& b.created_message_index == a.created_message_index
    &&& b.events == a.events
    &&& b.unsafe_rng == a.unsafe_rng
}

/// `b` is `a` but for changes to the speculative ledger.
pub open spec fn ledger_alone_changed(a: ExecutionContext, b: ExecutionContext) -> bool {
    &&& fixed_parts_equal(a, b)
    &&& a.speculative_async_pool == b.speculative_async_pool
    &&& a.slot == b.slot
    &&& a.created_addr_index == b.created_addr_index
    &&& a.created_event_index == b.created_event_index
    &&& a.created_message_index == b.created_message_index
    &&& a.opt_block_id == b.opt_block_id
    &&& a.stack == b.stack
    &&& a.events == b.events
    &&& a.unsafe_rng == b.unsafe_rng
}

/// The two contexts are in the same state, their slot and block aside: the
/// same ledger as read through their changes, the same emitted messages,
/// counters, stack, events and generator, and the same fixed parts.
pub open spec fn same_state(a: ExecutionContext, b: ExecutionContext) -> bool {
    &&& fixed_parts_equal(a, b)
    &&& same_effect(a.speculative_ledger.added_changes, b.speculative_ledger.added_changes)
    &&& a.speculative_async_pool.emitted_seq().len() == b.speculative_async_pool.emitted_seq().len()
    &&& forall|i: int| 0 <= i < a.speculative_async_pool.emitted_seq().len() ==> message_copy(
        #[trigger] a.speculative_async_pool.emitted_seq()[i],
        b.speculative_async_pool.emitted_seq()[i],
    )
    &&& a.created_addr_index == b.created_addr_index
    &&& a.created_event_index == b.created_event_index
    &&& a.created_message_index == b.created_message_index
    &&& stack_view(a.stack@) == stack_view(b.stack@)
    &&& events_view(a.events@) == events_view(b.events@)
    &&& a.unsafe_rng == b.unsafe_rng
}

/// What resetting `ctx` to `snap` gives.
pub open spec fn reset_of(ctx: ExecutionContext, snap: ExecutionContextSnapshot, after: ExecutionContext) -> bool {
    &&& fixed_parts_equal(after, ctx)
    &&& after.slot == ctx.slot
    &&& after.opt_block_id == ctx.opt_block_id
    &&& after.speculative_ledger.added_changes == snap.ledger_changes
    &&& after.speculative_async_pool.emitted_seq() == snap.async_pool_changes@
    &&& after.created_addr_index == snap.created_addr_index
    &&& after.created_event_index == snap.created_event_index
    &&& after.created_message_index == snap.created_message_index
    &&& after.stack == snap.stack
    &&& after.events == snap.events
    &&& after.unsafe_rng == snap.unsafe_rng
}

/// Rolling back: a context reset to a snapshot taken before any changes is
/// back in the state it had then, whatever happened in between that left its
/// fixed parts alone.
pub proof fn lemma_snapshot_rollback(
    before: ExecutionContext,
    snap: ExecutionContextSnapshot,
    changed: ExecutionContext,
    after: ExecutionContext,
)
    requires
        snapshot_of(snap, before),
        fixed_parts_equal(changed, before),
        reset_of(changed, snap, after),
    ensures
        same_state(after, before),
{
}

impl ExecutionContext {
    /// A context at slot (0, 0) reading `final_state` through
    /// `previous_changes`, with an empty stack, no events, zero counters and
    /// a generator seeded with zeros. It is meant to be set up further.
    pub fn new(final_state: FinalState, previous_changes: StateChanges) -> (r: ExecutionContext)
        ensures
            r.speculative_ledger.final_ledger == final_state.ledger,
            r.speculative_ledger.added_changes == previous_changes.ledger_changes,
            r.speculative_async_pool.messages_seq().to_multiset() == final_state.async_pool@.to_multiset(),
            ids_ordered(r.speculative_async_pool.messages_seq()),
            r.speculative_async_pool.emitted_seq() == previous_changes.async_pool_changes@,
            r.speculative_async_pool.capacity() == final_state.async_pool_max_length,
            r.max_gas == 0,
            r.gas_price == Amount(0),
            r.slot == (Slot { period: 0, thread: 0 }),
            r.created_addr_index == 0,
            r.created_event_index == 0,
            r.created_message_index == 0,
            (r.opt_block_id is None),
            r.stack@.len() == 0,
            !r.read_only,
            r.events@.len() == 0,
            (r.origin_operation_id is None),
            r.unsafe_rng == xoshiro_from_seed_of(Seq::new(32, |i: int| 0u8)),
    {
        let FinalState { ledger, async_pool, async_pool_max_length } = final_state;
        let StateChanges { ledger_changes, async_pool_changes } = previous_changes;
        ExecutionContext {
            speculative_ledger: SpeculativeLedger::new(ledger, ledger_changes),
            speculative_async_pool: SpeculativeAsyncPool::new(async_pool, async_pool_changes, async_pool_max_length),
            max_gas: 0,
            gas_price: Amount(0),
            slot: Slot::new(0, 0),
            created_addr_index: 0,
            created_event_index: 0,
            created_message_index: 0,
            opt_block_id: None,
            stack: Vec::new(),
            read_only: false,
            events: Vec::new(),
            unsafe_rng: {
                let zero_seed: [u8; 32] = [0u8; 32];
                assert(zero_seed@ =~= Seq::new(32, |i: int| 0u8));
                rng_from_seed(zero_seed)
            },
            origin_operation_id: None,
        }
    }

    /// A copy of the state that a failed call rolls back to: ledger changes,
    /// emitted messages, counters, stack, events and generator. The slot and
    /// block are not part of it.
    pub fn get_snapshot(&self) -> (r: ExecutionContextSnapshot)
        ensures
            snapshot_of(r, *self),
    {
        ExecutionContextSnapshot {
            ledger_changes: self.speculative_ledger.get_snapshot(),
            async_pool_changes: self.speculative_async_pool.get_snapshot(),
            created_addr_index: self.created_addr_index,
            created_event_index: self.created_event_index,
            created_message_index: self.created_message_index,
            stack: copy_stack(&self.stack),
            events: copy_events(&self.events),
            unsafe_rng: self.unsafe_rng.clone(),
        }
    }

    /// Restores the state held by `snapshot`; the slot and block stay.
    pub fn reset_to_snapshot(&mut self, snapshot: ExecutionContextSnapshot)
        ensures
            reset_of(*old(self), snapshot, *final(self)),
    {
        let ExecutionContextSnapshot {
            ledger_changes,
            async_pool_changes,
            created_addr_index,
            created_event_index,
            created_message_index,
            stack,
            events,
            unsafe_rng,
        } = snapshot;
        self.speculative_ledger.reset_to_snapshot(ledger_changes);
        self.speculative_async_pool.reset_to_snapshot(async_pool_changes);
        self.created_addr_index = created_addr_index;
        self.created_event_index = created_event_index;
        self.created_message_index = created_message_index;
        self.stack = stack;
        self.events = events;
        self.unsafe_rng = unsafe_rng;
    }

    /// A context for a read-only execution at `slot`, with the call stack
    /// `call_stack`, its generator seeded from the slot and the read-only mark.
    pub fn readonly(
        slot: Slot,
        max_gas: u64,
        gas_price: Amount,
        call_stack: Vec<ExecutionStackElement>,
        previous_changes: StateChanges,
        final_state: FinalState,
    ) -> (r: ExecutionContext)
        ensures
            r.speculative_ledger.final_ledger == final_state.ledger,
            r.speculative_ledger.added_changes == previous_changes.ledger_changes,
            r.speculative_async_pool.emitted_seq() == previous_changes.async_pool_changes@,
            r.max_gas == max_gas,
            r.gas_price == gas_price,
            r.slot == slot,
            r.stack == call_stack,
            r.read_only,
            r.speculative_async_pool.messages_seq().to_multiset() == final_state.async_pool@.to_multiset(),
            ids_ordered(r.speculative_async_pool.messages_seq()),
            r.speculative_async_pool.capacity() == final_state.async_pool_max_length,
            (r.origin_operation_id is None),
            (r.opt_block_id is None),
            r.created_addr_index == 0,
            r.created_event_index == 0,
            r.created_message_index == 0,
            r.events@.len() == 0,
            r.unsafe_rng == xoshiro_from_seed_of(blake3_of(readonly_rng_seed(slot))),
    {
        let seed = readonly_seed(slot);
        let mut ctx = ExecutionContext::new(final_state, previous_changes);
        ctx.max_gas = max_gas;
        ctx.gas_price = gas_price;
        ctx.slot = slot;
        ctx.stack = call_stack;
        ctx.read_only = true;
        ctx.unsafe_rng = rng_from_seed(seed);
        ctx
    }

    /// A context for the execution of the active slot `slot`, with the block
    /// `opt_block_id` if any, its generator seeded from both.
    pub fn active_slot(
        slot: Slot,
        opt_block_id: Option<BlockId>,
        previous_changes: StateChanges,
        final_state: FinalState,
    ) -> (r: ExecutionContext)
        ensures
            r.speculative_ledger.final_ledger == final_state.ledger,
            r.speculative_ledger.added_changes == previous_changes.ledger_changes,
            r.speculative_async_pool.emitted_seq() == previous_changes.async_pool_changes@,
            r.slot == slot,
            r.opt_block_id == opt_block_id,
            !r.read_only,
            r.speculative_async_pool.messages_seq().to_multiset() == final_state.async_pool@.to_multiset(),
            ids_ordered(r.speculative_async_pool.messages_seq()),
            r.speculative_async_pool.capacity() == final_state.async_pool_max_length,
            (r.origin_operation_id is None),
            r.max_gas == 0,
            r.gas_price == Amount(0),
            r.stack@.len() == 0,
            r.created_addr_index == 0,
            r.created_event_index == 0,
            r.created_message_index == 0,
            r.events@.len() == 0,
            r.unsafe_rng == xoshiro_from_seed_of(blake3_of(active_rng_seed(slot, opt_block_id))),
    {
        let seed = active_slot_seed(slot, opt_block_id);
        let mut ctx = ExecutionContext::new(final_state, previous_changes);
        ctx.slot = slot;
        ctx.opt_block_id = opt_block_id;
        ctx.unsafe_rng = rng_from_seed(seed);
        ctx
    }

    /// The address of the current call.
    pub fn get_current_address(&self) -> (r: Result<Address, ExecutionError>)
        ensures
            self.stack@.len() == 0 ==> r == Err::<Address, ExecutionError>(ExecutionError::EmptyCallStack),
            self.stack@.len() > 0 ==> r == Ok::<Address, ExecutionError>(self.stack@.last().address),
    {
        let n = self.stack.len();
        if n == 0 {
            Err(ExecutionError::EmptyCallStack)
        } else {
            Ok(self.stack[n - 1].address)
        }
    }

    /// The addresses that the current call owns, in the order they were added.
    pub fn get_current_owned_addresses(&self) -> (r: Result<Vec<Address>, ExecutionError>)
        ensures
            self.stack@.len() == 0 ==> r == Err::<Vec<Address>, ExecutionError>(ExecutionError::EmptyCallStack),
            self.stack@.len() > 0 ==> (r matches Ok(v) && v@ == self.stack@.last().owned_addresses@),
    {
        let n = self.stack.len();
        if n == 0 {
            Err(ExecutionError::EmptyCallStack)
        } else {
            Ok(vstd::slice::slice_to_vec(self.stack[n - 1].owned_addresses.as_slice()))
        }
    }

    /// The coins sent with the current call.
    pub fn get_current_call_coins(&self) -> (r: Result<Amount, ExecutionError>)
        ensures
            self.stack@.len() == 0 ==> r == Err::<Amount, ExecutionError>(ExecutionError::EmptyCallStack),
            self.stack@.len() > 0 ==> r == Ok::<Amount, ExecutionError>(self.stack@.last().coins),
    {
        let n = self.stack.len();
        if n == 0 {
            Err(ExecutionError::EmptyCallStack)
        } else {
            Ok(self.stack[n - 1].coins)
        }
    }

    /// The addresses of the call stack, the current call last.
    pub fn get_call_stack(&self) -> (r: Vec<Address>)
        ensures
            r@ == self.stack@.map_values(|e: ExecutionStackElement| e.address),
    {
        let mut r: Vec<Address> = Vec::new();
        let n = self.stack.len();
        let mut i: usize = 0;
        while i < n
            invariant
                n == self.stack@.len(),
                i <= n,
                r@ == self.stack@.map_values(|e: ExecutionStackElement| e.address).take(i as int),
            decreases n - i,
        {
            r.push(self.stack[i].address);
            assert(r@ =~= self.stack@.map_values(|e: ExecutionStackElement| e.address).take(i + 1));
            i += 1;
        }
        assert(self.stack@.map_values(|e: ExecutionStackElement| e.address).take(n as int) =~= self.stack@.map_values(
            |e: ExecutionStackElement| e.address,
        ));
        r
    }

    /// Whether the current call may write to `a`.
    pub fn has_write_rights_on(&self, a: &Address) -> (r: bool)
        ensures
            r == write_allowed(*self, *a),
    {
        let n = self.stack.len();
        if n == 0 {
            return false;
        }
        let owned = &self.stack[n - 1].owned_addresses;
        let m = owned.len();
        let mut i: usize = 0;
        while i < m
            invariant
                m == owned@.len(),
                i <= m,
                n == self.stack@.len(),
                n > 0,
                *owned == self.stack@.last().owned_addresses,
                forall|j: int| 0 <= j < i ==> owned@[j] != *a,
            decreases m - i,
        {
            if owned[i] == *a {
                proof {
                    crate::hash::lemma_hash_eq(owned@[i as int], *a);
                }
                return true;
            }
            i += 1;
        }
        false
    }

    /// The bytecode of `a`, if it has an entry.
    pub fn get_bytecode(&self, a: &Address) -> (r: Option<Vec<u8>>)
        ensures
            r is Some == eff_bytecode(self.speculative_ledger.final_ledger, self.speculative_ledger.added_changes, *a) is Some,
            r matches Some(v) ==> eff_bytecode(self.speculative_ledger.final_ledger, self.speculative_ledger.added_changes, *a) == Some(v@),
    {
        self.speculative_ledger.get_bytecode(a)
    }

    /// The datastore value of `a` under `key`, if there is one.
    pub fn get_data_entry(&self, a: &Address, key: &Digest) -> (r: Option<Vec<u8>>)
        ensures
            r is Some == eff_data(self.speculative_ledger.final_ledger, self.speculative_ledger.added_changes, *a, *key) is Some,
            r matches Some(v) ==> eff_data(self.speculative_ledger.final_ledger, self.speculative_ledger.added_changes, *a, *key) == Some(v@),
    {
        self.speculative_ledger.get_data_entry(a, key)
    }

    /// Whether the datastore of `a` holds a value under `key`.
    pub fn has_data_entry(&self, a: &Address, key: &Digest) -> (r: bool)
        ensures
            r == eff_data(self.speculative_ledger.final_ledger, self.speculative_ledger.added_changes, *a, *key) is Some,
    {
        self.speculative_ledger.has_data_entry(a, key)
    }

    /// The balance of `a`, if it has an entry.
    pub fn get_parallel_balance(&self, a: &Address) -> (r: Option<Amount>)
        ensures
            r == eff_balance(self.speculative_ledger.final_ledger, self.speculative_ledger.added_changes, *a),
    {
        self.speculative_ledger.get_parallel_balance(a)
    }

    /// Holds `data` under `key` in the datastore of `a`. Fails, changing
    /// nothing, when the current call may not write to `a` or `a` has no entry.
    pub fn set_data_entry(&mut self, a: &Address, key: Digest, data: Vec<u8>) -> (r: Result<(), ExecutionError>)
        ensures
            !write_allowed(*old(self), *a) ==> r == Err::<(), ExecutionError>(ExecutionError::WriteNotAllowed) && *final(self) == *old(self),
            write_allowed(*old(self), *a) && !eff_exists(old(self).speculative_ledger.final_ledger, old(self).speculative_ledger.added_changes, *a)
                ==> r == Err::<(), ExecutionError>(ExecutionError::Ledger(LedgerError::MissingAddress)) && *final(self) == *old(self),
            write_allowed(*old(self), *a) && eff_exists(old(self).speculative_ledger.final_ledger, old(self).speculative_ledger.added_changes, *a)
                ==> r is Ok && ledger_alone_changed(*old(self), *final(self)) && data_written(
                old(self).speculative_ledger,
                final(self).speculative_ledger,
                *a,
                key,
                Some(data@),
            ),
    {
        if !self.has_write_rights_on(a) {
            return Err(ExecutionError::WriteNotAllowed);
        }
        match self.speculative_ledger.set_data_entry(a, key, data) {
            Ok(()) => Ok(()),
            Err(e) => Err(ExecutionError::Ledger(e)),
        }
    }

    /// Appends `data` to the value under `key` in the datastore of `a`. Fails,
    /// changing nothing, when the current call may not write to `a`, `a` has
    /// no entry or its datastore has no value under `key`.
    pub fn append_data_entry(&mut self, a: &Address, key: Digest, data: Vec<u8>) -> (r: Result<(), ExecutionError>)
        ensures
            !write_allowed(*old(self), *a) ==> r == Err::<(), ExecutionError>(ExecutionError::WriteNotAllowed) && *final(self) == *old(self),
            write_allowed(*old(self), *a) && eff_data(old(self).speculative_ledger.final_ledger, old(self).speculative_ledger.added_changes, *a, key) is None
                ==> r == Err::<(), ExecutionError>(ExecutionError::Ledger(LedgerError::MissingDataEntry)) && *final(self) == *old(self),
            write_allowed(*old(self), *a) && eff_data(old(self).speculative_ledger.final_ledger, old(self).speculative_ledger.added_changes, *a, key) is Some
                ==> r is Ok && ledger_alone_changed(*old(self), *final(self)) && data_written(
                old(self).speculative_ledger,
                final(self).speculative_ledger,
                *a,
                key,
                Some(eff_data(old(self).speculative_ledger.final_ledger, old(self).speculative_ledger.added_changes, *a, key).unwrap() + data@),
            ),
    {
        if !self.has_write_rights_on(a) {
            return Err(ExecutionError::WriteNotAllowed);
        }
        let mut current = match self.speculative_ledger.get_data_entry(a, &key) {
            Some(v) => v,
            None => {
                return Err(ExecutionError::Ledger(LedgerError::MissingDataEntry));
            },
        };
        proof {
            if !eff_exists(self.speculative_ledger.final_ledger, self.speculative_ledger.added_changes, *a) {
                assert(eff_data(self.speculative_ledger.final_ledger, self.speculative_ledger.added_changes, *a, key) is None) by {
                    match crate::key_map::lookup(self.speculative_ledger.added_changes@, *a) {
                        Some(crate::types::SetUpdateOrDelete::Delete) => {},
                        None => {},
                        _ => {},
                    }
                }
            }
        }
        push_all(&mut current, data.as_slice());
        match self.speculative_ledger.set_data_entry(a, key, current) {
            Ok(()) => Ok(()),
            Err(e) => Err(ExecutionError::Ledger(e)),
        }
    }

    /// Drops the value under `key` from the datastore of `a`. Fails, changing
    /// nothing, when the current call may not write to `a`, `a` has no entry or
    /// no value there.
    pub fn delete_data_entry(&mut self, a: &Address, key: &Digest) -> (r: Result<(), ExecutionError>)
        ensures
            !write_allowed(*old(self), *a) ==> r == Err::<(), ExecutionError>(ExecutionError::WriteNotAllowed) && *final(self) == *old(self),
            write_allowed(*old(self), *a) && !eff_exists(old(self).speculative_ledger.final_ledger, old(self).speculative_ledger.added_changes, *a)
                ==> r == Err::<(), ExecutionError>(ExecutionError::Ledger(LedgerError::MissingAddress)) && *final(self) == *old(self),
            write_allowed(*old(self), *a) && eff_exists(old(self).speculative_ledger.final_ledger, old(self).speculative_ledger.added_changes, *a)
                && eff_data(old(self).speculative_ledger.final_ledger, old(self).speculative_ledger.added_changes, *a, *key) is None
                ==> r == Err::<(), ExecutionError>(ExecutionError::Ledger(LedgerError::MissingDataEntry)) && *final(self) == *old(self),
            write_allowed(*old(self), *a) && eff_data(old(self).speculative_ledger.final_ledger, old(self).speculative_ledger.added_changes, *a, *key) is Some
                && eff_exists(old(self).speculative_ledger.final_ledger, old(self).speculative_ledger.added_changes, *a)
                ==> r is Ok && ledger_alone_changed(*old(self), *final(self)) && data_written(
                old(self).speculative_ledger,
                final(self).speculative_ledger,
                *a,
                *key,
                None,
            ),
    {
        if !self.has_write_rights_on(a) {
            return Err(ExecutionError::WriteNotAllowed);
        }
        match self.speculative_ledger.delete_data_entry(a, key) {
            Ok(()) => Ok(()),
            Err(e) => Err(ExecutionError::Ledger(e)),
        }
    }

    /// Gives `a` the bytecode `bytecode`. Fails, changing nothing, when the
    /// current call may not write to `a` or `a` has no entry.
    pub fn set_bytecode(&mut self, a: &Address, bytecode: Vec<u8>) -> (r: Result<(), ExecutionError>)
        ensures
            !write_allowed(*old(self), *a) ==> r == Err::<(), ExecutionError>(ExecutionError::WriteNotAllowed) && *final(self) == *old(self),
            write_allowed(*old(self), *a) && !eff_exists(old(self).speculative_ledger.final_ledger, old(self).speculative_ledger.added_changes, *a)
                ==> r == Err::<(), ExecutionError>(ExecutionError::Ledger(LedgerError::MissingAddress)) && *final(self) == *old(self),
            write_allowed(*old(self), *a) && eff_exists(old(self).speculative_ledger.final_ledger, old(self).speculative_ledger.added_changes, *a)
                ==> r is Ok && ledger_alone_changed(*old(self), *final(self)) && bytecode_written(
                old(self).speculative_ledger,
                final(self).speculative_ledger,
                *a,
                bytecode@,
            ),
    {
        if !self.has_write_rights_on(a) {
            return Err(ExecutionError::WriteNotAllowed);
        }
        match self.speculative_ledger.set_bytecode(a, bytecode) {
            Ok(()) => Ok(()),
            Err(e) => Err(ExecutionError::Ledger(e)),
        }
    }

    /// Moves `amount` coins from `from` (none: coins are created) to `to`
    /// (none: coins are destroyed). Fails, changing nothing, when the current
    /// call may not spend from `from`, or as the speculative ledger's transfer
    /// fails.
    pub fn transfer_parallel_coins(&mut self, from: Option<Address>, to: Option<Address>, amount: Amount) -> (r: Result<(), ExecutionError>)
        ensures
            from is Some && !write_allowed(*old(self), from.unwrap()) ==> r == Err::<(), ExecutionError>(
                ExecutionError::WriteNotAllowed,
            ) && *final(self) == *old(self),
            from is None || write_allowed(*old(self), from.unwrap()) ==> match transfer_result(
                old(self).speculative_ledger.final_ledger,
                old(self).speculative_ledger.added_changes,
                from,
                to,
                amount,
            ) {
                Err(e) => r == Err::<(), ExecutionError>(ExecutionError::Ledger(e)) && *final(self) == *old(self),
                Ok((new_from, new_to)) => r is Ok && ledger_alone_changed(*old(self), *final(self)) && coins_transferred(
                    old(self).speculative_ledger,
                    final(self).speculative_ledger,
                    from,
                    to,
                    new_from,
                    new_to,
                ),
            },
    {
        match from {
            Some(fa) => {
                if !self.has_write_rights_on(&fa) {
                    return Err(ExecutionError::WriteNotAllowed);
                }
            },
            None => {},
        }
        match self.speculative_ledger.transfer_parallel_coins(from, to, amount) {
            Ok(()) => Ok(()),
            Err(e) => Err(ExecutionError::Ledger(e)),
        }
    }

    /// Creates a smart-contract address holding `bytecode`: the digest of the
    /// slot's key, the creation index and the mode. The current call then
    /// owns it, and the creation index moves on. Fails, changing nothing, when
    /// the call stack is empty or the address already has an entry.
    pub fn create_new_sc_address(&mut self, bytecode: Vec<u8>) -> (r: Result<Address, ExecutionError>)
        requires
            old(self).created_addr_index < u64::MAX,
        ensures
            old(self).stack@.len() == 0 ==> r == Err::<Address, ExecutionError>(ExecutionError::EmptyCallStack)
                && *final(self) == *old(self),
            old(self).stack@.len() > 0 && sc_address_taken(*old(self)) ==> r == Err::<Address, ExecutionError>(
                ExecutionError::Ledger(LedgerError::AddressExists),
            ) && *final(self) == *old(self),
            old(self).stack@.len() > 0 && !sc_address_taken(*old(self)) ==> (r matches Ok(addr) && sc_address_created(
                *old(self),
                *final(self),
                addr,
                bytecode@,
            )),
    {
        let n = self.stack.len();
        if n == 0 {
            return Err(ExecutionError::EmptyCallStack);
        }
        let address = derive_sc_address(self.slot, self.created_addr_index, self.read_only);
        proof {
            if sc_address_taken(*self) {
                assert(eff_exists(self.speculative_ledger.final_ledger, self.speculative_ledger.added_changes, address));
            } else {
                assert forall|d: Digest| d.0@ == address.0@ implies d == address by {
                    crate::hash::lemma_hash_eq(d, address);
                }
            }
        }
        match self.speculative_ledger.create_new_sc_address(address, bytecode) {
            Ok(()) => {},
            Err(e) => {
                return Err(ExecutionError::Ledger(e));
            },
        }
        let ghost s0 = self.stack@;
        let mut top = self.stack.pop().unwrap();
        top.owned_addresses.push(address);
        self.stack.push(top);
        assert(self.stack@.drop_last() =~= s0.drop_last());
        self.created_addr_index = self.created_addr_index + 1;
        Ok(address)
    }

    /// Emits an event carrying `data`, stamped with the slot, block, call
    /// stack, mode, event index and originating operation; the event index
    /// moves on.
    pub fn generate_event(&mut self, data: String) -> (r: Result<(), ExecutionError>)
        requires
            old(self).created_event_index < u64::MAX,
        ensures
            r is Ok,
            events_view(final(self).events@) == events_view(old(self).events@).push(
                (
                    old(self).slot,
                    old(self).opt_block_id,
                    old(self).stack@.map_values(|e: ExecutionStackElement| e.address),
                    old(self).read_only,
                    old(self).created_event_index,
                    old(self).origin_operation_id,
                    data@,
                ),
            ),
            final(self).created_event_index == old(self).created_event_index + 1,
            final(self).speculative_ledger == old(self).speculative_ledger,
            final(self).speculative_async_pool == old(self).speculative_async_pool,
            final(self).stack == old(self).stack,
            final(self).created_addr_index == old(self).created_addr_index,
            final(self).created_message_index == old(self).created_message_index,
            final(self).unsafe_rng == old(self).unsafe_rng,
            fixed_parts_equal(*old(self), *final(self)),
    {
        let context = EventExecutionContext {
            slot: self.slot,
            block: self.opt_block_id,
            call_stack: self.get_call_stack(),
            read_only: self.read_only,
            index_in_slot: self.created_event_index,
            origin_operation_id: self.origin_operation_id,
        };
        let event = SCOutputEvent { context, data };
        self.created_event_index = self.created_event_index + 1;
        let ghost before = self.events@;
        self.events.push(event);
        assert(events_view(self.events@) =~= events_view(before).push(
            (
                self.slot,
                self.opt_block_id,
                self.stack@.map_values(|e: ExecutionStackElement| e.address),
                self.read_only,
                (self.created_event_index - 1) as u64,
                self.origin_operation_id,
                event.data@,
            ),
        ));
        Ok(())
    }

    /// Adds the asynchronous message `msg` to those emitted.
    pub fn push_new_message(&mut self, msg: AsyncMessage)
        ensures
            final(self).speculative_async_pool.emitted_seq() == old(self).speculative_async_pool.emitted_seq().push(msg),
            final(self).speculative_async_pool.messages_seq() == old(self).speculative_async_pool.messages_seq(),
            final(self).speculative_async_pool.capacity() == old(self).speculative_async_pool.capacity(),
            final(self).speculative_ledger == old(self).speculative_ledger,
            final(self).stack == old(self).stack,
            final(self).events == old(self).events,
            fixed_parts_equal(*old(self), *final(self)),
            final(self).slot == old(self).slot,
            final(self).opt_block_id == old(self).opt_block_id,
            final(self).created_addr_index == old(self).created_addr_index,
            final(self).created_event_index == old(self).created_event_index,
            final(self).created_message_index == old(self).created_message_index,
            final(self).unsafe_rng == old(self).unsafe_rng,
    {
        self.speculative_async_pool.push_new_message(msg);
    }

    /// Gives the coins of the message `msg` back to its sender. When that
    /// fails, nothing changes and the coins are lost.
    pub fn cancel_async_message(&mut self, msg: &AsyncMessage)
        ensures
            match transfer_result(
                old(self).speculative_ledger.final_ledger,
                old(self).speculative_ledger.added_changes,
                None,
                Some(msg.sender),
                msg.coins,
            ) {
                Err(_) => *final(self) == *old(self),
                Ok((new_from, new_to)) => ledger_alone_changed(*old(self), *final(self)) && coins_transferred(
                    old(self).speculative_ledger,
                    final(self).speculative_ledger,
                    None,
                    Some(msg.sender),
                    new_from,
                    new_to,
                ),
            },
    {
        let _ = self.transfer_parallel_coins(None, Some(msg.sender), msg.coins);
    }

    /// Takes out of the pool the messages to run now within `max_gas`, in
    /// pool order (see `batch`), each with the bytecode of its destination if
    /// that has an entry.
    pub fn take_async_batch(&mut self, max_gas: u64) -> (r: Vec<(Option<Vec<u8>>, AsyncMessage)>)
        ensures
            r@.len() == batch(old(self).speculative_async_pool.messages_seq(), old(self).slot, max_gas as nat).0.len(),
            forall|i: int| 0 <= i < r@.len() ==> (#[trigger] r@[i]).1 == batch(
                old(self).speculative_async_pool.messages_seq(),
                old(self).slot,
                max_gas as nat,
            ).0[i],
            forall|i: int| 0 <= i < r@.len() ==> ((#[trigger] r@[i]).0 is Some == eff_bytecode(
                old(self).speculative_ledger.final_ledger,
                old(self).speculative_ledger.added_changes,
                r@[i].1.destination,
            ) is Some),
            forall|i: int| 0 <= i < r@.len() ==> ((#[trigger] r@[i]).0 matches Some(v) ==> eff_bytecode(
                old(self).speculative_ledger.final_ledger,
                old(self).speculative_ledger.added_changes,
                r@[i].1.destination,
            ) == Some(v@)),
            final(self).speculative_async_pool.messages_seq() == batch(old(self).speculative_async_pool.messages_seq(), old(self).slot, max_gas as nat).1,
            forall|i: int, j: int| 0 <= i < j < r@.len() ==> id_le(
                msg_id(#[trigger] r@[i].1),
                msg_id(#[trigger] r@[j].1),
            ),
            final(self).speculative_async_pool.emitted_seq() == old(self).speculative_async_pool.emitted_seq(),
            final(self).speculative_ledger == old(self).speculative_ledger,
            final(self).stack == old(self).stack,
            final(self).events == old(self).events,
    {
        self.speculative_async_pool.is_ordered();
        let ghost pool0 = self.speculative_async_pool.messages_seq();
        let mut msgs = self.speculative_async_pool.take_batch_to_execute(self.slot, max_gas);
        let ghost all = msgs@;
        let total = msgs.len();
        let mut r: Vec<(Option<Vec<u8>>, AsyncMessage)> = Vec::new();
        let mut i: usize = 0;
        while msgs.len() > 0
            invariant
                total == all.len(),
                i <= total,
                msgs@ == all.subrange(i as int, total as int),
                r@.len() == i,
                forall|j: int| 0 <= j < i ==> (#[trigger] r@[j]).1 == all[j],
                forall|j: int| 0 <= j < i ==> ((#[trigger] r@[j]).0 is Some == eff_bytecode(
                    self.speculative_ledger.final_ledger,
                    self.speculative_ledger.added_changes,
                    r@[j].1.destination,
                ) is Some),
                forall|j: int| 0 <= j < i ==> ((#[trigger] r@[j]).0 matches Some(v) ==> eff_bytecode(
                    self.speculative_ledger.final_ledger,
                    self.speculative_ledger.added_changes,
                    r@[j].1.destination,
                ) == Some(v@)),
            decreases msgs@.len(),
        {
            let m = msgs.remove(0);
            assert(m == all[i as int]);
            let code = self.get_bytecode(&m.destination);
            r.push((code, m));
            i += 1;
        }
        proof {
            assert forall|a: int, b: int| 0 <= a < b < r@.len() implies id_le(msg_id(#[trigger] r@[a].1), msg_id(#[trigger] r@[b].1)) by {
                assert(r@[a].1 == all[a] && r@[b].1 == all[b]);
            }
        }
        r
    }

    /// Ends the slot: settles the pool (emitted messages join it, then the
    /// expired messages and the lowest-priority ones beyond its capacity
    /// leave it), gives the coins of each message that left back to its
    /// sender (a refund that fails is skipped and the coins are lost), and
    /// hands out the slot, block, accumulated ledger changes, emitted
    /// messages, events and the messages that left. The block and events are
    /// cleared; the ledger changes carry forward.
    pub fn settle_slot(&mut self) -> (r: ExecutionOutput)
        ensures
            r.slot == old(self).slot,
            r.block_id == old(self).opt_block_id,
            r.events == old(self).events,
            (final(self).opt_block_id is None),
            final(self).events@.len() == 0,
            final(self).slot == old(self).slot,
            final(self).speculative_ledger.final_ledger == old(self).speculative_ledger.final_ledger,
            same_effect(r.state_changes.ledger_changes, final(self).speculative_ledger.added_changes),
            forall|b: Address| #[trigger] reads_refunded(
                old(self).speculative_ledger.final_ledger,
                old(self).speculative_ledger.added_changes,
                r.evicted_messages@,
                r.state_changes.ledger_changes,
                b,
            ),
            r.state_changes.async_pool_changes@.len() == old(self).speculative_async_pool.emitted_seq().len(),
            forall|i: int| 0 <= i < r.state_changes.async_pool_changes@.len() ==> message_copy(
                #[trigger] r.state_changes.async_pool_changes@[i],
                old(self).speculative_async_pool.emitted_seq()[i],
            ),
            ids_ordered(final(self).speculative_async_pool.messages_seq()),
            final(self).speculative_async_pool.emitted_seq().len() == 0,
            final(self).speculative_async_pool.capacity() == old(self).speculative_async_pool.capacity(),
            final(self).speculative_async_pool.messages_seq().len() <= old(self).speculative_async_pool.capacity(),
            forall|i: int| 0 <= i < final(self).speculative_async_pool.messages_seq().len() ==> !expired_at(
                #[trigger] final(self).speculative_async_pool.messages_seq()[i],
                old(self).slot,
            ),
            (final(self).speculative_async_pool.messages_seq() + r.evicted_messages@).to_multiset() == (
            old(self).speculative_async_pool.messages_seq() + old(self).speculative_async_pool.emitted_seq()).to_multiset(),
            forall|i: int| 0 <= i < r.evicted_messages@.len() ==> expired_at(#[trigger] r.evicted_messages@[i], old(self).slot) || (
            final(self).speculative_async_pool.messages_seq().len() == old(self).speculative_async_pool.capacity() && forall|j: int|
                0 <= j < final(self).speculative_async_pool.messages_seq().len() ==> id_le(
                msg_id(#[trigger] final(self).speculative_async_pool.messages_seq()[j]),
                msg_id(r.evicted_messages@[i]),
            )),
    {
        let emitted = self.speculative_async_pool.get_snapshot();
        let ghost c0 = self.speculative_ledger.added_changes;
        let ghost f0 = self.speculative_ledger.final_ledger;
        let ghost slot0 = self.slot;
        let ghost block0 = self.opt_block_id;
        let ghost events0 = self.events;
        let mut deleted = self.speculative_async_pool.settle_slot(self.slot);
        let ghost all_deleted = deleted@;
        let ghost pool1 = self.speculative_async_pool;
        let total = deleted.len();
        let mut evicted: Vec<AsyncMessage> = Vec::new();
        let mut i: usize = 0;
        proof {
            assert(all_deleted.take(0) =~= Seq::<AsyncMessage>::empty());
            assert forall|b: Address| #[trigger] reads_refunded(f0, c0, all_deleted.take(0), c0, b) by {
                assert(eff_exists(f0, c0, b) == (eff_balance(f0, c0, b) is Some));
            }
        }
        while deleted.len() > 0
            invariant
                total == all_deleted.len(),
                i <= total,
                deleted@ == all_deleted.subrange(i as int, total as int),
                evicted@ == all_deleted.take(i as int),
                self.speculative_ledger.final_ledger == f0,
                self.slot == slot0,
                self.opt_block_id == block0,
                self.events == events0,
                self.speculative_async_pool == pool1,
                forall|b: Address| #[trigger] reads_refunded(f0, c0, all_deleted.take(i as int), self.speculative_ledger.added_changes, b),
            decreases deleted@.len(),
        {
            let m = deleted.remove(0);
            assert(m == all_deleted[i as int]);
            let ghost c1 = self.speculative_ledger.added_changes;
            let ghost done = all_deleted.take(i as int);
            let ghost next = all_deleted.take(i + 1);
            assert(next.drop_last() =~= done);
            assert(next.last() == m);
            self.cancel_async_message(&m);
            proof {
                let c2 = self.speculative_ledger.added_changes;
                assert(reads_refunded(f0, c0, done, c1, m.sender));
                assert forall|b: Address| #[trigger] reads_refunded(f0, c0, next, c2, b) by {
                    assert(reads_refunded(f0, c0, done, c1, b));
                    assert(eff_exists(f0, c1, b) == (eff_balance(f0, c1, b) is Some));
                    if b != m.sender {
                        assert(crate::speculative_ledger::reads_same(f0, c1, c2, b));
                        assert forall|k: Digest| #[trigger] eff_data(f0, c2, b, k) == refunded_data(f0, c0, next, b, k) by {
                            assert(eff_data(f0, c1, b, k) == refunded_data(f0, c0, done, b, k));
                        }
                    } else {
                        lemma_refunded_keeps_entry(f0, c0, done, b);
                        assert(eff_exists(f0, c0, b) == (eff_balance(f0, c0, b) is Some));
                        let base = balance_or_zero(refunded_balance(f0, c0, done, b));
                        if base + m.coins.0 <= u64::MAX {
                            assert(refunded_balance(f0, c0, next, b) == Some(Amount((base + m.coins.0) as u64)));
                            assert(eff_exists(f0, c2, b));
                            if eff_exists(f0, c1, b) {
                                assert(eff_bytecode(f0, c2, b) == eff_bytecode(f0, c1, b));
                            } else {
                                assert(eff_bytecode(f0, c2, b) == Some(Seq::<u8>::empty()));
                            }
                            assert forall|k: Digest| #[trigger] eff_data(f0, c2, b, k) == refunded_data(f0, c0, next, b, k) by {
                                assert(eff_data(f0, c1, b, k) == refunded_data(f0, c0, done, b, k));
                                if !eff_exists(f0, c1, b) {
                                    assert(eff_data(f0, c2, b, k) is None);
                                }
                            }
                        } else {
                            assert(refunded_balance(f0, c0, next, b) == refunded_balance(f0, c0, done, b));
                            assert(c2 == c1);
                            assert forall|k: Digest| #[trigger] eff_data(f0, c2, b, k) == refunded_data(f0, c0, next, b, k) by {
                                assert(eff_data(f0, c1, b, k) == refunded_data(f0, c0, done, b, k));
                            }
                        }
                    }
                }
            }
            evicted.push(m);
            assert(evicted@ =~= next);
            i += 1;
        }
        assert(all_deleted.take(total as int) =~= all_deleted);
        let ledger_changes = self.speculative_ledger.get_snapshot();
        proof {
            let c_end = self.speculative_ledger.added_changes;
            assert forall|b: Address| #[trigger] reads_refunded(f0, c0, all_deleted, ledger_changes, b) by {
                assert(crate::speculative_ledger::reads_same(f0, ledger_changes, c_end, b));
                assert(reads_refunded(f0, c0, all_deleted, c_end, b));
                assert forall|k: Digest| #[trigger] eff_data(f0, ledger_changes, b, k) == refunded_data(f0, c0, all_deleted, b, k) by {
                    assert(eff_data(f0, c_end, b, k) == refunded_data(f0, c0, all_deleted, b, k));
                }
            }
        }
        let mut block_id: Option<BlockId> = None;
        std::mem::swap(&mut block_id, &mut self.opt_block_id);
        let mut events: Vec<SCOutputEvent> = Vec::new();
        std::mem::swap(&mut events, &mut self.events);
        ExecutionOutput {
            slot: self.slot,
            block_id,
            state_changes: StateChanges { ledger_changes, async_pool_changes: emitted },
            events,
            evicted_messages: evicted,
        }
    }
}

} // verus!
