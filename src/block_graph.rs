//! The block graph's ingestion of candidate blocks: a block waits for its
//! slot and for its parents, then becomes active if it has one valid parent
//! per thread, or is discarded.

use vstd::prelude::*;
use crate::context::BlockId;
use crate::key_map::{KeyMap, lookup};
use crate::slot::{Slot, slot_lt};

verus! {

/// Why a block was discarded.
#[derive(Clone, Copy, Debug, PartialEq, Eq, Structural)]
pub enum DiscardReason {
    /// The block breaks a rule of its header or parents.
    Invalid,
    /// A block it depends on was discarded.
    Stale,
}

/// Where a block stands in the graph.
#[derive(Clone, Copy, Debug, PartialEq, Eq, Structural)]
pub enum BlockStatus {
    /// Its slot has not come yet.
    WaitingForSlot,
    /// One of its parents is unknown or not active yet.
    WaitingForDependencies,
    /// Valid, with active or final parents.
    Active,
    /// Final; its state changes are committed.
    Final,
    /// Discarded for good.
    Discarded(DiscardReason),
}

/// What the graph knows of a block.
#[derive(Clone, Debug, PartialEq, Eq)]
pub struct BlockInfo {
    pub slot: Slot,
    /// One parent per thread, thread 0 first.
    pub parents: Vec<BlockId>,
    pub status: BlockStatus,
}

/// Blocks by identifier.
pub type BlockGraph = KeyMap<BlockInfo>;

/// Whether the status is active or final.
pub open spec fn usable(s: BlockStatus) -> bool {
    s == BlockStatus::Active || s == BlockStatus::Final
}

/// Whether the status is a discard.
pub open spec fn discarded(s: BlockStatus) -> bool {
    s is Discarded
}

/// The parent of thread `t` is known and discarded.
pub open spec fn parent_discarded(g: BlockGraph, parents: Seq<BlockId>, t: int) -> bool {
    match lookup(g@, parents[t]) {
        Some(p) => discarded(p.status),
        None => false,
    }
}

/// The parent of thread `t` is known and active or final.
pub open spec fn parent_usable(g: BlockGraph, parents: Seq<BlockId>, t: int) -> bool {
    match lookup(g@, parents[t]) {
        Some(p) => usable(p.status),
        None => false,
    }
}

/// The parent of thread `t` is known, lies on thread `t` and comes strictly
/// before `slot`.
pub open spec fn parent_valid(g: BlockGraph, slot: Slot, parents: Seq<BlockId>, t: int) -> bool {
    match lookup(g@, parents[t]) {
        Some(p) => p.slot.thread == t && slot_lt(p.slot, slot),
        None => false,
    }
}

/// Status given to a new block at `slot` with `parents`, when the current
/// slot is `current` and there are `thread_count` threads.
pub open spec fn incoming_status(g: BlockGraph, slot: Slot, parents: Seq<BlockId>, current: Slot, thread_count: nat) -> BlockStatus {
    if parents.len() != thread_count || slot.thread >= thread_count {
        BlockStatus::Discarded(DiscardReason::Invalid)
    } else if slot_lt(current, slot) {
        BlockStatus::WaitingForSlot
    } else if exists|t: int| 0 <= t < parents.len() && #[trigger] parent_discarded(g, parents, t) {
        BlockStatus::Discarded(DiscardReason::Stale)
    } else if exists|t: int| 0 <= t < parents.len() && !#[trigger] parent_usable(g, parents, t) {
        BlockStatus::WaitingForDependencies
    } else if forall|t: int| 0 <= t < parents.len() ==> parent_valid(g, slot, parents, t) {
        BlockStatus::Active
    } else {
        BlockStatus::Discarded(DiscardReason::Invalid)
    }
}

/// The block `b`, if active, has one parent per thread, and the parent of
/// each thread `t` is known, lies on thread `t` and comes before it.
pub open spec fn block_parents_ok(g: BlockGraph, b: Option<BlockInfo>, thread_count: nat) -> bool {
    match b {
        Some(x) => x.status == BlockStatus::Active ==> {
            &&& x.parents@.len() == thread_count
            &&& forall|t: int| 0 <= t < thread_count ==> #[trigger] parent_valid(g, x.slot, x.parents@, t)
        },
        None => true,
    }
}

/// Every active block of the graph has, for each thread `t`, a known parent
/// on thread `t` at an earlier slot.
pub open spec fn active_parents_valid(g: BlockGraph, thread_count: nat) -> bool {
    forall|id: BlockId| #[trigger] block_parents_ok(g, lookup(g@, id), thread_count)
}

/// Adding or updating the block `id`, keeping its slot if it was known,
/// keeps the parents of the other active blocks valid.
proof fn lemma_parents_kept(g0: BlockGraph, g1: BlockGraph, id: BlockId, thread_count: nat)
    requires
        active_parents_valid(g0, thread_count),
        forall|x: BlockId| x != id ==> #[trigger] lookup(g1@, x) == lookup(g0@, x),
        lookup(g0@, id) matches Some(b0) ==> (lookup(g1@, id) matches Some(b1) && b1.slot == b0.slot),
        lookup(g1@, id) matches Some(b1) ==> (b1.status == BlockStatus::Active ==> {
            &&& b1.parents@.len() == thread_count
            &&& forall|t: int| 0 <= t < thread_count ==> #[trigger] parent_valid(g0, b1.slot, b1.parents@, t)
            &&& forall|t: int| 0 <= t < thread_count ==> b1.parents@[t] != id
        }),
    ensures
        active_parents_valid(g1, thread_count),
{
    assert forall|x: BlockId| #[trigger] block_parents_ok(g1, lookup(g1@, x), thread_count) by {
        if let Some(b) = lookup(g1@, x) {
            if b.status == BlockStatus::Active {
                if x != id {
                    assert(block_parents_ok(g0, lookup(g0@, x), thread_count));
                }
                assert forall|t: int| 0 <= t < thread_count implies #[trigger] parent_valid(g1, b.slot, b.parents@, t) by {
                    if x != id {
                        assert(parent_valid(g0, b.slot, b.parents@, t));
                        let p = b.parents@[t];
                        if p == id {
                            assert(lookup(g0@, id) is Some);
                        } else {
                            assert(lookup(g1@, p) == lookup(g0@, p));
                        }
                    } else {
                        assert(parent_valid(g0, b.slot, b.parents@, t));
                        assert(lookup(g1@, b.parents@[t]) == lookup(g0@, b.parents@[t]));
                    }
                }
            }
        }
    }
}

/// An empty graph.
pub fn new_block_graph() -> (r: BlockGraph)
    ensures
        r@.len() == 0,
        forall|thread_count: nat| active_parents_valid(r, thread_count),
{
    KeyMap::new()
}

/// Adds the genesis block `id` of `thread`, final from the start; a known
/// identifier is left as it is.
pub fn add_genesis(g: &mut BlockGraph, id: BlockId, thread: u8, thread_count: u8)
    requires
        active_parents_valid(*old(g), thread_count as nat),
    ensures
        active_parents_valid(*final(g), thread_count as nat),
        lookup(old(g)@, id) is None ==> (lookup(final(g)@, id) matches Some(b) && b.status == BlockStatus::Final
            && b.slot == (Slot { period: 0, thread })),
        lookup(old(g)@, id) is Some ==> *final(g) == *old(g),
        forall|x: BlockId| x != id ==> #[trigger] lookup(final(g)@, x) == lookup(old(g)@, x),
{
    if g.contains_key(&id) {
        return;
    }
    let ghost g0 = *g;
    g.insert(id, BlockInfo { slot: Slot::new(0, thread), parents: Vec::new(), status: BlockStatus::Final });
    proof {
        lemma_parents_kept(g0, *g, id, thread_count as nat);
    }
}

/// Takes in the block `id` at `slot` with `parents` and returns its status:
/// that of the graph if the block is known already, else the one that
/// `incoming_status` gives, with which it is added.
pub fn process_block(
    g: &mut BlockGraph,
    id: BlockId,
    slot: Slot,
    parents: Vec<BlockId>,
    current: Slot,
    thread_count: u8,
) -> (r: BlockStatus)
    requires
        active_parents_valid(*old(g), thread_count as nat),
    ensures
        active_parents_valid(*final(g), thread_count as nat),
        lookup(old(g)@, id) matches Some(b) ==> r == b.status && *final(g) == *old(g),
        lookup(old(g)@, id) is None ==> {
            &&& r == incoming_status(*old(g), slot, parents@, current, thread_count as nat)
            &&& (lookup(final(g)@, id) matches Some(b) && b.status == r && b.slot == slot && b.parents@ == parents@)
        },
        forall|x: BlockId| x != id ==> #[trigger] lookup(final(g)@, x) == lookup(old(g)@, x),
{
    match find_block(g, &id) {
        Some(b) => {
            return b.status;
        },
        None => {},
    }
    let status = classify_incoming(g, slot, &parents, current, thread_count);
    let ghost g0 = *g;
    let ghost ps = parents@;
    g.insert(id, BlockInfo { slot, parents, status });
    proof {
        if status == BlockStatus::Active {
            assert forall|t: int| 0 <= t < thread_count implies ps[t] != id by {
                assert(parent_valid(g0, slot, ps, t));
            }
        }
        lemma_parents_kept(g0, *g, id, thread_count as nat);
    }
    status
}

/// Classifies again the waiting block `id` now that the current slot is
/// `current`, and records its new status; other blocks, and blocks that do
/// not wait, are left as they are. Returns the block's status.
pub fn recheck_block(g: &mut BlockGraph, id: BlockId, current: Slot, thread_count: u8) -> (r: Option<BlockStatus>)
    requires
        active_parents_valid(*old(g), thread_count as nat),
    ensures
        active_parents_valid(*final(g), thread_count as nat),
        lookup(old(g)@, id) is None ==> r is None && *final(g) == *old(g),
        lookup(old(g)@, id) matches Some(b) ==> {
            &&& r is Some
            &&& (b.status == BlockStatus::WaitingForSlot || b.status == BlockStatus::WaitingForDependencies) ==> {
                &&& r == Some(incoming_status(*old(g), b.slot, b.parents@, current, thread_count as nat))
                &&& (lookup(final(g)@, id) matches Some(b1) && b1.status == r.unwrap() && b1.slot == b.slot && b1.parents@ == b.parents@)
            }
            &&& !(b.status == BlockStatus::WaitingForSlot || b.status == BlockStatus::WaitingForDependencies) ==> r == Some(b.status)
                && *final(g) == *old(g)
        },
        forall|x: BlockId| x != id ==> #[trigger] lookup(final(g)@, x) == lookup(old(g)@, x),
{
    let (slot, parents) = match find_block(g, &id) {
        None => {
            return None;
        },
        Some(b) => {
            match b.status {
                BlockStatus::WaitingForSlot => {},
                BlockStatus::WaitingForDependencies => {},
                _ => {
                    return Some(b.status);
                },
            }
            (b.slot, vstd::slice::slice_to_vec(b.parents.as_slice()))
        },
    };
    let status = classify_incoming(g, slot, &parents, current, thread_count);
    let ghost g0 = *g;
    let ghost ps = parents@;
    g.insert(id, BlockInfo { slot, parents, status });
    proof {
        if status == BlockStatus::Active {
            assert forall|t: int| 0 <= t < thread_count implies ps[t] != id by {
                assert(parent_valid(g0, slot, ps, t));
                assert(parent_usable(g0, ps, t));
            }
        }
        lemma_parents_kept(g0, *g, id, thread_count as nat);
    }
    Some(status)
}

/// A block of the graph, by identifier.
fn find_block<'a>(g: &'a BlockGraph, id: &BlockId) -> (r: Option<&'a BlockInfo>)
    ensures
        r is Some == lookup(g@, *id) is Some,
        r matches Some(b) ==> lookup(g@, *id) == Some(*b),
{
    g.get(id)
}

/// The status that a new block at `slot` with `parents` gets.
pub fn classify_incoming(g: &BlockGraph, slot: Slot, parents: &Vec<BlockId>, current: Slot, thread_count: u8) -> (r: BlockStatus)
    ensures
        r == incoming_status(*g, slot, parents@, current, thread_count as nat),
{
    let n = parents.len();
    if n != thread_count as usize || slot.thread >= thread_count {
        return BlockStatus::Discarded(DiscardReason::Invalid);
    }
    if current.lt(&slot) {
        return BlockStatus::WaitingForSlot;
    }
    let mut t: usize = 0;
    while t < n
        invariant
            n == parents@.len(),
            n == thread_count,
            slot.thread < thread_count,
            !slot_lt(current, slot),
            t <= n,
            forall|j: int| 0 <= j < t ==> !#[trigger] parent_discarded(*g, parents@, j),
        decreases n - t,
    {
        match find_block(g, &parents[t]) {
            Some(p) => {
                if let BlockStatus::Discarded(_) = p.status {
                    assert(parent_discarded(*g, parents@, t as int));
                    return BlockStatus::Discarded(DiscardReason::Stale);
                }
            },
            None => {},
        }
        t += 1;
    }
    let mut t: usize = 0;
    while t < n
        invariant
            n == parents@.len(),
            n == thread_count,
            slot.thread < thread_count,
            !slot_lt(current, slot),
            t <= n,
            forall|j: int| 0 <= j < n ==> !#[trigger] parent_discarded(*g, parents@, j),
            forall|j: int| 0 <= j < t ==> #[trigger] parent_usable(*g, parents@, j),
        decreases n - t,
    {
        match find_block(g, &parents[t]) {
            Some(p) => {
                match p.status {
                    BlockStatus::Active => {},
                    BlockStatus::Final => {},
                    _ => {
                        assert(!parent_usable(*g, parents@, t as int));
                        return BlockStatus::WaitingForDependencies;
                    },
                }
            },
            None => {
                assert(!parent_usable(*g, parents@, t as int));
                return BlockStatus::WaitingForDependencies;
            },
        }
        t += 1;
    }
    let mut t: usize = 0;
    while t < n
        invariant
            n == parents@.len(),
            n == thread_count,
            slot.thread < thread_count,
            !slot_lt(current, slot),
            t <= n,
            forall|j: int| 0 <= j < n ==> !#[trigger] parent_discarded(*g, parents@, j),
            forall|j: int| 0 <= j < n ==> #[trigger] parent_usable(*g, parents@, j),
            forall|j: int| 0 <= j < t ==> #[trigger] parent_valid(*g, slot, parents@, j),
        decreases n - t,
    {
        match find_block(g, &parents[t]) {
            Some(p) => {
                if p.slot.thread as usize != t || !p.slot.lt(&slot) {
                    assert(!parent_valid(*g, slot, parents@, t as int));
                    return BlockStatus::Discarded(DiscardReason::Invalid);
                }
            },
            None => {
                assert(!parent_valid(*g, slot, parents@, t as int));
                return BlockStatus::Discarded(DiscardReason::Invalid);
            },
        }
        t += 1;
    }
    BlockStatus::Active
}

} // verus!
