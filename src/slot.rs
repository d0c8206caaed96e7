//! Slots: a period and one of the parallel threads.

use vstd::prelude::*;

verus! {

/// Number of bytes of a slot's key.
pub const SLOT_KEY_SIZE: usize = 9;

/// A time slot: a period and a thread within it, ordered by period, then thread.
#[derive(Clone, Copy, Debug, PartialEq, Eq, Structural, Hash)]
pub struct Slot {
    pub period: u64,
    pub thread: u8,
}

/// The `n` low bytes of `v`, most significant first.
pub open spec fn be_bytes(v: nat, n: nat) -> Seq<u8>
    decreases n,
{
    if n == 0 {
        Seq::empty()
    } else {
        be_bytes(v / 256, (n - 1) as nat).push((v % 256) as u8)
    }
}

/// The key of a slot: its period in eight big-endian bytes, then its thread.
pub open spec fn slot_key(s: Slot) -> Seq<u8> {
    be_bytes(s.period as nat, 8).push(s.thread)
}

/// Strict order of slots: by period, then by thread.
pub open spec fn slot_lt(a: Slot, b: Slot) -> bool {
    a.period < b.period || (a.period == b.period && a.thread < b.thread)
}

/// The eight big-endian bytes of `v`.
pub fn u64_to_be_bytes(v: u64) -> (r: [u8; 8])
    ensures
        r@ == be_bytes(v as nat, 8),
{
    let mut r: [u8; 8] = [0u8; 8];
    let mut x: u64 = v;
    let mut i: usize = 8;
    while i > 0
        invariant
            i <= 8,
            r@.len() == 8,
            be_bytes(v as nat, 8) == be_bytes(x as nat, i as nat) + r@.subrange(i as int, 8),
        decreases i,
    {
        let ghost before = r@;
        r[i - 1] = (x % 256) as u8;
        assert(be_bytes(x as nat, i as nat) == be_bytes((x / 256) as nat, (i - 1) as nat).push((x % 256) as u8));
        assert(r@.subrange(i - 1, 8) =~= seq![(x % 256) as u8] + before.subrange(i as int, 8));
        assert(be_bytes(x as nat, i as nat) + before.subrange(i as int, 8) =~= be_bytes((x / 256) as nat, (i - 1) as nat) + r@.subrange(i - 1, 8));
        x = x / 256;
        i -= 1;
    }
    assert(be_bytes(x as nat, 0) =~= Seq::<u8>::empty());
    assert(r@.subrange(0, 8) =~= r@);
    r
}

impl Slot {
    /// The slot at `thread` of `period`.
    pub fn new(period: u64, thread: u8) -> (r: Slot)
        ensures
            r.period == period,
            r.thread == thread,
    {
        Slot { period, thread }
    }

    /// The slot's key, used as seed material.
    pub fn to_bytes_key(&self) -> (r: [u8; 9])
        ensures
            r@ == slot_key(*self),
    {
        let p = u64_to_be_bytes(self.period);
        let mut r: [u8; 9] = [0u8; 9];
        let mut i: usize = 0;
        while i < 8
            invariant
                i <= 8,
                r@.len() == 9,
                p@.len() == 8,
                forall|j: int| 0 <= j < i ==> r@[j] == p@[j],
            decreases 8 - i,
        {
            r[i] = p[i];
            i += 1;
        }
        r[8] = self.thread;
        assert(r@ =~= p@.push(self.thread));
        r
    }

    /// Whether `self` comes strictly before `other`.
    pub fn lt(&self, other: &Slot) -> (r: bool)
        ensures
            r == slot_lt(*self, *other),
    {
        self.period < other.period || (self.period == other.period && self.thread < other.thread)
    }
}

} // verus!
