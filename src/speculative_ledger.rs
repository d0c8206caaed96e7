//! A ledger as seen through changes that are not final yet: reads go to the
//! changes first, then to the final ledger, which is never written.

use vstd::prelude::*;
use crate::amount::Amount;
use crate::hash::Digest;
use crate::key_map::{KeyMap, lookup};
use crate::ledger_changes::{LedgerChanges, LedgerEntryChange, LedgerEntryUpdate, data_after};
use crate::ledger_entry::{LedgerEntry, lookup_bytes, copy_bytes};
use crate::types::{SetOrDelete, SetOrKeep, SetUpdateOrDelete, set_or_keep_result};

verus! {

/// An address: the digest that identifies an account or a smart contract.
pub type Address = Digest;

/// The final ledger: entries by address.
pub type FinalLedger = KeyMap<LedgerEntry>;

/// Why a ledger operation failed. Nothing is changed when one fails.
#[derive(Clone, Copy, Debug, PartialEq, Eq, Structural)]
pub enum LedgerError {
    /// The address has no entry.
    MissingAddress,
    /// The address already has an entry.
    AddressExists,
    /// The datastore entry does not exist.
    MissingDataEntry,
    /// The balance is lower than the amount spent.
    InsufficientBalance,
    /// The balance would exceed the largest amount.
    BalanceOverflow,
}

/// Balance of the final entry of `a`, or zero.
pub open spec fn base_balance(f: FinalLedger, a: Address) -> Amount {
    match lookup(f@, a) {
        Some(e) => e.parallel_balance,
        None => Amount(0),
    }
}

/// Bytecode of the final entry of `a`, or none.
pub open spec fn base_bytecode(f: FinalLedger, a: Address) -> Seq<u8> {
    match lookup(f@, a) {
        Some(e) => e.bytecode@,
        None => Seq::empty(),
    }
}

/// Datastore value under `k` of the final entry of `a`.
pub open spec fn base_data(f: FinalLedger, a: Address, k: Digest) -> Option<Seq<u8>> {
    match lookup(f@, a) {
        Some(e) => lookup_bytes(e.datastore, k),
        None => None,
    }
}

/// Whether `a` has an entry once the changes `c` are applied to `f`.
pub open spec fn eff_exists(f: FinalLedger, c: LedgerChanges, a: Address) -> bool {
    match lookup(c@, a) {
        Some(SetUpdateOrDelete::Assign(_)) => true,
        Some(SetUpdateOrDelete::Update(_)) => true,
        Some(SetUpdateOrDelete::Delete) => false,
        None => lookup(f@, a) is Some,
    }
}

/// The balance of `a` once the changes `c` are applied to `f`.
pub open spec fn eff_balance(f: FinalLedger, c: LedgerChanges, a: Address) -> Option<Amount> {
    match lookup(c@, a) {
        Some(SetUpdateOrDelete::Assign(e)) => Some(e.parallel_balance),
        Some(SetUpdateOrDelete::Update(u)) => Some(set_or_keep_result(u.parallel_balance, base_balance(f, a))),
        Some(SetUpdateOrDelete::Delete) => None,
        None => if lookup(f@, a) is Some { Some(base_balance(f, a)) } else { None },
    }
}

/// The bytecode of `a` once the changes `c` are applied to `f`.
pub open spec fn eff_bytecode(f: FinalLedger, c: LedgerChanges, a: Address) -> Option<Seq<u8>> {
    match lookup(c@, a) {
        Some(SetUpdateOrDelete::Assign(e)) => Some(e.bytecode@),
        Some(SetUpdateOrDelete::Update(u)) => Some(match u.bytecode {
            SetOrKeep::Assign(v) => v@,
            SetOrKeep::Keep => base_bytecode(f, a),
        }),
        Some(SetUpdateOrDelete::Delete) => None,
        None => if lookup(f@, a) is Some { Some(base_bytecode(f, a)) } else { None },
    }
}

/// The datastore value of `a` under `k` once the changes `c` are applied to `f`.
pub open spec fn eff_data(f: FinalLedger, c: LedgerChanges, a: Address, k: Digest) -> Option<Seq<u8>> {
    match lookup(c@, a) {
        Some(SetUpdateOrDelete::Assign(e)) => lookup_bytes(e.datastore, k),
        Some(SetUpdateOrDelete::Update(u)) => data_after(u.datastore, base_data(f, a, k), k),
        Some(SetUpdateOrDelete::Delete) => None,
        None => base_data(f, a, k),
    }
}

/// The changes `c1` and `c2` give every address the same entry, atop any
/// final ledger.
pub open spec fn same_effect(c1: LedgerChanges, c2: LedgerChanges) -> bool {
    forall|f: FinalLedger, a: Address| #[trigger] reads_same(f, c1, c2, a)
}

/// Address `b` reads the same through `c1` and `c2` atop `f`.
pub open spec fn reads_same(f: FinalLedger, c1: LedgerChanges, c2: LedgerChanges, b: Address) -> bool {
    &&& eff_exists(f, c1, b) == eff_exists(f, c2, b)
    &&& eff_balance(f, c1, b) == eff_balance(f, c2, b)
    &&& eff_bytecode(f, c1, b) == eff_bytecode(f, c2, b)
    &&& forall|k: Digest| #[trigger] eff_data(f, c1, b, k) == eff_data(f, c2, b, k)
}

/// New balances of the spender and of the receiver of a transfer of `amount`,
/// or why it fails.
pub open spec fn transfer_result(
    f: FinalLedger,
    c: LedgerChanges,
    from: Option<Address>,
    to: Option<Address>,
    amount: Amount,
) -> Result<(Option<u64>, Option<u64>), LedgerError> {
    let spent: Result<Option<u64>, LedgerError> = match from {
        None => Ok(None),
        Some(fa) => match eff_balance(f, c, fa) {
            None => Err(LedgerError::MissingAddress),
            Some(b) => if b.0 >= amount.0 {
                Ok(Some((b.0 - amount.0) as u64))
            } else {
                Err(LedgerError::InsufficientBalance)
            },
        },
    };
    match spent {
        Err(e) => Err(e),
        Ok(new_from) => match to {
            None => Ok((new_from, None)),
            Some(ta) => {
                let base: u64 = if from == Some(ta) {
                    new_from.unwrap()
                } else {
                    match eff_balance(f, c, ta) {
                        Some(b) => b.0,
                        None => 0,
                    }
                };
                if base + amount.0 <= u64::MAX {
                    Ok((new_from, Some((base + amount.0) as u64)))
                } else {
                    Err(LedgerError::BalanceOverflow)
                }
            },
        },
    }
}

/// The changes `c2` are `c1` with the entry of `a` alone changed: every other
/// address reads the same, atop any final ledger.
pub open spec fn others_unchanged(c1: LedgerChanges, c2: LedgerChanges, a: Address) -> bool {
    forall|f: FinalLedger, b: Address| b != a ==> #[trigger] reads_same(f, c1, c2, b)
}

/// The two changes give an address the same entry, atop any final entry.
pub open spec fn change_equiv(c1: Option<LedgerEntryChange>, c2: Option<LedgerEntryChange>) -> bool {
    match (c1, c2) {
        (Some(SetUpdateOrDelete::Assign(e1)), Some(SetUpdateOrDelete::Assign(e2))) => {
            &&& e1.parallel_balance == e2.parallel_balance
            &&& e1.bytecode@ == e2.bytecode@
            &&& forall|k: Digest| #[trigger] lookup_bytes(e1.datastore, k) == lookup_bytes(e2.datastore, k)
        },
        (Some(SetUpdateOrDelete::Update(u1)), Some(SetUpdateOrDelete::Update(u2))) => {
            &&& u1.parallel_balance == u2.parallel_balance
            &&& match (u1.bytecode, u2.bytecode) {
                (SetOrKeep::Assign(v1), SetOrKeep::Assign(v2)) => v1@ == v2@,
                (SetOrKeep::Keep, SetOrKeep::Keep) => true,
                _ => false,
            }
            &&& forall|base: Option<Seq<u8>>, k: Digest| #[trigger] data_after(u1.datastore, base, k) == data_after(u2.datastore, base, k)
        },
        (Some(SetUpdateOrDelete::Delete), Some(SetUpdateOrDelete::Delete)) => true,
        (None, None) => true,
        _ => false,
    }
}

/// A copy of the datastore changes `u`.
fn copy_data_changes(u: &KeyMap<SetOrDelete<Vec<u8>>>) -> (r: KeyMap<SetOrDelete<Vec<u8>>>)
    ensures
        forall|base: Option<Seq<u8>>, k: Digest| #[trigger] data_after(r, base, k) == data_after(*u, base, k),
{
    u.is_ascending();
    let mut r: KeyMap<SetOrDelete<Vec<u8>>> = KeyMap::new();
    let n = u.len();
    let mut i: usize = 0;
    while i < n
        invariant
            n == u@.len(),
            i <= n,
            crate::key_map::keys_ascending(u@),
            crate::key_map::keys_unique(u@),
            r@.len() == i,
            forall|j: int| 0 <= j < i ==> (#[trigger] r@[j]).0 == u@[j].0,
            forall|base: Option<Seq<u8>>, k: Digest| #[trigger] data_after(r, base, k) == (if exists|j: int| 0 <= j < i && u@[j].0 == k {
                data_after(*u, base, k)
            } else {
                base
            }),
        decreases n - i,
    {
        let entry = u.entry_at(i);
        let v = match &entry.1 {
            SetOrDelete::Assign(b) => SetOrDelete::Assign(copy_bytes(b)),
            SetOrDelete::Delete => SetOrDelete::Delete,
        };
        let ghost old_r = r;
        proof {
            crate::key_map::lemma_lookup_at(u@, i as int);
            assert forall|j: int| 0 <= j < old_r@.len() implies crate::hash::hash_lt(#[trigger] old_r@[j].0, entry.0) by {
                assert(old_r@[j].0 == u@[j].0);
            }
        }
        r.insert(entry.0, v);
        proof {
            assert(r@ == old_r@.push((entry.0, v)));
            assert forall|base: Option<Seq<u8>>, k: Digest| #[trigger] data_after(r, base, k) == (if exists|j: int| 0 <= j < i + 1 && u@[j].0 == k {
                data_after(*u, base, k)
            } else {
                base
            }) by {
                if k != entry.0 {
                    assert(data_after(r, base, k) == data_after(old_r, base, k));
                    if exists|j: int| 0 <= j < i + 1 && u@[j].0 == k {
                        let j = choose|j: int| 0 <= j < i + 1 && u@[j].0 == k;
                        assert(j < i);
                    }
                }
            }
        }
        i += 1;
    }
    proof {
        assert forall|base: Option<Seq<u8>>, k: Digest| #[trigger] data_after(r, base, k) == data_after(*u, base, k) by {
            if !(exists|j: int| 0 <= j < n && u@[j].0 == k) {
                crate::key_map::lemma_lookup_absent(u@, k);
            }
        }
    }
    r
}

/// A copy of the change `c`.
fn copy_change(c: &LedgerEntryChange) -> (r: LedgerEntryChange)
    ensures
        change_equiv(Some(r), Some(*c)),
{
    match c {
        SetUpdateOrDelete::Assign(e) => SetUpdateOrDelete::Assign(e.copy()),
        SetUpdateOrDelete::Update(u) => {
            let bytecode = match &u.bytecode {
                SetOrKeep::Assign(v) => SetOrKeep::Assign(copy_bytes(v)),
                SetOrKeep::Keep => SetOrKeep::Keep,
            };
            let parallel_balance = match &u.parallel_balance {
                SetOrKeep::Assign(b) => SetOrKeep::Assign(*b),
                SetOrKeep::Keep => SetOrKeep::Keep,
            };
            SetUpdateOrDelete::Update(
                LedgerEntryUpdate { parallel_balance, bytecode, datastore: copy_data_changes(&u.datastore) },
            )
        },
        SetUpdateOrDelete::Delete => SetUpdateOrDelete::Delete,
    }
}

/// A copy of the changes `c`.
pub fn copy_changes(c: &LedgerChanges) -> (r: LedgerChanges)
    ensures
        same_effect(r, *c),
{
    c.is_ascending();
    let mut r: LedgerChanges = KeyMap::new();
    let n = c.len();
    let mut i: usize = 0;
    while i < n
        invariant
            n == c@.len(),
            i <= n,
            crate::key_map::keys_ascending(c@),
            crate::key_map::keys_unique(c@),
            r@.len() == i,
            forall|j: int| 0 <= j < i ==> (#[trigger] r@[j]).0 == c@[j].0,
            forall|a: Address| change_equiv(#[trigger] lookup(r@, a), if exists|j: int| 0 <= j < i && c@[j].0 == a {
                lookup(c@, a)
            } else {
                None
            }),
        decreases n - i,
    {
        let entry = c.entry_at(i);
        let v = copy_change(&entry.1);
        let ghost old_r = r;
        proof {
            crate::key_map::lemma_lookup_at(c@, i as int);
            assert forall|j: int| 0 <= j < old_r@.len() implies crate::hash::hash_lt(#[trigger] old_r@[j].0, entry.0) by {
                assert(old_r@[j].0 == c@[j].0);
            }
        }
        r.insert(entry.0, v);
        proof {
            assert forall|a: Address| change_equiv(#[trigger] lookup(r@, a), if exists|j: int| 0 <= j < i + 1 && c@[j].0 == a {
                lookup(c@, a)
            } else {
                None
            }) by {
                if a != entry.0 {
                    assert(lookup(r@, a) == lookup(old_r@, a));
                    if exists|j: int| 0 <= j < i + 1 && c@[j].0 == a {
                        let j = choose|j: int| 0 <= j < i + 1 && c@[j].0 == a;
                        assert(j < i);
                    }
                }
            }
        }
        i += 1;
    }
    proof {
        assert forall|a: Address| #[trigger] change_equiv(lookup(r@, a), lookup(c@, a)) by {
            if !(exists|j: int| 0 <= j < n && c@[j].0 == a) {
                crate::key_map::lemma_lookup_absent(c@, a);
            }
        }
        assert forall|f: FinalLedger, a: Address| #[trigger] reads_same(f, r, *c, a) by {
            assert(change_equiv(lookup(r@, a), lookup(c@, a)));
        }
    }
    r
}

/// Records in `c` that `a` has the balance `bal`.
fn change_balance(c: &mut LedgerChanges, a: Address, bal: Amount)
    ensures
        forall|f: FinalLedger| #[trigger] eff_exists(f, *final(c), a),
        forall|f: FinalLedger| #[trigger] eff_balance(f, *final(c), a) == Some(bal),
        forall|f: FinalLedger| #[trigger] eff_exists(f, *old(c), a) ==> eff_bytecode(f, *final(c), a) == eff_bytecode(f, *old(c), a),
        forall|f: FinalLedger, k: Digest| eff_exists(f, *old(c), a) ==> #[trigger] eff_data(f, *final(c), a, k) == eff_data(f, *old(c), a, k),
        forall|f: FinalLedger| !eff_exists(f, *old(c), a) ==> #[trigger] eff_bytecode(f, *final(c), a) == Some(Seq::<u8>::empty()),
        forall|f: FinalLedger, k: Digest| !eff_exists(f, *old(c), a) ==> #[trigger] eff_data(f, *final(c), a, k) is None,
        others_unchanged(*old(c), *final(c), a),
{
    let change: LedgerEntryChange = match c.remove(&a) {
        Some(SetUpdateOrDelete::Assign(e)) => {
            let mut e = e;
            e.parallel_balance = bal;
            SetUpdateOrDelete::Assign(e)
        },
        Some(SetUpdateOrDelete::Update(u)) => {
            let mut u = u;
            u.parallel_balance = SetOrKeep::Assign(bal);
            SetUpdateOrDelete::Update(u)
        },
        Some(SetUpdateOrDelete::Delete) => {
            let mut e = LedgerEntry::new_empty();
            e.parallel_balance = bal;
            SetUpdateOrDelete::Assign(e)
        },
        None => SetUpdateOrDelete::Update(
            LedgerEntryUpdate {
                parallel_balance: SetOrKeep::Assign(bal),
                bytecode: SetOrKeep::Keep,
                datastore: KeyMap::new(),
            },
        ),
    };
    c.insert(a, change);
}

/// Records in `c` that `a` has the bytecode `code`.
fn change_bytecode(c: &mut LedgerChanges, a: Address, code: Vec<u8>)
    ensures
        forall|f: FinalLedger| #[trigger] eff_exists(f, *old(c), a) ==> {
            &&& eff_exists(f, *final(c), a)
            &&& eff_bytecode(f, *final(c), a) == Some(code@)
            &&& eff_balance(f, *final(c), a) == eff_balance(f, *old(c), a)
        },
        forall|f: FinalLedger, k: Digest| eff_exists(f, *old(c), a) ==> #[trigger] eff_data(f, *final(c), a, k) == eff_data(f, *old(c), a, k),
        others_unchanged(*old(c), *final(c), a),
{
    let change: LedgerEntryChange = match c.remove(&a) {
        Some(SetUpdateOrDelete::Assign(e)) => {
            let mut e = e;
            e.bytecode = code;
            SetUpdateOrDelete::Assign(e)
        },
        Some(SetUpdateOrDelete::Update(u)) => {
            let mut u = u;
            u.bytecode = SetOrKeep::Assign(code);
            SetUpdateOrDelete::Update(u)
        },
        Some(SetUpdateOrDelete::Delete) => {
            let mut e = LedgerEntry::new_empty();
            e.bytecode = code;
            SetUpdateOrDelete::Assign(e)
        },
        None => SetUpdateOrDelete::Update(
            LedgerEntryUpdate {
                parallel_balance: SetOrKeep::Keep,
                bytecode: SetOrKeep::Assign(code),
                datastore: KeyMap::new(),
            },
        ),
    };
    c.insert(a, change);
}

/// Records in `c` that the datastore of `a` holds `value` under `key`, or
/// nothing when `value` is `None`.
fn change_data(c: &mut LedgerChanges, a: Address, key: Digest, value: Option<Vec<u8>>)
    ensures
        forall|f: FinalLedger| #[trigger] eff_exists(f, *old(c), a) ==> {
            &&& eff_exists(f, *final(c), a)
            &&& eff_data(f, *final(c), a, key) == (match value {
                Some(v) => Some(v@),
                None => None::<Seq<u8>>,
            })
            &&& eff_bytecode(f, *final(c), a) == eff_bytecode(f, *old(c), a)
            &&& eff_balance(f, *final(c), a) == eff_balance(f, *old(c), a)
        },
        forall|f: FinalLedger, k: Digest| eff_exists(f, *old(c), a) && k != key ==> #[trigger] eff_data(f, *final(c), a, k) == eff_data(f, *old(c), a, k),
        others_unchanged(*old(c), *final(c), a),
{
    let change: LedgerEntryChange = match c.remove(&a) {
        Some(SetUpdateOrDelete::Assign(e)) => {
            let mut e = e;
            match value {
                Some(v) => {
                    e.datastore.insert(key, v);
                },
                None => {
                    e.datastore.remove(&key);
                },
            }
            SetUpdateOrDelete::Assign(e)
        },
        Some(SetUpdateOrDelete::Update(u)) => {
            let mut u = u;
            match value {
                Some(v) => {
                    u.datastore.insert(key, SetOrDelete::Assign(v));
                },
                None => {
                    u.datastore.insert(key, SetOrDelete::Delete);
                },
            }
            SetUpdateOrDelete::Update(u)
        },
        Some(SetUpdateOrDelete::Delete) => {
            let mut e = LedgerEntry::new_empty();
            match value {
                Some(v) => {
                    e.datastore.insert(key, v);
                },
                None => {},
            }
            SetUpdateOrDelete::Assign(e)
        },
        None => {
            let mut d = KeyMap::new();
            match value {
                Some(v) => {
                    d.insert(key, SetOrDelete::Assign(v));
                },
                None => {
                    d.insert(key, SetOrDelete::Delete);
                },
            }
            SetUpdateOrDelete::Update(
                LedgerEntryUpdate { parallel_balance: SetOrKeep::Keep, bytecode: SetOrKeep::Keep, datastore: d },
            )
        },
    };
    c.insert(a, change);
}

/// `l1` is `l0` after a successful write of `v` (none: a removal) under
/// `key` in the datastore of the existing address `a`.
pub open spec fn data_written(l0: SpeculativeLedger, l1: SpeculativeLedger, a: Address, key: Digest, v: Option<Seq<u8>>) -> bool {
    &&& l1.final_ledger == l0.final_ledger
    &&& eff_exists(l1.final_ledger, l1.added_changes, a)
    &&& eff_data(l1.final_ledger, l1.added_changes, a, key) == v
    &&& eff_balance(l1.final_ledger, l1.added_changes, a) == eff_balance(l0.final_ledger, l0.added_changes, a)
    &&& eff_bytecode(l1.final_ledger, l1.added_changes, a) == eff_bytecode(l0.final_ledger, l0.added_changes, a)
    &&& forall|k: Digest| k != key ==> #[trigger] eff_data(l1.final_ledger, l1.added_changes, a, k) == eff_data(l0.final_ledger, l0.added_changes, a, k)
    &&& others_unchanged(l0.added_changes, l1.added_changes, a)
}

/// `l1` is `l0` after a successful write of the bytecode `code` to the
/// existing address `a`.
pub open spec fn bytecode_written(l0: SpeculativeLedger, l1: SpeculativeLedger, a: Address, code: Seq<u8>) -> bool {
    &&& l1.final_ledger == l0.final_ledger
    &&& eff_exists(l1.final_ledger, l1.added_changes, a)
    &&& eff_bytecode(l1.final_ledger, l1.added_changes, a) == Some(code)
    &&& eff_balance(l1.final_ledger, l1.added_changes, a) == eff_balance(l0.final_ledger, l0.added_changes, a)
    &&& forall|k: Digest| #[trigger] eff_data(l1.final_ledger, l1.added_changes, a, k) == eff_data(l0.final_ledger, l0.added_changes, a, k)
    &&& others_unchanged(l0.added_changes, l1.added_changes, a)
}

/// `l1` is `l0` after the creation of the entry of `a` with no coins, the
/// bytecode `code` and an empty datastore.
pub open spec fn entry_created(l0: SpeculativeLedger, l1: SpeculativeLedger, a: Address, code: Seq<u8>) -> bool {
    &&& l1.final_ledger == l0.final_ledger
    &&& eff_exists(l1.final_ledger, l1.added_changes, a)
    &&& eff_balance(l1.final_ledger, l1.added_changes, a) == Some(Amount(0))
    &&& eff_bytecode(l1.final_ledger, l1.added_changes, a) == Some(code)
    &&& forall|k: Digest| #[trigger] eff_data(l1.final_ledger, l1.added_changes, a, k) is None
    &&& others_unchanged(l0.added_changes, l1.added_changes, a)
}

/// `l1` is `l0` after a successful transfer of `amount` from `from` to `to`,
/// whose new balances are `new_from` and `new_to`.
pub open spec fn coins_transferred(
    l0: SpeculativeLedger,
    l1: SpeculativeLedger,
    from: Option<Address>,
    to: Option<Address>,
    new_from: Option<u64>,
    new_to: Option<u64>,
) -> bool {
    &&& l1.final_ledger == l0.final_ledger
    &&& (to is Some ==> eff_balance(l1.final_ledger, l1.added_changes, to.unwrap()) == Some(Amount(new_to.unwrap())))
    &&& (from is Some && to != from ==> eff_balance(l1.final_ledger, l1.added_changes, from.unwrap()) == Some(Amount(new_from.unwrap())))
    &&& forall|b: Address| Some(b) != from && Some(b) != to ==> #[trigger] reads_same(l0.final_ledger, l0.added_changes, l1.added_changes, b)
    &&& forall|b: Address| Some(b) == from || Some(b) == to ==> {
        &&& #[trigger] eff_exists(l1.final_ledger, l1.added_changes, b)
        &&& (eff_exists(l0.final_ledger, l0.added_changes, b) ==> eff_bytecode(l1.final_ledger, l1.added_changes, b) == eff_bytecode(l0.final_ledger, l0.added_changes, b))
    }
    &&& forall|b: Address, k: Digest| (Some(b) == from || Some(b) == to) && eff_exists(l0.final_ledger, l0.added_changes, b) ==> #[trigger] eff_data(l1.final_ledger, l1.added_changes, b, k) == eff_data(l0.final_ledger, l0.added_changes, b, k)
    &&& forall|b: Address| (Some(b) == from || Some(b) == to) && !eff_exists(l0.final_ledger, l0.added_changes, b) ==> #[trigger] eff_bytecode(l1.final_ledger, l1.added_changes, b) == Some(Seq::<u8>::empty())
    &&& forall|b: Address, k: Digest| (Some(b) == from || Some(b) == to) && !eff_exists(l0.final_ledger, l0.added_changes, b) ==> #[trigger] eff_data(l1.final_ledger, l1.added_changes, b, k) is None
}

/// The entry `e` (none: no entry) is what `a` reads as through the changes
/// `c` atop `f`.
pub open spec fn entry_reads_as(e: Option<LedgerEntry>, f: FinalLedger, c: LedgerChanges, a: Address) -> bool {
    match e {
        None => !eff_exists(f, c, a),
        Some(x) => {
            &&& eff_exists(f, c, a)
            &&& eff_balance(f, c, a) == Some(x.parallel_balance)
            &&& eff_bytecode(f, c, a) == Some(x.bytecode@)
            &&& forall|k: Digest| #[trigger] eff_data(f, c, a, k) == lookup_bytes(x.datastore, k)
        },
    }
}

/// Writes the changes `changes` into the final ledger `ledger`: afterwards
/// every address reads in the ledger as it read through the changes before.
pub fn apply_ledger_changes(ledger: &mut FinalLedger, changes: &LedgerChanges)
    ensures
        forall|a: Address| #[trigger] entry_reads_as(lookup(final(ledger)@, a), *old(ledger), *changes, a),
{
    let ghost f0 = *ledger;
    changes.is_ascending();
    let n = changes.len();
    let mut i: usize = 0;
    while i < n
        invariant
            n == changes@.len(),
            i <= n,
            crate::key_map::keys_unique(changes@),
            forall|a: Address| #[trigger] lookup(ledger@, a) == lookup(f0@, a) || exists|j: int| 0 <= j < i && changes@[j].0 == a,
            forall|a: Address| (exists|j: int| 0 <= j < i && changes@[j].0 == a) ==> #[trigger] entry_reads_as(lookup(ledger@, a), f0, *changes, a),
        decreases n - i,
    {
        let entry = changes.entry_at(i);
        let a = entry.0;
        proof {
            crate::key_map::lemma_lookup_at(changes@, i as int);
            assert(!(exists|j: int| 0 <= j < i && changes@[j].0 == a));
        }
        let ghost before = *ledger;
        let ghost orig = entry.1;
        let change = copy_change(&entry.1);
        match change {
            SetUpdateOrDelete::Assign(e) => {
                let e2 = e.copy();
                let ghost eg = e;
                ledger.insert(a, e2);
                proof {
                    if let SetUpdateOrDelete::Assign(e1) = orig {
                        assert(lookup(ledger@, a) == Some(e2));
                        assert forall|k: Digest| #[trigger] eff_data(f0, *changes, a, k) == lookup_bytes(e2.datastore, k) by {
                            assert(lookup_bytes(eg.datastore, k) == lookup_bytes(e1.datastore, k));
                        }
                    }
                }
            },
            SetUpdateOrDelete::Update(u) => {
                let mut e = match ledger.remove(&a) {
                    Some(e) => e,
                    None => LedgerEntry::new_empty(),
                };
                proof {
                    assert forall|k: Digest| #[trigger] base_data(f0, a, k) == lookup_bytes(e.datastore, k) by {
                    }
                    assert(base_balance(f0, a) == e.parallel_balance);
                    assert(base_bytecode(f0, a) == e.bytecode@);
                }
                let ghost ug = u;
                let ghost e_before = e;
                e.apply(u);
                ledger.insert(a, e);
                proof {
                    if let SetUpdateOrDelete::Update(u1) = orig {
                        assert(lookup(ledger@, a) == Some(e));
                        assert forall|k: Digest| #[trigger] eff_data(f0, *changes, a, k) == lookup_bytes(e.datastore, k) by {
                            assert(lookup_bytes(e.datastore, k) == crate::ledger_changes::datastore_after(ug.datastore, e_before.datastore, k));
                            assert(data_after(ug.datastore, base_data(f0, a, k), k) == data_after(u1.datastore, base_data(f0, a, k), k));
                        }
                    }
                }
            },
            SetUpdateOrDelete::Delete => {
                ledger.remove(&a);
            },
        }
        proof {
            assert forall|b: Address| (exists|j: int| 0 <= j < i + 1 && changes@[j].0 == b) implies #[trigger] entry_reads_as(lookup(ledger@, b), f0, *changes, b) by {
                if b != a {
                    let j = choose|j: int| 0 <= j < i + 1 && changes@[j].0 == b;
                    assert(j < i);
                    assert(lookup(ledger@, b) == lookup(before@, b));
                }
            }
            assert forall|b: Address| #[trigger] lookup(ledger@, b) == lookup(f0@, b) || exists|j: int| 0 <= j < i + 1 && changes@[j].0 == b by {
                if b != a {
                    assert(lookup(ledger@, b) == lookup(before@, b));
                    if lookup(before@, b) != lookup(f0@, b) {
                        let j = choose|j: int| 0 <= j < i && changes@[j].0 == b;
                        assert(0 <= j < i + 1 && changes@[j].0 == b);
                    }
                } else {
                    assert(changes@[i as int].0 == b);
                }
            }
        }
        i += 1;
    }
    proof {
        assert forall|a: Address| #[trigger] entry_reads_as(lookup(ledger@, a), f0, *changes, a) by {
            if !(exists|j: int| 0 <= j < n && changes@[j].0 == a) {
                crate::key_map::lemma_lookup_absent(changes@, a);
                assert(lookup(ledger@, a) == lookup(f0@, a));
            }
        }
    }
}

/// Whether `a` has an entry once `c1`, then `c2`, are applied to `f`.
pub open spec fn eff2_exists(f: FinalLedger, c1: LedgerChanges, c2: LedgerChanges, a: Address) -> bool {
    match lookup(c2@, a) {
        Some(SetUpdateOrDelete::Assign(_)) => true,
        Some(SetUpdateOrDelete::Update(_)) => true,
        Some(SetUpdateOrDelete::Delete) => false,
        None => eff_exists(f, c1, a),
    }
}

/// The balance of `a` once `c1`, then `c2`, are applied to `f`.
pub open spec fn eff2_balance(f: FinalLedger, c1: LedgerChanges, c2: LedgerChanges, a: Address) -> Option<Amount> {
    match lookup(c2@, a) {
        Some(SetUpdateOrDelete::Assign(e)) => Some(e.parallel_balance),
        Some(SetUpdateOrDelete::Update(u)) => Some(set_or_keep_result(u.parallel_balance, match eff_balance(f, c1, a) {
            Some(b) => b,
            None => Amount(0),
        })),
        Some(SetUpdateOrDelete::Delete) => None,
        None => eff_balance(f, c1, a),
    }
}

/// The bytecode of `a` once `c1`, then `c2`, are applied to `f`.
pub open spec fn eff2_bytecode(f: FinalLedger, c1: LedgerChanges, c2: LedgerChanges, a: Address) -> Option<Seq<u8>> {
    match lookup(c2@, a) {
        Some(SetUpdateOrDelete::Assign(e)) => Some(e.bytecode@),
        Some(SetUpdateOrDelete::Update(u)) => Some(match u.bytecode {
            SetOrKeep::Assign(v) => v@,
            SetOrKeep::Keep => match eff_bytecode(f, c1, a) {
                Some(b) => b,
                None => Seq::empty(),
            },
        }),
        Some(SetUpdateOrDelete::Delete) => None,
        None => eff_bytecode(f, c1, a),
    }
}

/// The datastore value of `a` under `k` once `c1`, then `c2`, are applied to `f`.
pub open spec fn eff2_data(f: FinalLedger, c1: LedgerChanges, c2: LedgerChanges, a: Address, k: Digest) -> Option<Seq<u8>> {
    match lookup(c2@, a) {
        Some(SetUpdateOrDelete::Assign(e)) => lookup_bytes(e.datastore, k),
        Some(SetUpdateOrDelete::Update(u)) => data_after(u.datastore, eff_data(f, c1, a, k), k),
        Some(SetUpdateOrDelete::Delete) => None,
        None => eff_data(f, c1, a, k),
    }
}

/// `c` reads, atop `f`, as `c1` then `c2` do.
pub open spec fn composes(f: FinalLedger, c1: LedgerChanges, c2: LedgerChanges, c: LedgerChanges, a: Address) -> bool {
    &&& eff_exists(f, c, a) == eff2_exists(f, c1, c2, a)
    &&& eff_balance(f, c, a) == eff2_balance(f, c1, c2, a)
    &&& eff_bytecode(f, c, a) == eff2_bytecode(f, c1, c2, a)
    &&& forall|k: Digest| #[trigger] eff_data(f, c, a, k) == eff2_data(f, c1, c2, a, k)
}

/// Reading through `c2` a ledger `f1` that holds `f` with `c1` applied is
/// reading through `c1`, then `c2`, atop `f`.
pub proof fn lemma_layered_reads(f: FinalLedger, f1: FinalLedger, c1: LedgerChanges, c2: LedgerChanges, a: Address)
    requires
        entry_reads_as(lookup(f1@, a), f, c1, a),
    ensures
        eff_exists(f1, c2, a) == eff2_exists(f, c1, c2, a),
        eff_balance(f1, c2, a) == eff2_balance(f, c1, c2, a),
        eff_bytecode(f1, c2, a) == eff2_bytecode(f, c1, c2, a),
        forall|k: Digest| #[trigger] eff_data(f1, c2, a, k) == eff2_data(f, c1, c2, a, k),
{
    assert forall|k: Digest| #[trigger] eff_data(f1, c2, a, k) == eff2_data(f, c1, c2, a, k) by {
        if lookup(f1@, a) is None {
            assert(eff_data(f, c1, a, k) is None) by {
                match lookup(c1@, a) {
                    Some(SetUpdateOrDelete::Delete) => {},
                    _ => {},
                }
            }
        }
    }
    if lookup(f1@, a) is None {
        assert(eff_balance(f, c1, a) is None);
        assert(eff_bytecode(f, c1, a) is None);
    }
}

/// Finalizing slot by slot is finalizing the composed changes: a final
/// ledger `f1` that holds `f` with `c1` applied, once `c2` is applied too,
/// reads as `f` with the composition `c` of `c1` and `c2` applied.
pub proof fn lemma_finalize_in_steps(f: FinalLedger, f1: FinalLedger, c1: LedgerChanges, c2: LedgerChanges, c: LedgerChanges, a: Address)
    requires
        entry_reads_as(lookup(f1@, a), f, c1, a),
        composes(f, c1, c2, c, a),
    ensures
        eff_exists(f1, c2, a) == eff_exists(f, c, a),
        eff_balance(f1, c2, a) == eff_balance(f, c, a),
        eff_bytecode(f1, c2, a) == eff_bytecode(f, c, a),
        forall|k: Digest| #[trigger] eff_data(f1, c2, a, k) == eff_data(f, c, a, k),
{
    lemma_layered_reads(f, f1, c1, c2, a);
}

/// Datastore changes `u1` followed by `u2`, as one set of changes.
fn merge_data_changes(u1: KeyMap<SetOrDelete<Vec<u8>>>, u2: &KeyMap<SetOrDelete<Vec<u8>>>) -> (r: KeyMap<SetOrDelete<Vec<u8>>>)
    ensures
        forall|base: Option<Seq<u8>>, k: Digest| #[trigger] data_after(r, base, k) == data_after(*u2, data_after(u1, base, k), k),
{
    u2.is_ascending();
    let mut r = u1;
    let n = u2.len();
    let mut i: usize = 0;
    while i < n
        invariant
            n == u2@.len(),
            i <= n,
            crate::key_map::keys_unique(u2@),
            forall|base: Option<Seq<u8>>, k: Digest| #[trigger] data_after(r, base, k) == (if exists|j: int| 0 <= j < i && u2@[j].0 == k {
                data_after(*u2, data_after(u1, base, k), k)
            } else {
                data_after(u1, base, k)
            }),
        decreases n - i,
    {
        let entry = u2.entry_at(i);
        proof {
            crate::key_map::lemma_lookup_at(u2@, i as int);
        }
        let v = match &entry.1 {
            SetOrDelete::Assign(b) => SetOrDelete::Assign(copy_bytes(b)),
            SetOrDelete::Delete => SetOrDelete::Delete,
        };
        let ghost old_r = r;
        r.insert(entry.0, v);
        proof {
            assert forall|base: Option<Seq<u8>>, k: Digest| #[trigger] data_after(r, base, k) == (if exists|j: int| 0 <= j < i + 1 && u2@[j].0 == k {
                data_after(*u2, data_after(u1, base, k), k)
            } else {
                data_after(u1, base, k)
            }) by {
                if k != entry.0 {
                    assert(data_after(r, base, k) == data_after(old_r, base, k));
                    if exists|j: int| 0 <= j < i + 1 && u2@[j].0 == k {
                        let j = choose|j: int| 0 <= j < i + 1 && u2@[j].0 == k;
                        assert(j < i);
                    }
                }
            }
        }
        i += 1;
    }
    proof {
        assert forall|base: Option<Seq<u8>>, k: Digest| #[trigger] data_after(r, base, k) == data_after(*u2, data_after(u1, base, k), k) by {
            if !(exists|j: int| 0 <= j < n && u2@[j].0 == k) {
                crate::key_map::lemma_lookup_absent(u2@, k);
            }
        }
    }
    r
}

/// The update `u1` followed by `u2`, as one update.
fn merge_updates(u1: LedgerEntryUpdate, u2: &LedgerEntryUpdate) -> (r: LedgerEntryUpdate)
    ensures
        r.parallel_balance == (match u2.parallel_balance {
            SetOrKeep::Assign(b) => SetOrKeep::Assign(b),
            SetOrKeep::Keep => u1.parallel_balance,
        }),
        match (r.bytecode, u2.bytecode, u1.bytecode) {
            (SetOrKeep::Assign(v), SetOrKeep::Assign(w), _) => v@ == w@,
            (SetOrKeep::Assign(v), SetOrKeep::Keep, SetOrKeep::Assign(w)) => v@ == w@,
            (SetOrKeep::Keep, SetOrKeep::Keep, SetOrKeep::Keep) => true,
            _ => false,
        },
        forall|base: Option<Seq<u8>>, k: Digest| #[trigger] data_after(r.datastore, base, k) == data_after(
            u2.datastore,
            data_after(u1.datastore, base, k),
            k,
        ),
{
    let LedgerEntryUpdate { parallel_balance, bytecode, datastore } = u1;
    let parallel_balance = match &u2.parallel_balance {
        SetOrKeep::Assign(b) => SetOrKeep::Assign(*b),
        SetOrKeep::Keep => parallel_balance,
    };
    let bytecode = match &u2.bytecode {
        SetOrKeep::Assign(v) => SetOrKeep::Assign(copy_bytes(v)),
        SetOrKeep::Keep => bytecode,
    };
    LedgerEntryUpdate { parallel_balance, bytecode, datastore: merge_data_changes(datastore, &u2.datastore) }
}

/// Adds the changes `next` after those of `base`: afterwards `base` reads,
/// atop any final ledger, as its old changes followed by `next`.
pub fn compose_ledger_changes(base: &mut LedgerChanges, next: &LedgerChanges)
    ensures
        forall|f: FinalLedger, a: Address| #[trigger] composes(f, *old(base), *next, *final(base), a),
{
    let ghost c1 = *base;
    next.is_ascending();
    let n = next.len();
    let mut i: usize = 0;
    while i < n
        invariant
            n == next@.len(),
            i <= n,
            crate::key_map::keys_unique(next@),
            forall|b: Address| #[trigger] lookup(base@, b) == lookup(c1@, b) || exists|j: int| 0 <= j < i && next@[j].0 == b,
            forall|f: FinalLedger, b: Address| (exists|j: int| 0 <= j < i && next@[j].0 == b) ==> #[trigger] composes(f, c1, *next, *base, b),
        decreases n - i,
    {
        let entry = next.entry_at(i);
        let a = entry.0;
        proof {
            crate::key_map::lemma_lookup_at(next@, i as int);
            assert(!(exists|j: int| 0 <= j < i && next@[j].0 == a));
        }
        let ghost before = *base;
        let ghost orig = entry.1;
        match &entry.1 {
            SetUpdateOrDelete::Assign(e) => {
                base.insert(a, SetUpdateOrDelete::Assign(e.copy()));
            },
            SetUpdateOrDelete::Delete => {
                base.insert(a, SetUpdateOrDelete::Delete);
            },
            SetUpdateOrDelete::Update(u2) => {
                let merged: LedgerEntryChange = match base.remove(&a) {
                    Some(SetUpdateOrDelete::Assign(e)) => {
                        let mut e = e;
                        let ghost e0 = e;
                        let uc = copy_change(&entry.1);
                        match uc {
                            SetUpdateOrDelete::Update(u) => {
                                e.apply(u);
                                proof {
                                    assert forall|k: Digest| #[trigger] lookup_bytes(e.datastore, k) == data_after(u2.datastore, lookup_bytes(e0.datastore, k), k) by {
                                        assert(data_after(u.datastore, lookup_bytes(e0.datastore, k), k) == data_after(u2.datastore, lookup_bytes(e0.datastore, k), k));
                                    }
                                }
                            },
                            _ => {},
                        }
                        SetUpdateOrDelete::Assign(e)
                    },
                    Some(SetUpdateOrDelete::Update(u1)) => SetUpdateOrDelete::Update(merge_updates(u1, u2)),
                    Some(SetUpdateOrDelete::Delete) => {
                        let mut e = LedgerEntry::new_empty();
                        let uc = copy_change(&entry.1);
                        match uc {
                            SetUpdateOrDelete::Update(u) => {
                                e.apply(u);
                                proof {
                                    assert forall|k: Digest| #[trigger] lookup_bytes(e.datastore, k) == data_after(u2.datastore, None, k) by {
                                        assert(data_after(u.datastore, None, k) == data_after(u2.datastore, None, k));
                                    }
                                }
                            },
                            _ => {},
                        }
                        SetUpdateOrDelete::Assign(e)
                    },
                    None => copy_change(&entry.1),
                };
                base.insert(a, merged);
            },
        }
        proof {
            assert forall|f: FinalLedger, b: Address| (exists|j: int| 0 <= j < i + 1 && next@[j].0 == b) implies #[trigger] composes(f, c1, *next, *base, b) by {
                if b != a {
                    let j = choose|j: int| 0 <= j < i + 1 && next@[j].0 == b;
                    assert(j < i);
                    assert(lookup(base@, b) == lookup(before@, b));
                    assert(composes(f, c1, *next, before, b));
                    assert forall|k: Digest| #[trigger] eff_data(f, *base, b, k) == eff2_data(f, c1, *next, b, k) by {
                        assert(eff_data(f, before, b, k) == eff2_data(f, c1, *next, b, k));
                    }
                } else {
                    assert(lookup(before@, a) == lookup(c1@, a));
                    assert(eff_exists(f, *base, a) == eff2_exists(f, c1, *next, a));
                    assert(eff_balance(f, *base, a) == eff2_balance(f, c1, *next, a));
                    assert(eff_bytecode(f, *base, a) == eff2_bytecode(f, c1, *next, a));
                    assert forall|k: Digest| #[trigger] eff_data(f, *base, a, k) == eff2_data(f, c1, *next, a, k) by {
                    }
                }
            }
            assert forall|b: Address| #[trigger] lookup(base@, b) == lookup(c1@, b) || exists|j: int| 0 <= j < i + 1 && next@[j].0 == b by {
                if b != a {
                    assert(lookup(base@, b) == lookup(before@, b));
                    if lookup(before@, b) != lookup(c1@, b) {
                        let j = choose|j: int| 0 <= j < i && next@[j].0 == b;
                        assert(0 <= j < i + 1 && next@[j].0 == b);
                    }
                } else {
                    assert(next@[i as int].0 == b);
                }
            }
        }
        i += 1;
    }
    proof {
        assert forall|f: FinalLedger, a: Address| #[trigger] composes(f, c1, *next, *base, a) by {
            if !(exists|j: int| 0 <= j < n && next@[j].0 == a) {
                crate::key_map::lemma_lookup_absent(next@, a);
                assert(lookup(base@, a) == lookup(c1@, a));
            }
        }
    }
}

/// The final ledger seen through the changes accumulated so far.
pub struct SpeculativeLedger {
    /// The final ledger, only read.
    pub final_ledger: FinalLedger,
    /// Changes accumulated atop the final ledger.
    pub added_changes: LedgerChanges,
}

impl SpeculativeLedger {
    /// The ledger `final_ledger` seen through `previous_changes`.
    pub fn new(final_ledger: FinalLedger, previous_changes: LedgerChanges) -> (r: SpeculativeLedger)
        ensures
            r.final_ledger == final_ledger,
            r.added_changes == previous_changes,
    {
        SpeculativeLedger { final_ledger, added_changes: previous_changes }
    }

    /// Whether `a` has an entry.
    pub fn entry_exists(&self, a: &Address) -> (r: bool)
        ensures
            r == eff_exists(self.final_ledger, self.added_changes, *a),
    {
        match self.added_changes.get(a) {
            Some(SetUpdateOrDelete::Assign(_)) => true,
            Some(SetUpdateOrDelete::Update(_)) => true,
            Some(SetUpdateOrDelete::Delete) => false,
            None => self.final_ledger.contains_key(a),
        }
    }

    /// The balance of `a`, if it has an entry.
    pub fn get_parallel_balance(&self, a: &Address) -> (r: Option<Amount>)
        ensures
            r == eff_balance(self.final_ledger, self.added_changes, *a),
    {
        let base = match self.final_ledger.get(a) {
            Some(e) => Some(e.parallel_balance),
            None => None,
        };
        match self.added_changes.get(a) {
            Some(SetUpdateOrDelete::Assign(e)) => Some(e.parallel_balance),
            Some(SetUpdateOrDelete::Update(u)) => match &u.parallel_balance {
                SetOrKeep::Assign(b) => Some(*b),
                SetOrKeep::Keep => match base {
                    Some(b) => Some(b),
                    None => Some(Amount(0)),
                },
            },
            Some(SetUpdateOrDelete::Delete) => None,
            None => base,
        }
    }

    /// The bytecode of `a`, if it has an entry.
    pub fn get_bytecode(&self, a: &Address) -> (r: Option<Vec<u8>>)
        ensures
            r is Some == eff_bytecode(self.final_ledger, self.added_changes, *a) is Some,
            r matches Some(v) ==> eff_bytecode(self.final_ledger, self.added_changes, *a) == Some(v@),
    {
        let base = match self.final_ledger.get(a) {
            Some(e) => Some(copy_bytes(&e.bytecode)),
            None => None,
        };
        match self.added_changes.get(a) {
            Some(SetUpdateOrDelete::Assign(e)) => Some(copy_bytes(&e.bytecode)),
            Some(SetUpdateOrDelete::Update(u)) => match &u.bytecode {
                SetOrKeep::Assign(v) => Some(copy_bytes(v)),
                SetOrKeep::Keep => match base {
                    Some(v) => Some(v),
                    None => Some(Vec::new()),
                },
            },
            Some(SetUpdateOrDelete::Delete) => None,
            None => base,
        }
    }

    /// The datastore value of `a` under `key`, if there is one.
    pub fn get_data_entry(&self, a: &Address, key: &Digest) -> (r: Option<Vec<u8>>)
        ensures
            r is Some == eff_data(self.final_ledger, self.added_changes, *a, *key) is Some,
            r matches Some(v) ==> eff_data(self.final_ledger, self.added_changes, *a, *key) == Some(v@),
    {
        let base = match self.final_ledger.get(a) {
            Some(e) => match e.datastore.get(key) {
                Some(v) => Some(copy_bytes(v)),
                None => None,
            },
            None => None,
        };
        match self.added_changes.get(a) {
            Some(SetUpdateOrDelete::Assign(e)) => match e.datastore.get(key) {
                Some(v) => Some(copy_bytes(v)),
                None => None,
            },
            Some(SetUpdateOrDelete::Update(u)) => match u.datastore.get(key) {
                Some(SetOrDelete::Assign(v)) => Some(copy_bytes(v)),
                Some(SetOrDelete::Delete) => None,
                None => base,
            },
            Some(SetUpdateOrDelete::Delete) => None,
            None => base,
        }
    }

    /// Whether the datastore of `a` holds a value under `key`.
    pub fn has_data_entry(&self, a: &Address, key: &Digest) -> (r: bool)
        ensures
            r == eff_data(self.final_ledger, self.added_changes, *a, *key) is Some,
    {
        self.get_data_entry(a, key).is_some()
    }

    /// Creates the entry of `a` with no coins, the bytecode `bytecode` and an
    /// empty datastore; fails when `a` already has an entry.
    pub fn create_new_sc_address(&mut self, a: Address, bytecode: Vec<u8>) -> (r: Result<(), LedgerError>)
        ensures
            final(self).final_ledger == old(self).final_ledger,
            eff_exists(old(self).final_ledger, old(self).added_changes, a) ==> r == Err::<(), LedgerError>(
                LedgerError::AddressExists,
            ) && *final(self) == *old(self),
            !eff_exists(old(self).final_ledger, old(self).added_changes, a) ==> r is Ok && entry_created(
                *old(self),
                *final(self),
                a,
                bytecode@,
            ),
    {
        if self.entry_exists(&a) {
            return Err(LedgerError::AddressExists);
        }
        let mut e = LedgerEntry::new_empty();
        e.bytecode = bytecode;
        self.added_changes.insert(a, SetUpdateOrDelete::Assign(e));
        Ok(())
    }

    /// Moves `amount` coins from `from` (none: coins are created) to `to`
    /// (none: coins are destroyed). Fails, changing nothing, when the spender
    /// has no entry or too few coins, or when the receiver's balance would
    /// overflow. A receiver without an entry gets one.
    pub fn transfer_parallel_coins(&mut self, from: Option<Address>, to: Option<Address>, amount: Amount) -> (r: Result<(), LedgerError>)
        ensures
            final(self).final_ledger == old(self).final_ledger,
            match transfer_result(old(self).final_ledger, old(self).added_changes, from, to, amount) {
                Err(e) => r == Err::<(), LedgerError>(e) && *final(self) == *old(self),
                Ok((new_from, new_to)) => r is Ok && coins_transferred(*old(self), *final(self), from, to, new_from, new_to),
            },
    {
        let new_from: Option<Amount> = match from {
            None => None,
            Some(fa) => match self.get_parallel_balance(&fa) {
                None => {
                    return Err(LedgerError::MissingAddress);
                },
                Some(b) => match b.checked_sub(amount) {
                    None => {
                        return Err(LedgerError::InsufficientBalance);
                    },
                    Some(nb) => Some(nb),
                },
            },
        };
        let new_to: Option<Amount> = match to {
            None => None,
            Some(ta) => {
                let same = match from {
                    Some(fa) => fa == ta,
                    None => false,
                };
                proof {
                    if same {
                        crate::hash::lemma_hash_eq(from.unwrap(), ta);
                    }
                }
                let base = if same {
                    new_from.unwrap()
                } else {
                    match self.get_parallel_balance(&ta) {
                        Some(b) => b,
                        None => Amount(0),
                    }
                };
                match base.checked_add(amount) {
                    None => {
                        return Err(LedgerError::BalanceOverflow);
                    },
                    Some(nb) => Some(nb),
                }
            },
        };
        let ghost c0 = self.added_changes;
        let ghost f0 = self.final_ledger;
        let ghost nf: Option<u64> = match new_from {
            Some(a) => Some(a.0),
            None => None,
        };
        let ghost nt: Option<u64> = match new_to {
            Some(a) => Some(a.0),
            None => None,
        };
        assert(transfer_result(f0, c0, from, to, amount) == Ok::<(Option<u64>, Option<u64>), LedgerError>((nf, nt)));
        match (from, new_from) {
            (Some(fa), Some(nb)) => {
                change_balance(&mut self.added_changes, fa, nb);
            },
            _ => {},
        }
        let ghost c1 = self.added_changes;
        match (to, new_to) {
            (Some(ta), Some(nb)) => {
                change_balance(&mut self.added_changes, ta, nb);
            },
            _ => {},
        }
        proof {
            let c2 = self.added_changes;
            assert forall|b: Address| Some(b) != from && Some(b) != to implies #[trigger] reads_same(f0, c0, c2, b) by {
                assert(reads_same(f0, c0, c1, b));
                assert(reads_same(f0, c1, c2, b));
            }
            if from is Some && to != from {
                let fa = from.unwrap();
                if to is Some {
                    assert(reads_same(f0, c1, c2, fa));
                }
                assert(eff_balance(f0, c2, fa) == Some(new_from.unwrap()));
                assert(eff_balance(f0, c2, fa) == Some(Amount(nf.unwrap())));
            }
            if to is Some {
                assert(eff_balance(f0, c2, to.unwrap()) == Some(new_to.unwrap()));
                assert(eff_balance(f0, c2, to.unwrap()) == Some(Amount(nt.unwrap())));
            }
            assert forall|b: Address| Some(b) == from || Some(b) == to implies {
                &&& #[trigger] eff_exists(f0, c2, b)
                &&& (eff_exists(f0, c0, b) ==> eff_bytecode(f0, c2, b) == eff_bytecode(f0, c0, b))
            } by {
                if from is None {
                    assert(c1 == c0);
                }
                if to is None {
                    assert(c2 == c1);
                }
                if Some(b) == from {
                    assert(eff_exists(f0, c1, b));
                }
                if Some(b) == to {
                    assert(eff_exists(f0, c2, b));
                }
                if Some(b) == from && Some(b) != to && to is Some {
                    assert(reads_same(f0, c1, c2, b));
                }
                if Some(b) == to && Some(b) != from && from is Some {
                    assert(reads_same(f0, c0, c1, b));
                }
                assert(eff_exists(f0, c2, b));
                if eff_exists(f0, c0, b) {
                    assert(eff_bytecode(f0, c2, b) == eff_bytecode(f0, c0, b));
                }
            }
            assert forall|b: Address| (Some(b) == from || Some(b) == to) && !eff_exists(f0, c0, b) implies #[trigger] eff_bytecode(f0, c2, b) == Some(Seq::<u8>::empty()) by {
                assert(eff_balance(f0, c0, b) is None);
                assert(Some(b) == to && Some(b) != from);
                if from is Some {
                    assert(reads_same(f0, c0, c1, b));
                } else {
                    assert(c1 == c0);
                }
                assert(!eff_exists(f0, c1, b));
            }
            assert forall|b: Address, k: Digest| (Some(b) == from || Some(b) == to) && !eff_exists(f0, c0, b) implies #[trigger] eff_data(f0, c2, b, k) is None by {
                assert(eff_balance(f0, c0, b) is None);
                assert(Some(b) == to && Some(b) != from);
                if from is Some {
                    assert(reads_same(f0, c0, c1, b));
                } else {
                    assert(c1 == c0);
                }
                assert(!eff_exists(f0, c1, b));
            }
            assert forall|b: Address, k: Digest| (Some(b) == from || Some(b) == to) && eff_exists(f0, c0, b) implies #[trigger] eff_data(f0, c2, b, k) == eff_data(f0, c0, b, k) by {
                if from is None {
                    assert(c1 == c0);
                }
                if to is None {
                    assert(c2 == c1);
                }
                if Some(b) == from {
                    assert(eff_exists(f0, c1, b));
                }
                if Some(b) == from && Some(b) != to && to is Some {
                    assert(reads_same(f0, c1, c2, b));
                }
                if Some(b) == to && Some(b) != from && from is Some {
                    assert(reads_same(f0, c0, c1, b));
                    assert(eff_exists(f0, c1, b));
                }
                assert(eff_data(f0, c1, b, k) == eff_data(f0, c0, b, k));
                assert(eff_data(f0, c2, b, k) == eff_data(f0, c1, b, k));
            }
        }
        Ok(())
    }

    /// Gives `a` the bytecode `bytecode`; fails, changing nothing, when `a`
    /// has no entry.
    pub fn set_bytecode(&mut self, a: &Address, bytecode: Vec<u8>) -> (r: Result<(), LedgerError>)
        ensures
            final(self).final_ledger == old(self).final_ledger,
            !eff_exists(old(self).final_ledger, old(self).added_changes, *a) ==> r == Err::<(), LedgerError>(
                LedgerError::MissingAddress,
            ) && *final(self) == *old(self),
            eff_exists(old(self).final_ledger, old(self).added_changes, *a) ==> r is Ok && bytecode_written(
                *old(self),
                *final(self),
                *a,
                bytecode@,
            ),
    {
        if !self.entry_exists(a) {
            return Err(LedgerError::MissingAddress);
        }
        change_bytecode(&mut self.added_changes, *a, bytecode);
        Ok(())
    }

    /// Holds `data` under `key` in the datastore of `a`; fails, changing
    /// nothing, when `a` has no entry.
    pub fn set_data_entry(&mut self, a: &Address, key: Digest, data: Vec<u8>) -> (r: Result<(), LedgerError>)
        ensures
            final(self).final_ledger == old(self).final_ledger,
            !eff_exists(old(self).final_ledger, old(self).added_changes, *a) ==> r == Err::<(), LedgerError>(
                LedgerError::MissingAddress,
            ) && *final(self) == *old(self),
            eff_exists(old(self).final_ledger, old(self).added_changes, *a) ==> r is Ok && data_written(
                *old(self),
                *final(self),
                *a,
                key,
                Some(data@),
            ),
    {
        if !self.entry_exists(a) {
            return Err(LedgerError::MissingAddress);
        }
        change_data(&mut self.added_changes, *a, key, Some(data));
        Ok(())
    }

    /// Drops the value under `key` from the datastore of `a`; fails, changing
    /// nothing, when `a` has no entry or no value there.
    pub fn delete_data_entry(&mut self, a: &Address, key: &Digest) -> (r: Result<(), LedgerError>)
        ensures
            final(self).final_ledger == old(self).final_ledger,
            !eff_exists(old(self).final_ledger, old(self).added_changes, *a) ==> r == Err::<(), LedgerError>(
                LedgerError::MissingAddress,
            ) && *final(self) == *old(self),
            eff_exists(old(self).final_ledger, old(self).added_changes, *a) && eff_data(old(self).final_ledger, old(self).added_changes, *a, *key) is None
                ==> r == Err::<(), LedgerError>(LedgerError::MissingDataEntry) && *final(self) == *old(self),
            eff_exists(old(self).final_ledger, old(self).added_changes, *a) && eff_data(old(self).final_ledger, old(self).added_changes, *a, *key) is Some
                ==> r is Ok && data_written(*old(self), *final(self), *a, *key, None),
    {
        if !self.entry_exists(a) {
            return Err(LedgerError::MissingAddress);
        }
        if !self.has_data_entry(a, key) {
            return Err(LedgerError::MissingDataEntry);
        }
        change_data(&mut self.added_changes, *a, *key, None);
        Ok(())
    }

    /// A copy of the changes accumulated so far.
    pub fn get_snapshot(&self) -> (r: LedgerChanges)
        ensures
            same_effect(r, self.added_changes),
    {
        copy_changes(&self.added_changes)
    }

    /// Replaces the accumulated changes with `snapshot`.
    pub fn reset_to_snapshot(&mut self, snapshot: LedgerChanges)
        ensures
            final(self).final_ledger == old(self).final_ledger,
            final(self).added_changes == snapshot,
    {
        self.added_changes = snapshot;
    }

    /// Hands out the accumulated changes and starts again from none.
    pub fn take(&mut self) -> (r: LedgerChanges)
        ensures
            r == old(self).added_changes,
            final(self).final_ledger == old(self).final_ledger,
            final(self).added_changes@ == Seq::<(Address, LedgerEntryChange)>::empty(),
    {
        let mut c: LedgerChanges = KeyMap::new();
        std::mem::swap(&mut c, &mut self.added_changes);
        c
    }
}

} // verus!
