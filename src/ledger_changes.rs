//! Changes to ledger entries, as accumulated during execution.

use vstd::prelude::*;
use crate::amount::Amount;
use crate::key_map::{KeyMap, lookup};
use crate::ledger_entry::{Datastore, LedgerEntry, lookup_bytes};
use crate::hash::Digest;
use crate::types::{SetOrDelete, SetOrKeep, SetUpdateOrDelete};

verus! {

/// Changes to the fields of an existing ledger entry.
#[derive(Clone, Debug, PartialEq, Eq)]
pub struct LedgerEntryUpdate {
    /// New balance, or none.
    pub parallel_balance: SetOrKeep<Amount>,
    /// New bytecode, or none.
    pub bytecode: SetOrKeep<Vec<u8>>,
    /// New values or removals of datastore entries, by key.
    pub datastore: KeyMap<SetOrDelete<Vec<u8>>>,
}

/// The bytes held under `k` once the datastore changes `u` are applied to `d`.
pub open spec fn datastore_after(u: KeyMap<SetOrDelete<Vec<u8>>>, d: Datastore, k: Digest) -> Option<Seq<u8>> {
    match lookup(u@, k) {
        Some(SetOrDelete::Assign(v)) => Some(v@),
        Some(SetOrDelete::Delete) => None,
        None => lookup_bytes(d, k),
    }
}

/// The bytes held under `k` once the datastore changes `u` are applied to a
/// datastore that holds `base` there.
pub open spec fn data_after(u: KeyMap<SetOrDelete<Vec<u8>>>, base: Option<Seq<u8>>, k: Digest) -> Option<Seq<u8>> {
    match lookup(u@, k) {
        Some(SetOrDelete::Assign(v)) => Some(v@),
        Some(SetOrDelete::Delete) => None,
        None => base,
    }
}

/// What a change does to the entry of one address.
pub type LedgerEntryChange = SetUpdateOrDelete<LedgerEntry, LedgerEntryUpdate>;

/// Changes to the ledger, by address.
pub type LedgerChanges = KeyMap<LedgerEntryChange>;

} // verus!
