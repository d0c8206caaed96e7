use massa_execution::amount::Amount;
use massa_execution::hash::Digest;
use massa_execution::key_map::KeyMap;
use massa_execution::ledger_changes::{LedgerChanges, LedgerEntryUpdate};
use massa_execution::ledger_entry::LedgerEntry;
use massa_execution::speculative_ledger::{
    apply_ledger_changes, compose_ledger_changes, FinalLedger, SpeculativeLedger,
};
use massa_execution::types::{SetOrDelete, SetOrKeep, SetUpdateOrDelete};

fn addr(b: u8) -> Digest {
    Digest([b; 32])
}

fn genesis() -> FinalLedger {
    let mut ledger = KeyMap::new();
    ledger.insert(addr(1), LedgerEntry { parallel_balance: Amount::from_raw(50), bytecode: vec![1], datastore: KeyMap::new() });
    ledger.insert(addr(2), LedgerEntry { parallel_balance: Amount::from_raw(7), bytecode: vec![2], datastore: KeyMap::new() });
    ledger
}

fn slot_one_changes() -> LedgerChanges {
    let mut l = SpeculativeLedger::new(genesis(), KeyMap::new());
    l.transfer_parallel_coins(Some(addr(1)), Some(addr(3)), Amount::from_raw(20)).unwrap();
    l.set_data_entry(&addr(2), addr(9), vec![9]).unwrap();
    l.take()
}

fn slot_two_changes() -> LedgerChanges {
    let mut c: LedgerChanges = KeyMap::new();
    let mut ds = KeyMap::new();
    ds.insert(addr(9), SetOrDelete::Delete);
    ds.insert(addr(8), SetOrDelete::Assign(vec![8]));
    c.insert(addr(2), SetUpdateOrDelete::Update(LedgerEntryUpdate {
        parallel_balance: SetOrKeep::Keep,
        bytecode: SetOrKeep::Assign(vec![22]),
        datastore: ds,
    }));
    c.insert(addr(3), SetUpdateOrDelete::Update(LedgerEntryUpdate {
        parallel_balance: SetOrKeep::Assign(Amount::from_raw(21)),
        bytecode: SetOrKeep::Keep,
        datastore: KeyMap::new(),
    }));
    c.insert(addr(1), SetUpdateOrDelete::Delete);
    c
}

#[test]
fn finalizing_writes_what_reads_showed() {
    let changes = slot_one_changes();
    let view = SpeculativeLedger::new(genesis(), changes.clone());
    let mut ledger = genesis();
    apply_ledger_changes(&mut ledger, &changes);
    for a in [addr(1), addr(2), addr(3), addr(4)] {
        let final_entry = ledger.get(&a);
        assert_eq!(final_entry.map(|e| e.parallel_balance), view.get_parallel_balance(&a));
        assert_eq!(final_entry.map(|e| e.bytecode.clone()), view.get_bytecode(&a));
        assert_eq!(final_entry.and_then(|e| e.datastore.get(&addr(9)).cloned()), view.get_data_entry(&a, &addr(9)));
    }
    assert_eq!(ledger.get(&addr(1)).unwrap().parallel_balance, Amount::from_raw(30));
    assert_eq!(ledger.get(&addr(3)).unwrap().parallel_balance, Amount::from_raw(20));
    assert_eq!(ledger.get(&addr(2)).unwrap().datastore.get(&addr(9)), Some(&vec![9]));
}

#[test]
fn finalizing_in_steps_equals_finalizing_the_union() {
    let c1 = slot_one_changes();
    let c2 = slot_two_changes();
    let mut stepwise = genesis();
    apply_ledger_changes(&mut stepwise, &c1);
    apply_ledger_changes(&mut stepwise, &c2);
    let mut union = c1.clone();
    compose_ledger_changes(&mut union, &c2);
    let mut at_once = genesis();
    apply_ledger_changes(&mut at_once, &union);
    assert_eq!(stepwise, at_once);
    assert!(stepwise.get(&addr(1)).is_none());
    let e2 = stepwise.get(&addr(2)).unwrap();
    assert_eq!(e2.bytecode, vec![22]);
    assert_eq!(e2.datastore.get(&addr(9)), None);
    assert_eq!(e2.datastore.get(&addr(8)), Some(&vec![8]));
    assert_eq!(stepwise.get(&addr(3)).unwrap().parallel_balance, Amount::from_raw(21));
}

#[test]
fn snapshot_of_changes_reads_the_same() {
    let mut l = SpeculativeLedger::new(genesis(), slot_one_changes());
    let snap = l.get_snapshot();
    l.set_bytecode(&addr(3), vec![3, 3]).unwrap();
    assert_eq!(l.create_new_sc_address(addr(3), vec![]), Err(massa_execution::speculative_ledger::LedgerError::AddressExists));
    assert_eq!(l.create_new_sc_address(addr(6), vec![6]), Ok(()));
    l.reset_to_snapshot(snap);
    assert_eq!(l.get_bytecode(&addr(3)), Some(vec![]));
    assert!(!l.entry_exists(&addr(6)));
    assert_eq!(l.get_parallel_balance(&addr(3)), Some(Amount::from_raw(20)));
}
