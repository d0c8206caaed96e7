use massa_execution::amount::Amount;
use massa_execution::hash::Digest;
use massa_execution::key_map::KeyMap;
use massa_execution::ledger_changes::LedgerEntryUpdate;
use massa_execution::ledger_entry::{
    Datastore, DatastoreDeserializer, DatastoreSerializer, LedgerEntry, LedgerEntryDeserializer,
    LedgerEntrySerializer,
};
use massa_execution::serialization::DeserializeError;
use massa_execution::types::{SetOrDelete, SetOrKeep};

fn key(b: u8) -> Digest {
    Digest([b; 32])
}

fn sample_entry() -> LedgerEntry {
    let hash = Digest::compute_from("hello world".as_bytes());
    let mut store = KeyMap::new();
    store.insert(hash, vec![1, 2, 3]);
    LedgerEntry {
        parallel_balance: Amount::from_str("1").unwrap(),
        bytecode: vec![1, 2, 3],
        datastore: store,
    }
}

#[test]
fn digest_is_blake3() {
    let d = Digest::compute_from(&[]);
    let expected: [u8; 32] = [
        0xaf, 0x13, 0x49, 0xb9, 0xf5, 0xf9, 0xa1, 0xa6, 0xa0, 0x40, 0x4d, 0xea, 0x36, 0xdc, 0xc9, 0x49,
        0x9b, 0xcb, 0x25, 0xc9, 0xad, 0xc1, 0x12, 0xb7, 0xcc, 0x9a, 0x93, 0xca, 0xe4, 0x1f, 0x32, 0x62,
    ];
    assert_eq!(d.to_bytes(), expected);
    assert_ne!(Digest::compute_from(&[1]), Digest::compute_from(&[2]));
}

#[test]
fn ledger_entry_serialization_round_trip() {
    let ledger_entry = sample_entry();
    let mut serialized = Vec::new();
    let serializer = LedgerEntrySerializer::new();
    let deserializer = LedgerEntryDeserializer::new();
    serializer.serialize(&ledger_entry, &mut serialized).unwrap();
    let (rest, ledger_entry_deser) = deserializer.deserialize(&serialized).unwrap();
    assert!(rest.is_empty());
    assert_eq!(ledger_entry, ledger_entry_deser);
}

#[test]
fn ledger_entry_compact_round_trip() {
    let e = sample_entry();
    let bytes = e.to_bytes_compact().unwrap();
    let (back, used) = LedgerEntry::from_bytes_compact(&bytes).unwrap();
    assert_eq!(used, bytes.len());
    assert_eq!(back, e);
    let mut serialized = Vec::new();
    LedgerEntrySerializer::default().serialize(&e, &mut serialized).unwrap();
    assert_eq!(serialized, bytes);
}

#[test]
fn ledger_entry_binary_layout() {
    let mut store = KeyMap::new();
    store.insert(key(9), vec![5, 6]);
    let e = LedgerEntry { parallel_balance: Amount::from_raw(300), bytecode: vec![7], datastore: store };
    let bytes = e.to_bytes_compact().unwrap();
    let mut expected = vec![0xAC, 0x02, 1, 7, 1];
    expected.extend_from_slice(&[9u8; 32]);
    expected.extend_from_slice(&[2, 5, 6]);
    assert_eq!(bytes, expected);
}

#[test]
fn ledger_entry_empty() {
    let e = LedgerEntry::new_empty();
    assert_eq!(e.to_bytes_compact().unwrap(), vec![0, 0, 0]);
    let (back, used) = LedgerEntry::from_bytes_compact(&[0, 0, 0, 42]).unwrap();
    assert_eq!(used, 3);
    assert_eq!(back, e);
}

#[test]
fn ledger_entry_decode_errors() {
    assert_eq!(LedgerEntry::from_bytes_compact(&[]), Err(DeserializeError::InvalidVarint));
    assert_eq!(LedgerEntry::from_bytes_compact(&[1, 3, 7]), Err(DeserializeError::Truncated));
    assert_eq!(LedgerEntry::from_bytes_compact(&[1, 0, 1, 9, 9]), Err(DeserializeError::Truncated));
    assert_eq!(LedgerEntry::from_bytes_compact(&[1, 0]), Err(DeserializeError::InvalidVarint));
    let mut b = vec![1, 0, 1];
    b.extend_from_slice(&[3u8; 32]);
    b.push(4);
    b.extend_from_slice(&[1, 2]);
    assert_eq!(LedgerEntry::from_bytes_compact(&b), Err(DeserializeError::Truncated));
}

#[test]
fn datastore_kept_in_key_order() {
    let mut store: Datastore = KeyMap::new();
    store.insert(key(3), vec![3]);
    store.insert(key(1), vec![1]);
    store.insert(key(2), vec![2]);
    assert_eq!(store.insert(key(2), vec![22]), Some(vec![2]));
    assert_eq!(store.len(), 3);
    assert_eq!(store.entry_at(0).0, key(1));
    assert_eq!(store.entry_at(1), &(key(2), vec![22]));
    assert_eq!(store.entry_at(2).0, key(3));
    assert_eq!(store.get(&key(2)), Some(&vec![22]));
    assert_eq!(store.remove(&key(1)), Some(vec![1]));
    assert_eq!(store.get(&key(1)), None);
    assert!(!store.contains_key(&key(1)));
    assert_eq!(store.remove(&key(1)), None);
}

#[test]
fn datastore_decoding_takes_last_value_and_sorts() {
    let mut b = vec![3];
    b.extend_from_slice(&[5u8; 32]);
    b.extend_from_slice(&[1, 50]);
    b.extend_from_slice(&[4u8; 32]);
    b.extend_from_slice(&[1, 40]);
    b.extend_from_slice(&[5u8; 32]);
    b.extend_from_slice(&[1, 51]);
    b.push(77);
    let (rest, d) = DatastoreDeserializer::new().deserialize(&b).unwrap();
    assert_eq!(rest, &[77]);
    assert_eq!(d.len(), 2);
    assert_eq!(d.entry_at(0), &(key(4), vec![40]));
    assert_eq!(d.entry_at(1), &(key(5), vec![51]));
    let mut out = Vec::new();
    DatastoreSerializer::new().serialize(&d, &mut out).unwrap();
    let mut expected = vec![2];
    expected.extend_from_slice(&[4u8; 32]);
    expected.extend_from_slice(&[1, 40]);
    expected.extend_from_slice(&[5u8; 32]);
    expected.extend_from_slice(&[1, 51]);
    assert_eq!(out, expected);
}

#[test]
fn ledger_entry_apply_update() {
    let mut e = sample_entry();
    let hello = Digest::compute_from("hello world".as_bytes());
    let mut changes = KeyMap::new();
    changes.insert(hello, SetOrDelete::Delete);
    changes.insert(key(8), SetOrDelete::Assign(vec![8, 8]));
    e.apply(LedgerEntryUpdate {
        parallel_balance: SetOrKeep::Assign(Amount::from_raw(5)),
        bytecode: SetOrKeep::Keep,
        datastore: changes,
    });
    assert_eq!(e.parallel_balance, Amount::from_raw(5));
    assert_eq!(e.bytecode, vec![1, 2, 3]);
    assert_eq!(e.datastore.get(&hello), None);
    assert_eq!(e.datastore.get(&key(8)), Some(&vec![8, 8]));
    e.apply(LedgerEntryUpdate {
        parallel_balance: SetOrKeep::Keep,
        bytecode: SetOrKeep::Assign(vec![4]),
        datastore: KeyMap::new(),
    });
    assert_eq!(e.parallel_balance, Amount::from_raw(5));
    assert_eq!(e.bytecode, vec![4]);
    assert_eq!(e.datastore.len(), 1);
}

#[test]
fn ledger_entry_copy_is_equal() {
    let e = sample_entry();
    assert_eq!(e.copy(), e);
    assert_eq!(e.clone(), e);
}
