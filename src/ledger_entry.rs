//! The entry that the ledger holds for an address, and its binary form.

use vstd::prelude::*;
use crate::amount::{Amount, amount_bytes, amount_field, AmountDeserializer};
use crate::hash::{Digest, HASH_SIZE_BYTES, bytes_lt, hash_lt};
use crate::key_map::{KeyMap, lookup, last_value, keys_ascending};
use crate::serialization::{
    Bound, DeserializeError, SerializeError, VecU8Deserializer, append_bytes, bytes_field,
    bytes_field_value, u64_field, U64VarIntDeserializer,
};
use crate::varint::{varint_bytes, write_varint};
use crate::ledger_changes::{LedgerEntryUpdate, datastore_after};
use crate::types::{SetOrDelete, SetOrKeep, set_or_keep_result};

verus! {

/// Key-value store of a ledger entry, ascending by key.
pub type Datastore = KeyMap<Vec<u8>>;

/// Keys and values of a datastore as byte strings, in key order.
pub open spec fn datastore_view(d: Datastore) -> Seq<(Seq<u8>, Seq<u8>)> {
    d@.map_values(|p: (Digest, Vec<u8>)| (p.0.0@, p.1@))
}

/// The bytes of the value held under `k`.
pub open spec fn lookup_bytes(d: Datastore, k: Digest) -> Option<Seq<u8>> {
    match lookup(d@, k) {
        Some(v) => Some(v@),
        None => None,
    }
}

/// Keys strictly ascending, byte strings compared lexicographically.
pub open spec fn byte_keys_ascending(s: Seq<(Seq<u8>, Seq<u8>)>) -> bool {
    forall|i: int, j: int| 0 <= i < j < s.len() ==> bytes_lt(#[trigger] s[i].0, #[trigger] s[j].0)
}

/// Entry that the ledger holds for an address.
#[derive(Clone, Debug, PartialEq, Eq)]
pub struct LedgerEntry {
    /// Coins usable by smart-contract execution.
    pub parallel_balance: Amount,
    /// Executable bytecode.
    pub bytecode: Vec<u8>,
    /// Key-value store of the address.
    pub datastore: Datastore,
}

/// Balance, bytecode, and datastore entries in key order.
pub type LedgerEntryView = (Amount, Seq<u8>, Seq<(Seq<u8>, Seq<u8>)>);

impl View for LedgerEntry {
    type V = LedgerEntryView;

    open spec fn view(&self) -> LedgerEntryView {
        (self.parallel_balance, self.bytecode@, datastore_view(self.datastore))
    }
}

/// What every ledger entry's view satisfies: 32-byte keys in ascending order,
/// and lengths that fit in a `u64`.
pub open spec fn ledger_entry_view_wf(v: LedgerEntryView) -> bool {
    &&& byte_keys_ascending(v.2)
    &&& v.1.len() <= u64::MAX
    &&& v.2.len() <= u64::MAX
    &&& forall|i: int| 0 <= i < v.2.len() ==> (#[trigger] v.2[i]).0.len() == 32 && v.2[i].1.len() <= u64::MAX
}

/// The binary form of a datastore entry: key bytes, then value length and bytes.
pub open spec fn entry_bytes(p: (Seq<u8>, Seq<u8>)) -> Seq<u8> {
    p.0 + bytes_field(p.1)
}

/// The binary forms of the entries, one after another.
pub open spec fn entries_bytes(s: Seq<(Seq<u8>, Seq<u8>)>) -> Seq<u8>
    decreases s.len(),
{
    if s.len() == 0 {
        Seq::empty()
    } else {
        entries_bytes(s.drop_last()) + entry_bytes(s.last())
    }
}

/// The binary form of a datastore: entry count, then entries in key order.
pub open spec fn datastore_bytes(s: Seq<(Seq<u8>, Seq<u8>)>) -> Seq<u8> {
    varint_bytes(s.len()) + entries_bytes(s)
}

/// The binary form of a ledger entry: balance, bytecode, datastore.
pub open spec fn ledger_entry_bytes(v: LedgerEntryView) -> Seq<u8> {
    amount_bytes(v.0) + bytes_field(v.1) + datastore_bytes(v.2)
}

/// Lowest bound of every length and count of the binary form.
pub open spec fn full_min() -> Bound {
    Bound::Included(0)
}

/// Highest bound of every length and count of the binary form.
pub open spec fn full_max() -> Bound {
    Bound::Included(u64::MAX)
}

/// What reading a datastore entry at the start of `b` gives, with its length.
pub open spec fn entry_field(b: Seq<u8>) -> Result<((Seq<u8>, Seq<u8>), nat), DeserializeError> {
    if b.len() < 32 {
        Err(DeserializeError::Truncated)
    } else {
        match bytes_field_value(b.subrange(32, b.len() as int), full_min(), full_max()) {
            Ok((v, j)) => Ok(((b.subrange(0, 32), v), 32 + j)),
            Err(e) => Err(e),
        }
    }
}

/// What reading `n` datastore entries at the start of `b` gives, in the order
/// read, with their length.
pub open spec fn entries_field(b: Seq<u8>, n: nat) -> Result<(Seq<(Seq<u8>, Seq<u8>)>, nat), DeserializeError>
    decreases n,
{
    if n == 0 {
        Ok((Seq::empty(), 0))
    } else {
        match entries_field(b, (n - 1) as nat) {
            Err(e) => Err(e),
            Ok((l, k)) => if k <= b.len() {
                match entry_field(b.subrange(k as int, b.len() as int)) {
                    Err(e) => Err(e),
                    Ok((p, j)) => Ok((l.push(p), k + j)),
                }
            } else {
                Err(DeserializeError::Truncated)
            },
        }
    }
}

/// What reading a datastore at the start of `b` gives: its entries in the
/// order read, and its length.
pub open spec fn datastore_field(b: Seq<u8>) -> Result<(Seq<(Seq<u8>, Seq<u8>)>, nat), DeserializeError> {
    match u64_field(b, full_min(), full_max()) {
        Err(e) => Err(e),
        Ok((n, k)) => if k <= b.len() {
            match entries_field(b.subrange(k as int, b.len() as int), n as nat) {
                Ok((l, j)) => Ok((l, k + j)),
                Err(e) => Err(e),
            }
        } else {
            Err(DeserializeError::Truncated)
        },
    }
}

/// What reading a ledger entry at the start of `b` gives: balance, bytecode
/// and datastore entries in the order read, and its length.
pub open spec fn ledger_entry_field(b: Seq<u8>) -> Result<(LedgerEntryView, nat), DeserializeError> {
    match amount_field(b, full_min(), full_max()) {
        Err(e) => Err(e),
        Ok((a, k1)) => if k1 <= b.len() {
            let b1 = b.subrange(k1 as int, b.len() as int);
            match bytes_field_value(b1, full_min(), full_max()) {
                Err(e) => Err(e),
                Ok((code, k2)) => if k2 <= b1.len() {
                    match datastore_field(b1.subrange(k2 as int, b1.len() as int)) {
                        Err(e) => Err(e),
                        Ok((l, k3)) => Ok(((a, code, l), k1 + k2 + k3)),
                    }
                } else {
                    Err(DeserializeError::Truncated)
                },
            }
        } else {
            Err(DeserializeError::Truncated)
        },
    }
}

/// A datastore holds, under each key, the last value that a sequence of
/// entries gives it; and, when the sequence is ascending by key, exactly that
/// sequence.
pub open spec fn datastore_built_from(d: Datastore, l: Seq<(Seq<u8>, Seq<u8>)>) -> bool {
    &&& forall|k: Digest| #[trigger] lookup_bytes(d, k) == last_value(l, k.0@)
    &&& byte_keys_ascending(l) ==> datastore_view(d) == l
}

proof fn lemma_entries_field_len(b: Seq<u8>, n: nat)
    requires
        entries_field(b, n) is Ok,
    ensures
        entries_field(b, n).unwrap().1 <= b.len(),
        entries_field(b, n).unwrap().0.len() == n,
    decreases n,
{
    if n > 0 {
        lemma_entries_field_len(b, (n - 1) as nat);
        let (l, k) = entries_field(b, (n - 1) as nat).unwrap();
        let t = b.subrange(k as int, b.len() as int);
        let (v, j) = bytes_field_value(t.subrange(32, t.len() as int), full_min(), full_max()).unwrap();
    }
}

proof fn lemma_entries_field_err(b: Seq<u8>, i: nat, n: nat)
    requires
        i <= n,
        entries_field(b, i) is Err,
    ensures
        entries_field(b, n) == entries_field(b, i),
    decreases n,
{
    if n > i {
        lemma_entries_field_err(b, i, (n - 1) as nat);
    }
}

/// The digest whose bytes stand at `pos` of `b`.
fn read_digest_at(b: &[u8], pos: usize) -> (r: Digest)
    requires
        pos + 32 <= b@.len(),
    ensures
        r.0@ == b@.subrange(pos as int, pos + 32),
{
    let n = b.len();
    let mut bytes: [u8; 32] = [0u8; 32];
    let mut i: usize = 0;
    while i < HASH_SIZE_BYTES
        invariant
            i <= 32,
            n == b@.len(),
            pos + 32 <= b@.len(),
            bytes@.len() == 32,
            forall|j: int| 0 <= j < i ==> bytes@[j] == b@[pos + j],
        decreases 32 - i,
    {
        bytes[i] = b[pos + i];
        i += 1;
    }
    assert(bytes@ =~= b@.subrange(pos as int, pos + 32));
    Digest(bytes)
}

proof fn lemma_entries_round_trip(l: Seq<(Seq<u8>, Seq<u8>)>, rest: Seq<u8>)
    requires
        forall|i: int| 0 <= i < l.len() ==> (#[trigger] l[i]).0.len() == 32 && l[i].1.len() <= u64::MAX,
    ensures
        entries_field(entries_bytes(l) + rest, l.len()) == Ok::<(Seq<(Seq<u8>, Seq<u8>)>, nat), DeserializeError>(
            (l, entries_bytes(l).len()),
        ),
    decreases l.len(),
{
    let b = entries_bytes(l) + rest;
    if l.len() > 0 {
        let init = l.drop_last();
        let last = l.last();
        assert forall|i: int| 0 <= i < init.len() implies (#[trigger] init[i]).0.len() == 32 && init[i].1.len() <= u64::MAX by {
            assert(init[i] == l[i]);
        }
        assert(b =~= entries_bytes(init) + (entry_bytes(last) + rest));
        lemma_entries_round_trip(init, entry_bytes(last) + rest);
        let k = entries_bytes(init).len();
        let t = b.subrange(k as int, b.len() as int);
        assert(t =~= entry_bytes(last) + rest);
        assert(t.subrange(32, t.len() as int) =~= bytes_field(last.1) + rest);
        assert(t.subrange(0, 32) =~= last.0);
        crate::serialization::lemma_bytes_field_round_trip(last.1, rest, full_min(), full_max());
        assert(l =~= init.push(last));
        assert(entries_bytes(l).len() == k + entry_bytes(last).len());
    } else {
        assert(l =~= Seq::<(Seq<u8>, Seq<u8>)>::empty());
    }
}

proof fn lemma_entries_canonical(b: Seq<u8>, n: nat)
    requires
        entries_field(b, n) is Ok,
    ensures
        entries_field(b, n).unwrap().1 <= b.len(),
        b.subrange(0, entries_field(b, n).unwrap().1 as int) == entries_bytes(entries_field(b, n).unwrap().0),
    decreases n,
{
    if n == 0 {
        assert(b.subrange(0, 0) =~= Seq::<u8>::empty());
    } else {
        lemma_entries_canonical(b, (n - 1) as nat);
        let (l, k) = entries_field(b, (n - 1) as nat).unwrap();
        let t = b.subrange(k as int, b.len() as int);
        let u = t.subrange(32, t.len() as int);
        crate::serialization::lemma_bytes_field_canonical(u, full_min(), full_max());
        let (p, j) = entry_field(t).unwrap();
        let (v, jv) = bytes_field_value(u, full_min(), full_max()).unwrap();
        assert(l.push(p).drop_last() =~= l);
        assert(b.subrange(0, (k + j) as int) =~= b.subrange(0, k as int) + (t.subrange(0, 32) + u.subrange(0, jv as int)));
    }
}

/// Reading back the binary form of a datastore, whatever follows it, gives
/// its entries and the length of the binary form.
pub proof fn lemma_datastore_round_trip(l: Seq<(Seq<u8>, Seq<u8>)>, rest: Seq<u8>)
    requires
        l.len() <= u64::MAX,
        forall|i: int| 0 <= i < l.len() ==> (#[trigger] l[i]).0.len() == 32 && l[i].1.len() <= u64::MAX,
    ensures
        datastore_field(datastore_bytes(l) + rest) == Ok::<(Seq<(Seq<u8>, Seq<u8>)>, nat), DeserializeError>(
            (l, datastore_bytes(l).len()),
        ),
{
    let b = datastore_bytes(l) + rest;
    let h = varint_bytes(l.len());
    assert(b =~= h + (entries_bytes(l) + rest));
    crate::serialization::lemma_u64_field_round_trip(l.len() as u64, entries_bytes(l) + rest, full_min(), full_max());
    assert(b.subrange(h.len() as int, b.len() as int) =~= entries_bytes(l) + rest);
    lemma_entries_round_trip(l, rest);
}

/// Bytes that datastore entries are read from start with the binary form of
/// those entries, in the order read.
pub proof fn lemma_datastore_canonical(b: Seq<u8>)
    requires
        datastore_field(b) is Ok,
    ensures
        datastore_field(b).unwrap().1 <= b.len(),
        b.subrange(0, datastore_field(b).unwrap().1 as int) == datastore_bytes(datastore_field(b).unwrap().0),
{
    crate::serialization::lemma_u64_field_canonical(b, full_min(), full_max());
    let (n, k) = u64_field(b, full_min(), full_max()).unwrap();
    let t = b.subrange(k as int, b.len() as int);
    lemma_entries_canonical(t, n as nat);
    lemma_entries_field_len(t, n as nat);
    let (l, j) = entries_field(t, n as nat).unwrap();
    assert(b.subrange(0, (k + j) as int) =~= b.subrange(0, k as int) + t.subrange(0, j as int));
}

/// Decoding the binary form of a ledger entry gives back that entry:
/// reading it, whatever follows, yields the entry's balance, bytecode and
/// datastore entries, and the length of the binary form.
pub proof fn lemma_ledger_entry_round_trip(v: LedgerEntryView, rest: Seq<u8>)
    requires
        ledger_entry_view_wf(v),
    ensures
        ledger_entry_field(ledger_entry_bytes(v) + rest) == Ok::<(LedgerEntryView, nat), DeserializeError>(
            (v, ledger_entry_bytes(v).len()),
        ),
{
    let b = ledger_entry_bytes(v) + rest;
    let a = amount_bytes(v.0);
    let c = bytes_field(v.1);
    let d = datastore_bytes(v.2);
    assert(b =~= a + ((c + d) + rest));
    crate::amount::lemma_amount_round_trip(v.0, (c + d) + rest, full_min(), full_max());
    let b1 = b.subrange(a.len() as int, b.len() as int);
    assert(b1 =~= c + (d + rest));
    crate::serialization::lemma_bytes_field_round_trip(v.1, d + rest, full_min(), full_max());
    let b2 = b1.subrange(c.len() as int, b1.len() as int);
    assert(b2 =~= d + rest);
    lemma_datastore_round_trip(v.2, rest);
}

/// Encoding what was decoded gives back the bytes read: they start with the
/// binary form of the balance, bytecode and datastore entries read.
pub proof fn lemma_ledger_entry_canonical(b: Seq<u8>)
    requires
        ledger_entry_field(b) is Ok,
    ensures
        ledger_entry_field(b).unwrap().1 <= b.len(),
        b.subrange(0, ledger_entry_field(b).unwrap().1 as int) == ledger_entry_bytes(ledger_entry_field(b).unwrap().0),
{
    crate::amount::lemma_amount_canonical(b, full_min(), full_max());
    let (a, k1) = amount_field(b, full_min(), full_max()).unwrap();
    let b1 = b.subrange(k1 as int, b.len() as int);
    crate::serialization::lemma_bytes_field_canonical(b1, full_min(), full_max());
    let (code, k2) = bytes_field_value(b1, full_min(), full_max()).unwrap();
    let b2 = b1.subrange(k2 as int, b1.len() as int);
    lemma_datastore_canonical(b2);
    let (l, k3) = datastore_field(b2).unwrap();
    assert(b.subrange(0, (k1 + k2 + k3) as int) =~= b.subrange(0, k1 as int) + b1.subrange(0, k2 as int) + b2.subrange(0, k3 as int));
}

/// Reads the datastore at position `pos` of `buffer`; returns it with the
/// position that follows it.
pub fn read_datastore_at(buffer: &[u8], pos: usize) -> (r: Result<(Datastore, usize), DeserializeError>)
    requires
        pos <= buffer@.len(),
    ensures
        match datastore_field(buffer@.subrange(pos as int, buffer@.len() as int)) {
            Ok((l, k)) => pos + k <= buffer@.len() && (r matches Ok((d, p)) && p == pos + k
                && datastore_built_from(d, l)),
            Err(e) => r == Err::<(Datastore, usize), DeserializeError>(e),
        },
{
    let len = buffer.len();
    let ghost s = buffer@.subrange(pos as int, len as int);
    let count_reader = U64VarIntDeserializer::new(Bound::Included(0), Bound::Included(u64::MAX));
    let value_reader = VecU8Deserializer::new(Bound::Included(0), Bound::Included(u64::MAX));
    let (n, start) = match count_reader.read_at(buffer, pos) {
        Ok(x) => x,
        Err(e) => {
            return Err(e);
        },
    };
    let ghost sub = buffer@.subrange(start as int, len as int);
    assert(sub =~= s.subrange((start - pos) as int, s.len() as int));
    let mut m: Datastore = KeyMap::new();
    let mut p: usize = start;
    let mut i: u64 = 0;
    let ghost mut l: Seq<(Seq<u8>, Seq<u8>)> = Seq::empty();
    assert(datastore_view(m) =~= l);
    while i < n
        invariant
            len == buffer@.len(),
            pos < start <= p <= len,
            s == buffer@.subrange(pos as int, len as int),
            sub == s.subrange((start - pos) as int, s.len() as int),
            u64_field(s, full_min(), full_max()) == Ok::<(u64, nat), DeserializeError>((n, (start - pos) as nat)),
            sub == buffer@.subrange(start as int, len as int),
            i <= n,
            entries_field(sub, i as nat) == Ok::<(Seq<(Seq<u8>, Seq<u8>)>, nat), DeserializeError>((l, (p - start) as nat)),
            datastore_built_from(m, l),
            value_reader.len_deserializer.min == Bound::Included(0),
            value_reader.len_deserializer.max == Bound::Included(u64::MAX),
        decreases n - i,
    {
        let ghost t = sub.subrange((p - start) as int, sub.len() as int);
        assert(t =~= buffer@.subrange(p as int, len as int));
        if len - p < 32 {
            proof {
                lemma_entries_field_err(sub, (i + 1) as nat, n as nat);
            }
            return Err(DeserializeError::Truncated);
        }
        let key = read_digest_at(buffer, p);
        assert(t.subrange(32, t.len() as int) =~= buffer@.subrange(p + 32, len as int));
        assert(t.subrange(0, 32) =~= key.0@);
        let (value, q) = match value_reader.read_at(buffer, p + 32) {
            Ok(x) => x,
            Err(e) => {
                proof {
                    lemma_entries_field_err(sub, (i + 1) as nat, n as nat);
                }
                return Err(e);
            },
        };
        let ghost old_m = m;
        let ghost entry = (key.0@, value@);
        proof {
            if byte_keys_ascending(l.push(entry)) {
                assert(byte_keys_ascending(l)) by {
                    assert forall|a: int, b: int| 0 <= a < b < l.len() implies bytes_lt(#[trigger] l[a].0, #[trigger] l[b].0) by {
                        assert(l.push(entry)[a] == l[a] && l.push(entry)[b] == l[b]);
                    }
                }
                assert forall|j: int| 0 <= j < old_m@.len() implies hash_lt(#[trigger] old_m@[j].0, key) by {
                    assert(datastore_view(old_m)[j] == l[j]);
                    assert(l.push(entry)[j] == l[j]);
                    assert(l.push(entry)[l.len() as int] == entry);
                    assert(bytes_lt(l.push(entry)[j].0, l.push(entry)[l.len() as int].0));
                    assert(old_m@[j].0.0@ == l[j].0);
                }
            }
        }
        m.insert(key, value);
        proof {
            let l2 = l.push(entry);
            assert forall|k: Digest| #[trigger] lookup_bytes(m, k) == last_value(l2, k.0@) by {
                assert(l2.drop_last() =~= l);
                if k == key {
                } else {
                    if k.0@ == key.0@ {
                        crate::hash::lemma_hash_eq(k, key);
                    }
                    assert(lookup_bytes(old_m, k) == last_value(l, k.0@));
                }
            }
            if byte_keys_ascending(l2) {
                assert(byte_keys_ascending(l)) by {
                    assert forall|a: int, b: int| 0 <= a < b < l.len() implies bytes_lt(#[trigger] l[a].0, #[trigger] l[b].0) by {
                        assert(l2[a] == l[a] && l2[b] == l[b]);
                    }
                }
                assert(datastore_view(m) =~= l2);
            }
            l = l2;
        }
        p = q;
        i = i + 1;
    }
    proof {
        lemma_entries_field_len(sub, n as nat);
    }
    Ok((m, p))
}

/// A ledger entry holds the balance and bytecode of `v`, and the datastore
/// built from its entries.
pub open spec fn ledger_entry_built_from(e: LedgerEntry, v: LedgerEntryView) -> bool {
    &&& e.parallel_balance == v.0
    &&& e.bytecode@ == v.1
    &&& datastore_built_from(e.datastore, v.2)
}

/// Reads the ledger entry at position `pos` of `buffer`; returns it with the
/// position that follows it.
pub fn read_ledger_entry_at(buffer: &[u8], pos: usize) -> (r: Result<(LedgerEntry, usize), DeserializeError>)
    requires
        pos <= buffer@.len(),
    ensures
        match ledger_entry_field(buffer@.subrange(pos as int, buffer@.len() as int)) {
            Ok((v, k)) => pos + k <= buffer@.len() && (r matches Ok((e, p)) && p == pos + k
                && ledger_entry_built_from(e, v)),
            Err(e) => r == Err::<(LedgerEntry, usize), DeserializeError>(e),
        },
{
    let len = buffer.len();
    let ghost s = buffer@.subrange(pos as int, len as int);
    let amount_reader = AmountDeserializer::new(Bound::Included(0), Bound::Included(u64::MAX));
    let bytes_reader = VecU8Deserializer::new(Bound::Included(0), Bound::Included(u64::MAX));
    let (balance, at_code) = match amount_reader.read_at(buffer, pos) {
        Ok(x) => x,
        Err(e) => {
            return Err(e);
        },
    };
    let ghost s1 = s.subrange((at_code - pos) as int, s.len() as int);
    assert(s1 =~= buffer@.subrange(at_code as int, len as int));
    let (bytecode, at_store) = match bytes_reader.read_at(buffer, at_code) {
        Ok(x) => x,
        Err(e) => {
            return Err(e);
        },
    };
    let ghost s2 = s1.subrange((at_store - at_code) as int, s1.len() as int);
    assert(s2 =~= buffer@.subrange(at_store as int, len as int));
    let (datastore, end) = match read_datastore_at(buffer, at_store) {
        Ok(x) => x,
        Err(e) => {
            return Err(e);
        },
    };
    Ok((LedgerEntry { parallel_balance: balance, bytecode, datastore }, end))
}

/// Appends the binary form of the datastore `d` to `out`.
pub fn write_datastore(d: &Datastore, out: &mut Vec<u8>)
    ensures
        final(out)@ == old(out)@ + datastore_bytes(datastore_view(*d)),
{
    let ghost view = datastore_view(*d);
    let n = d.len();
    write_varint(n as u64, out);
    let mut i: usize = 0;
    assert(view.take(0) =~= Seq::<(Seq<u8>, Seq<u8>)>::empty());
    while i < n
        invariant
            n == d@.len(),
            view == datastore_view(*d),
            i <= n,
            out@ == old(out)@ + varint_bytes(n as nat) + entries_bytes(view.take(i as int)),
        decreases n - i,
    {
        let entry = d.entry_at(i);
        let ghost before = out@;
        append_bytes(out, entry.0.0.as_slice());
        let len = entry.1.len() as u64;
        write_varint(len, out);
        append_bytes(out, entry.1.as_slice());
        assert(view.take(i + 1).drop_last() =~= view.take(i as int));
        assert(view.take(i + 1).last() == (entry.0.0@, entry.1@));
        assert(out@ =~= before + entry_bytes((entry.0.0@, entry.1@)));
        i += 1;
    }
    assert(view.take(n as int) =~= view);
}

/// Appends the binary form of the ledger entry `e` to `out`.
pub fn write_ledger_entry(e: &LedgerEntry, out: &mut Vec<u8>)
    ensures
        final(out)@ == old(out)@ + ledger_entry_bytes(e@),
{
    write_varint(e.parallel_balance.0, out);
    write_varint(e.bytecode.len() as u64, out);
    append_bytes(out, e.bytecode.as_slice());
    let ghost mid = out@;
    write_datastore(&e.datastore, out);
    assert(final(out)@ =~= old(out)@ + ledger_entry_bytes(e@));
}

/// A copy of `v`.
pub fn copy_bytes(v: &Vec<u8>) -> (r: Vec<u8>)
    ensures
        r@ == v@,
{
    vstd::slice::slice_to_vec(v.as_slice())
}

/// A copy of the datastore `d`.
pub fn copy_datastore(d: &Datastore) -> (r: Datastore)
    ensures
        datastore_view(r) == datastore_view(*d),
        forall|k: Digest| #[trigger] lookup_bytes(r, k) == lookup_bytes(*d, k),
{
    d.is_ascending();
    let mut r: Datastore = KeyMap::new();
    let n = d.len();
    let mut i: usize = 0;
    while i < n
        invariant
            n == d@.len(),
            i <= n,
            crate::key_map::keys_ascending(d@),
            datastore_view(r) == datastore_view(*d).take(i as int),
            r@.len() == i,
            forall|j: int| 0 <= j < i ==> (#[trigger] r@[j]).0 == d@[j].0,
        decreases n - i,
    {
        let entry = d.entry_at(i);
        let v = copy_bytes(&entry.1);
        let ghost old_r = r@;
        proof {
            assert forall|j: int| 0 <= j < old_r.len() implies hash_lt(#[trigger] old_r[j].0, entry.0) by {
                assert(old_r[j].0 == d@[j].0);
            }
        }
        r.insert(entry.0, v);
        assert(r@ == old_r.push((entry.0, v)));
        assert(datastore_view(r) =~= datastore_view(*d).take(i + 1));
        i += 1;
    }
    assert(datastore_view(*d).take(n as int) =~= datastore_view(*d));
    r.is_ascending();
    proof {
        assert forall|k: Digest| #[trigger] lookup_bytes(r, k) == lookup_bytes(*d, k) by {
            lemma_lookup_bytes_view(r, k);
            lemma_lookup_bytes_view(*d, k);
        }
    }
    r
}

/// What the datastore holds under a key depends on its entries' bytes alone.
proof fn lemma_lookup_bytes_view(d: Datastore, k: Digest)
    requires
        crate::key_map::keys_unique(d@),
    ensures
        lookup_bytes(d, k) == lookup(datastore_view(d), k.0@),
{
    lemma_lookup_mapped(d@, k);
}

proof fn lemma_lookup_mapped(s: Seq<(Digest, Vec<u8>)>, k: Digest)
    ensures
        (match lookup(s, k) {
            Some(v) => Some(v@),
            None => None::<Seq<u8>>,
        }) == lookup(s.map_values(|p: (Digest, Vec<u8>)| (p.0.0@, p.1@)), k.0@),
    decreases s.len(),
{
    let t = s.map_values(|p: (Digest, Vec<u8>)| (p.0.0@, p.1@));
    if s.len() > 0 {
        if s[0].0 != k && s[0].0.0@ == k.0@ {
            crate::hash::lemma_hash_eq(s[0].0, k);
        }
        assert(t.drop_first() =~= s.drop_first().map_values(|p: (Digest, Vec<u8>)| (p.0.0@, p.1@)));
        lemma_lookup_mapped(s.drop_first(), k);
    }
}

impl LedgerEntry {
    /// An entry with no coins, no bytecode and an empty datastore.
    pub fn new_empty() -> (r: LedgerEntry)
        ensures
            r@ == (Amount(0), Seq::<u8>::empty(), Seq::<(Seq<u8>, Seq<u8>)>::empty()),
            r.datastore@ == Seq::<(Digest, Vec<u8>)>::empty(),
    {
        let r = LedgerEntry { parallel_balance: Amount(0), bytecode: Vec::new(), datastore: KeyMap::new() };
        assert(datastore_view(r.datastore) =~= Seq::<(Seq<u8>, Seq<u8>)>::empty());
        r
    }

    /// A copy of the entry.
    pub fn copy(&self) -> (r: LedgerEntry)
        ensures
            r@ == self@,
            forall|k: Digest| #[trigger] lookup_bytes(r.datastore, k) == lookup_bytes(self.datastore, k),
    {
        LedgerEntry {
            parallel_balance: self.parallel_balance,
            bytecode: copy_bytes(&self.bytecode),
            datastore: copy_datastore(&self.datastore),
        }
    }

    /// Applies `update`: new balance and bytecode where it gives them, and its
    /// datastore changes, key by key.
    pub fn apply(&mut self, update: LedgerEntryUpdate)
        ensures
            final(self).parallel_balance == set_or_keep_result(update.parallel_balance, old(self).parallel_balance),
            final(self).bytecode@ == (match update.bytecode {
                SetOrKeep::Assign(v) => v@,
                SetOrKeep::Keep => old(self).bytecode@,
            }),
            forall|k: Digest| #[trigger] lookup_bytes(final(self).datastore, k) == datastore_after(update.datastore, old(self).datastore, k),
    {
        let LedgerEntryUpdate { parallel_balance, bytecode, datastore } = update;
        parallel_balance.apply_to(&mut self.parallel_balance);
        let ghost old_code = self.bytecode@;
        match bytecode {
            SetOrKeep::Assign(v) => {
                self.bytecode = v;
            },
            SetOrKeep::Keep => {},
        }
        datastore.is_ascending();
        let ghost d0 = self.datastore;
        let ghost balance = self.parallel_balance;
        let ghost code = self.bytecode@;
        let n = datastore.len();
        let mut i: usize = 0;
        while i < n
            invariant
                n == datastore@.len(),
                i <= n,
                crate::key_map::keys_unique(datastore@),
                self.parallel_balance == balance,
                self.bytecode@ == code,
                forall|k: Digest| #[trigger] lookup_bytes(self.datastore, k) == (if exists|j: int| 0 <= j < i && datastore@[j].0 == k {
                    datastore_after(datastore, d0, k)
                } else {
                    lookup_bytes(d0, k)
                }),
            decreases n - i,
        {
            let entry = datastore.entry_at(i);
            let ghost before = self.datastore;
            proof {
                crate::key_map::lemma_lookup_at(datastore@, i as int);
            }
            match &entry.1 {
                SetOrDelete::Assign(v) => {
                    let w = copy_bytes(v);
                    self.datastore.insert(entry.0, w);
                },
                SetOrDelete::Delete => {
                    self.datastore.remove(&entry.0);
                },
            }
            proof {
                assert forall|k: Digest| #[trigger] lookup_bytes(self.datastore, k) == (if exists|j: int| 0 <= j < i + 1 && datastore@[j].0 == k {
                    datastore_after(datastore, d0, k)
                } else {
                    lookup_bytes(d0, k)
                }) by {
                    if k == entry.0 {
                    } else {
                        assert(lookup_bytes(self.datastore, k) == lookup_bytes(before, k));
                        if exists|j: int| 0 <= j < i + 1 && datastore@[j].0 == k {
                            let j = choose|j: int| 0 <= j < i + 1 && datastore@[j].0 == k;
                            assert(j < i);
                        }
                    }
                }
            }
            i += 1;
        }
        proof {
            assert forall|k: Digest| #[trigger] lookup_bytes(self.datastore, k) == datastore_after(datastore, d0, k) by {
                if exists|j: int| 0 <= j < n && datastore@[j].0 == k {
                } else {
                    crate::key_map::lemma_lookup_absent(datastore@, k);
                }
            }
        }
    }

    /// The binary form of the entry.
    pub fn to_bytes_compact(&self) -> (r: Result<Vec<u8>, SerializeError>)
        ensures
            r matches Ok(v) && v@ == ledger_entry_bytes(self@),
    {
        let mut out: Vec<u8> = Vec::new();
        write_ledger_entry(self, &mut out);
        assert(out@ =~= ledger_entry_bytes(self@));
        Ok(out)
    }

    /// Reads an entry at the start of `buffer`; returns it with the number of
    /// bytes it takes.
    pub fn from_bytes_compact(buffer: &[u8]) -> (r: Result<(LedgerEntry, usize), DeserializeError>)
        ensures
            match ledger_entry_field(buffer@) {
                Ok((v, k)) => r matches Ok((e, p)) && p == k && ledger_entry_built_from(e, v),
                Err(e) => r == Err::<(LedgerEntry, usize), DeserializeError>(e),
            },
    {
        assert(buffer@.subrange(0, buffer@.len() as int) =~= buffer@);
        read_ledger_entry_at(buffer, 0)
    }
}

/// Writes datastores in binary form.
pub struct DatastoreSerializer;

impl DatastoreSerializer {
    /// A datastore serializer.
    pub fn new() -> (r: DatastoreSerializer) {
        DatastoreSerializer
    }

    /// Appends the binary form of `value` to `buffer`.
    pub fn serialize(&self, value: &Datastore, buffer: &mut Vec<u8>) -> (r: Result<(), SerializeError>)
        ensures
            r is Ok,
            final(buffer)@ == old(buffer)@ + datastore_bytes(datastore_view(*value)),
    {
        write_datastore(value, buffer);
        Ok(())
    }
}

/// Reads datastores in binary form.
pub struct DatastoreDeserializer;

impl DatastoreDeserializer {
    /// A datastore deserializer.
    pub fn new() -> (r: DatastoreDeserializer) {
        DatastoreDeserializer
    }

    /// Reads the datastore at the start of `buffer`; returns the bytes that
    /// follow it, and the datastore.
    pub fn deserialize<'a>(&self, buffer: &'a [u8]) -> (r: Result<(&'a [u8], Datastore), DeserializeError>)
        ensures
            match datastore_field(buffer@) {
                Ok((l, k)) => r matches Ok((rest, d)) && rest@ == buffer@.subrange(k as int, buffer@.len() as int)
                    && datastore_built_from(d, l),
                Err(e) => r == Err::<(&'a [u8], Datastore), DeserializeError>(e),
            },
    {
        assert(buffer@.subrange(0, buffer@.len() as int) =~= buffer@);
        match read_datastore_at(buffer, 0) {
            Ok((d, p)) => Ok((vstd::slice::slice_subrange(buffer, p, buffer.len()), d)),
            Err(e) => Err(e),
        }
    }
}

/// Writes ledger entries in binary form.
pub struct LedgerEntrySerializer;

impl LedgerEntrySerializer {
    /// A ledger entry serializer.
    pub fn new() -> (r: LedgerEntrySerializer) {
        LedgerEntrySerializer
    }

    /// Appends the binary form of `value` to `buffer`.
    pub fn serialize(&self, value: &LedgerEntry, buffer: &mut Vec<u8>) -> (r: Result<(), SerializeError>)
        ensures
            r is Ok,
            final(buffer)@ == old(buffer)@ + ledger_entry_bytes(value@),
    {
        write_ledger_entry(value, buffer);
        Ok(())
    }
}

impl Default for LedgerEntrySerializer {
    fn default() -> (r: LedgerEntrySerializer) {
        LedgerEntrySerializer::new()
    }
}

/// Reads ledger entries in binary form.
pub struct LedgerEntryDeserializer;

impl LedgerEntryDeserializer {
    /// A ledger entry deserializer.
    pub fn new() -> (r: LedgerEntryDeserializer) {
        LedgerEntryDeserializer
    }

    /// Reads the entry at the start of `buffer`; returns the bytes that follow
    /// it, and the entry.
    pub fn deserialize<'a>(&self, buffer: &'a [u8]) -> (r: Result<(&'a [u8], LedgerEntry), DeserializeError>)
        ensures
            match ledger_entry_field(buffer@) {
                Ok((v, k)) => r matches Ok((rest, e)) && rest@ == buffer@.subrange(k as int, buffer@.len() as int)
                    && ledger_entry_built_from(e, v),
                Err(e) => r == Err::<(&'a [u8], LedgerEntry), DeserializeError>(e),
            },
    {
        assert(buffer@.subrange(0, buffer@.len() as int) =~= buffer@);
        match read_ledger_entry_at(buffer, 0) {
            Ok((e, p)) => Ok((vstd::slice::slice_subrange(buffer, p, buffer.len()), e)),
            Err(e) => Err(e),
        }
    }
}

impl Default for LedgerEntryDeserializer {
    fn default() -> (r: LedgerEntryDeserializer) {
        LedgerEntryDeserializer::new()
    }
}

} // verus!
