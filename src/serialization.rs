//! Bounded integer and byte-string encodings, the building blocks of the
//! binary formats of amounts and ledger entries.

use vstd::prelude::*;
use crate::varint::{varint_bytes, varint_decode, write_varint, read_varint};

verus! {

/// One end of a range of integers.
#[derive(Clone, Copy, Debug, PartialEq, Eq, Structural)]
pub enum Bound {
    Included(u64),
    Excluded(u64),
    Unbounded,
}

/// Whether `v` lies within the range from `min` to `max`.
pub open spec fn in_range(v: u64, min: Bound, max: Bound) -> bool {
    (match min {
        Bound::Included(m) => v >= m,
        Bound::Excluded(m) => v > m,
        Bound::Unbounded => true,
    }) && (match max {
        Bound::Included(m) => v <= m,
        Bound::Excluded(m) => v < m,
        Bound::Unbounded => true,
    })
}

/// Whether `v` lies within the range from `min` to `max`.
pub fn range_contains(min: Bound, max: Bound, v: u64) -> (r: bool)
    ensures
        r == in_range(v, min, max),
{
    let above = match min {
        Bound::Included(m) => v >= m,
        Bound::Excluded(m) => v > m,
        Bound::Unbounded => true,
    };
    let below = match max {
        Bound::Included(m) => v <= m,
        Bound::Excluded(m) => v < m,
        Bound::Unbounded => true,
    };
    above && below
}

/// Why a value could not be written.
#[derive(Clone, Copy, Debug, PartialEq, Eq, Structural)]
pub enum SerializeError {
    /// A number lies outside the range that the serializer accepts.
    NumberOutOfRange,
}

/// Why bytes could not be read.
#[derive(Clone, Copy, Debug, PartialEq, Eq, Structural)]
pub enum DeserializeError {
    /// The bytes do not start with the shortest encoding of a `u64`.
    InvalidVarint,
    /// A number lies outside the range that the deserializer accepts.
    NumberOutOfRange,
    /// The bytes end before the value does.
    Truncated,
}

/// Appends `b` to `out`.
pub fn append_bytes(out: &mut Vec<u8>, b: &[u8])
    ensures
        final(out)@ == old(out)@ + b@,
{
    let mut i: usize = 0;
    while i < b.len()
        invariant
            i <= b@.len(),
            out@ == old(out)@ + b@.subrange(0, i as int),
        decreases b@.len() - i,
    {
        out.push(b[i]);
        assert(b@.subrange(0, i + 1) =~= b@.subrange(0, i as int).push(b@[i as int]));
        i += 1;
    }
    assert(b@.subrange(0, b@.len() as int) =~= b@);
}

/// The encoding of a byte string: its length, then its bytes.
pub open spec fn bytes_field(b: Seq<u8>) -> Seq<u8> {
    varint_bytes(b.len()) + b
}

/// Writes `u64` values as varints, within a range.
pub struct U64VarIntSerializer {
    pub min: Bound,
    pub max: Bound,
}

impl U64VarIntSerializer {
    /// A serializer for the values from `min` to `max`.
    pub fn new(min: Bound, max: Bound) -> (r: U64VarIntSerializer)
        ensures
            r.min == min,
            r.max == max,
    {
        U64VarIntSerializer { min, max }
    }

    /// Appends the encoding of `value` to `buffer`, or fails, writing nothing,
    /// when `value` lies outside the range.
    pub fn serialize(&self, value: &u64, buffer: &mut Vec<u8>) -> (r: Result<(), SerializeError>)
        ensures
            in_range(*value, self.min, self.max) ==> r is Ok && final(buffer)@ == old(buffer)@
                + varint_bytes(*value as nat),
            !in_range(*value, self.min, self.max) ==> r == Err::<(), SerializeError>(
                SerializeError::NumberOutOfRange,
            ) && final(buffer)@ == old(buffer)@,
    {
        if !range_contains(self.min, self.max, *value) {
            return Err(SerializeError::NumberOutOfRange);
        }
        write_varint(*value, buffer);
        Ok(())
    }
}

/// What reading a bounded `u64` from the start of `b` gives: the value and the
/// number of bytes it takes.
pub open spec fn u64_field(b: Seq<u8>, min: Bound, max: Bound) -> Result<(u64, nat), DeserializeError> {
    match varint_decode(b) {
        None => Err(DeserializeError::InvalidVarint),
        Some((v, k)) => if in_range(v, min, max) {
            Ok((v, k))
        } else {
            Err(DeserializeError::NumberOutOfRange)
        },
    }
}

/// Reads varint-encoded `u64` values within a range.
pub struct U64VarIntDeserializer {
    pub min: Bound,
    pub max: Bound,
}

impl U64VarIntDeserializer {
    /// A deserializer for the values from `min` to `max`.
    pub fn new(min: Bound, max: Bound) -> (r: U64VarIntDeserializer)
        ensures
            r.min == min,
            r.max == max,
    {
        U64VarIntDeserializer { min, max }
    }

    /// Reads the value at position `pos` of `buffer`; returns it with the
    /// position that follows it.
    pub fn read_at(&self, buffer: &[u8], pos: usize) -> (r: Result<(u64, usize), DeserializeError>)
        requires
            pos <= buffer@.len(),
        ensures
            match u64_field(buffer@.subrange(pos as int, buffer@.len() as int), self.min, self.max) {
                Ok((v, k)) => pos + k <= buffer@.len() && r == Ok::<(u64, usize), DeserializeError>((v, (pos + k) as usize)),
                Err(e) => r == Err::<(u64, usize), DeserializeError>(e),
            },
            r matches Ok((v, p)) ==> pos < p <= buffer@.len(),
    {
        let len = buffer.len();
        match read_varint(buffer, pos) {
            None => Err(DeserializeError::InvalidVarint),
            Some((v, k)) => {
                proof {
                    crate::varint::lemma_varint_canonical(
                        buffer@.subrange(pos as int, buffer@.len() as int),
                        crate::varint::VARINT_MAX_BYTES as nat,
                    );
                    crate::varint::lemma_varint_bytes_len(v as nat);
                }
                assert(pos + k <= len);
                if range_contains(self.min, self.max, v) {
                    Ok((v, pos + k))
                } else {
                    Err(DeserializeError::NumberOutOfRange)
                }
            },
        }
    }

    /// Reads the value at the start of `buffer`; returns the bytes that
    /// follow it, and the value.
    pub fn deserialize<'a>(&self, buffer: &'a [u8]) -> (r: Result<(&'a [u8], u64), DeserializeError>)
        ensures
            match u64_field(buffer@, self.min, self.max) {
                Ok((v, k)) => r matches Ok((rest, w)) && w == v && rest@ == buffer@.subrange(k as int, buffer@.len() as int),
                Err(e) => r == Err::<(&'a [u8], u64), DeserializeError>(e),
            },
    {
        assert(buffer@.subrange(0, buffer@.len() as int) =~= buffer@);
        match self.read_at(buffer, 0) {
            Ok((v, p)) => Ok((vstd::slice::slice_subrange(buffer, p, buffer.len()), v)),
            Err(e) => Err(e),
        }
    }
}

/// What reading a byte string at the start of `b` gives: its bytes and the
/// number of bytes its encoding takes.
pub open spec fn bytes_field_value(b: Seq<u8>, min: Bound, max: Bound) -> Result<(Seq<u8>, nat), DeserializeError> {
    match u64_field(b, min, max) {
        Err(e) => Err(e),
        Ok((n, k)) => if k + n <= b.len() {
            Ok((b.subrange(k as int, k + n), (k + n) as nat))
        } else {
            Err(DeserializeError::Truncated)
        },
    }
}

/// Reading back a written `u64`, whatever follows it, gives the value and the
/// length of its encoding.
pub proof fn lemma_u64_field_round_trip(v: u64, rest: Seq<u8>, min: Bound, max: Bound)
    requires
        in_range(v, min, max),
    ensures
        u64_field(varint_bytes(v as nat) + rest, min, max) == Ok::<(u64, nat), DeserializeError>(
            (v, varint_bytes(v as nat).len()),
        ),
{
    crate::varint::lemma_u64_fits();
    crate::varint::lemma_varint_round_trip(v as nat, rest, crate::varint::VARINT_MAX_BYTES as nat);
}

/// What a `u64` is read from was written as that value's encoding.
pub proof fn lemma_u64_field_canonical(b: Seq<u8>, min: Bound, max: Bound)
    requires
        u64_field(b, min, max) is Ok,
    ensures
        ({
            let (v, k) = u64_field(b, min, max).unwrap();
            k <= b.len() && b.subrange(0, k as int) == varint_bytes(v as nat)
        }),
{
    crate::varint::lemma_varint_canonical(b, crate::varint::VARINT_MAX_BYTES as nat);
}

/// Reading back a written byte string, whatever follows it, gives the string
/// and the length of its encoding.
pub proof fn lemma_bytes_field_round_trip(v: Seq<u8>, rest: Seq<u8>, min: Bound, max: Bound)
    requires
        v.len() <= u64::MAX,
        in_range(v.len() as u64, min, max),
    ensures
        bytes_field_value(bytes_field(v) + rest, min, max) == Ok::<(Seq<u8>, nat), DeserializeError>(
            (v, bytes_field(v).len()),
        ),
{
    let h = varint_bytes(v.len());
    let b = bytes_field(v) + rest;
    assert(b =~= h + (v + rest));
    lemma_u64_field_round_trip(v.len() as u64, v + rest, min, max);
    assert(b.subrange(h.len() as int, (h.len() + v.len()) as int) =~= v);
}

/// What a byte string is read from was written as that string's encoding.
pub proof fn lemma_bytes_field_canonical(b: Seq<u8>, min: Bound, max: Bound)
    requires
        bytes_field_value(b, min, max) is Ok,
    ensures
        ({
            let (v, k) = bytes_field_value(b, min, max).unwrap();
            k <= b.len() && b.subrange(0, k as int) == bytes_field(v)
        }),
{
    lemma_u64_field_canonical(b, min, max);
    let (n, j) = u64_field(b, min, max).unwrap();
    let (v, k) = bytes_field_value(b, min, max).unwrap();
    assert(b.subrange(0, k as int) =~= b.subrange(0, j as int) + v);
}

/// Writes byte strings as their length, within a range, then their bytes.
pub struct VecU8Serializer {
    pub len_serializer: U64VarIntSerializer,
}

impl VecU8Serializer {
    /// A serializer for byte strings whose length lies from `min` to `max`.
    pub fn new(min: Bound, max: Bound) -> (r: VecU8Serializer)
        ensures
            r.len_serializer.min == min,
            r.len_serializer.max == max,
    {
        VecU8Serializer { len_serializer: U64VarIntSerializer::new(min, max) }
    }

    /// Appends the encoding of `value` to `buffer`, or fails, writing nothing,
    /// when its length lies outside the range.
    pub fn serialize(&self, value: &Vec<u8>, buffer: &mut Vec<u8>) -> (r: Result<(), SerializeError>)
        ensures
            in_range(value@.len() as u64, self.len_serializer.min, self.len_serializer.max) ==> r is Ok
                && final(buffer)@ == old(buffer)@ + bytes_field(value@),
            !in_range(value@.len() as u64, self.len_serializer.min, self.len_serializer.max) ==> r
                == Err::<(), SerializeError>(SerializeError::NumberOutOfRange) && final(buffer)@ == old(buffer)@,
    {
        let n = value.len() as u64;
        let r = self.len_serializer.serialize(&n, buffer);
        match r {
            Ok(()) => {
                append_bytes(buffer, value.as_slice());
                assert(final(buffer)@ =~= old(buffer)@ + bytes_field(value@));
                Ok(())
            },
            Err(e) => Err(e),
        }
    }
}

/// Reads byte strings written as their length, within a range, then their bytes.
pub struct VecU8Deserializer {
    pub len_deserializer: U64VarIntDeserializer,
}

impl VecU8Deserializer {
    /// A deserializer for byte strings whose length lies from `min` to `max`.
    pub fn new(min: Bound, max: Bound) -> (r: VecU8Deserializer)
        ensures
            r.len_deserializer.min == min,
            r.len_deserializer.max == max,
    {
        VecU8Deserializer { len_deserializer: U64VarIntDeserializer::new(min, max) }
    }

    /// Reads the byte string at position `pos` of `buffer`; returns it with
    /// the position that follows it.
    pub fn read_at(&self, buffer: &[u8], pos: usize) -> (r: Result<(Vec<u8>, usize), DeserializeError>)
        requires
            pos <= buffer@.len(),
        ensures
            match bytes_field_value(
                buffer@.subrange(pos as int, buffer@.len() as int),
                self.len_deserializer.min,
                self.len_deserializer.max,
            ) {
                Ok((v, k)) => r matches Ok((w, p)) && w@ == v && p == pos + k,
                Err(e) => r == Err::<(Vec<u8>, usize), DeserializeError>(e),
            },
            r matches Ok((w, p)) ==> pos < p <= buffer@.len(),
    {
        let ghost s = buffer@.subrange(pos as int, buffer@.len() as int);
        match self.len_deserializer.read_at(buffer, pos) {
            Err(e) => Err(e),
            Ok((n, p)) => {
                if n > (buffer.len() - p) as u64 {
                    return Err(DeserializeError::Truncated);
                }
                let end = p + n as usize;
                let v = vstd::slice::slice_to_vec(vstd::slice::slice_subrange(buffer, p, end));
                assert(v@ =~= s.subrange((p - pos) as int, (end - pos) as int));
                Ok((v, end))
            },
        }
    }
}

} // verus!
