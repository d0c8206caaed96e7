//! Unsigned variable-length integers: seven bits per byte, least significant
//! group first, the high bit of a byte set when another byte follows. Only
//! the shortest encoding of a value is accepted, and at most ten bytes.

use vstd::prelude::*;

verus! {

/// Largest number of bytes of an encoded `u64`.
pub const VARINT_MAX_BYTES: u32 = 10;

/// `128` to the power `k`.
pub open spec fn pow128(k: nat) -> nat
    decreases k,
{
    if k == 0 {
        1
    } else {
        128 * pow128((k - 1) as nat)
    }
}

/// The shortest encoding of `n`.
pub open spec fn varint_bytes(n: nat) -> Seq<u8>
    decreases n,
{
    if n < 128 {
        seq![n as u8]
    } else {
        seq![((n % 128) + 128) as u8] + varint_bytes(n / 128)
    }
}

/// The value encoded at the start of `b` and the number of bytes it takes,
/// reading at most `fuel` bytes; `None` where `b` does not start with the
/// shortest encoding of a value.
pub open spec fn varint_prefix(b: Seq<u8>, fuel: nat) -> Option<(nat, nat)>
    decreases fuel,
{
    if fuel == 0 || b.len() == 0 {
        None
    } else if b[0] < 128 {
        Some((b[0] as nat, 1))
    } else {
        match varint_prefix(b.drop_first(), (fuel - 1) as nat) {
            Some((v, k)) => if v > 0 {
                Some((((b[0] - 128) + 128 * v) as nat, k + 1))
            } else {
                None
            },
            None => None,
        }
    }
}

/// The `u64` encoded at the start of `b`, and the number of bytes it takes.
pub open spec fn varint_decode(b: Seq<u8>) -> Option<(u64, nat)> {
    match varint_prefix(b, VARINT_MAX_BYTES as nat) {
        Some((v, k)) => if v <= u64::MAX {
            Some((v as u64, k))
        } else {
            None
        },
        None => None,
    }
}

pub proof fn lemma_varint_bytes_len(n: nat)
    ensures
        varint_bytes(n).len() >= 1,
    decreases n,
{
    if n >= 128 {
        lemma_varint_bytes_len(n / 128);
    }
}

/// Decoding the encoding of `n`, followed by any bytes, gives back `n` and
/// the encoding's length.
pub proof fn lemma_varint_round_trip(n: nat, rest: Seq<u8>, fuel: nat)
    requires
        n < pow128(fuel),
        fuel >= 1,
    ensures
        varint_prefix(varint_bytes(n) + rest, fuel) == Some((n, varint_bytes(n).len())),
    decreases n,
{
    let b = varint_bytes(n) + rest;
    lemma_varint_bytes_len(n);
    if n < 128 {
        assert(b[0] == n as u8);
    } else {
        let t = n / 128;
        assert(pow128(fuel) == 128 * pow128((fuel - 1) as nat));
        assert(t < pow128((fuel - 1) as nat)) by (nonlinear_arith)
            requires
                n < 128 * pow128((fuel - 1) as nat),
                t == n / 128,
        ;
        if fuel == 1 {
            assert(pow128(0) == 1);
        }
        lemma_varint_round_trip(t, rest, (fuel - 1) as nat);
        assert(b.drop_first() =~= varint_bytes(t) + rest);
        assert(n == n % 128 + 128 * t);
    }
}

/// Whatever is decoded from `b` was written in its shortest encoding.
pub proof fn lemma_varint_canonical(b: Seq<u8>, fuel: nat)
    requires
        varint_prefix(b, fuel) is Some,
    ensures
        varint_prefix(b, fuel).unwrap().1 <= b.len(),
        b.subrange(0, varint_prefix(b, fuel).unwrap().1 as int) == varint_bytes(
            varint_prefix(b, fuel).unwrap().0,
        ),
    decreases fuel,
{
    if b[0] < 128 {
        assert(b.subrange(0, 1) =~= seq![b[0]]);
    } else {
        let t = b.drop_first();
        lemma_varint_canonical(t, (fuel - 1) as nat);
        let (v, k) = varint_prefix(t, (fuel - 1) as nat).unwrap();
        let n = ((b[0] - 128) + 128 * v) as nat;
        assert(n % 128 == b[0] - 128 && n / 128 == v) by (nonlinear_arith)
            requires
                n == (b[0] - 128) + 128 * v,
                0 <= b[0] - 128 < 128,
        ;
        assert(b.subrange(0, (k + 1) as int) =~= seq![b[0]] + t.subrange(0, k as int));
    }
}

/// Every `u64` fits in `VARINT_MAX_BYTES` bytes.
pub proof fn lemma_u64_fits()
    ensures
        u64::MAX < pow128(VARINT_MAX_BYTES as nat),
{
    reveal_with_fuel(pow128, 11);
}

/// Appends the encoding of `n` to `out`.
pub fn write_varint(n: u64, out: &mut Vec<u8>)
    ensures
        final(out)@ == old(out)@ + varint_bytes(n as nat),
{
    let mut m: u64 = n;
    while m >= 128
        invariant
            out@ + varint_bytes(m as nat) == old(out)@ + varint_bytes(n as nat),
        decreases m,
    {
        let ghost before = out@;
        out.push(((m % 128) + 128) as u8);
        assert(varint_bytes(m as nat) == seq![((m % 128) + 128) as u8] + varint_bytes((m / 128) as nat));
        assert(out@ + varint_bytes((m / 128) as nat) =~= before + varint_bytes(m as nat));
        m = m / 128;
    }
    assert(varint_bytes(m as nat) == seq![m as u8]);
    out.push(m as u8);
}

fn read_varint_rec(b: &[u8], pos: usize, fuel: u32) -> (r: Option<(u64, usize)>)
    requires
        pos <= b@.len(),
    ensures
        r == (match varint_prefix(b@.subrange(pos as int, b@.len() as int), fuel as nat) {
            Some((v, k)) => if v <= u64::MAX {
                Some((v as u64, k as usize))
            } else {
                None
            },
            None => None,
        }),
        r matches Some((v, k)) ==> 1 <= k <= b@.len() - pos,
    decreases fuel,
{
    let ghost s = b@.subrange(pos as int, b@.len() as int);
    if fuel == 0 || pos >= b.len() {
        return None;
    }
    let x = b[pos];
    if x < 128 {
        assert(s[0] == x);
        return Some((x as u64, 1));
    }
    assert(s.drop_first() =~= b@.subrange(pos + 1, b@.len() as int));
    let lo = (x - 128) as u64;
    proof {
        if varint_prefix(s.drop_first(), (fuel - 1) as nat) is Some {
            lemma_varint_canonical(s.drop_first(), (fuel - 1) as nat);
        }
    }
    match read_varint_rec(b, pos + 1, fuel - 1) {
        Some((v, k)) => {
            if v > 0 && v <= (u64::MAX - lo) / 128 {
                assert(lo + 128 * v <= u64::MAX) by (nonlinear_arith)
                    requires
                        v <= (u64::MAX - lo) / 128,
                        lo <= 127,
                ;
                Some((lo + 128 * v, k + 1))
            } else {
                assert(v > 0 ==> lo + 128 * v > u64::MAX) by (nonlinear_arith)
                    requires
                        !(v <= (u64::MAX - lo) / 128) || v == 0,
                        lo <= 127,
                ;
                None
            }
        },
        None => {
            proof {
                match varint_prefix(s.drop_first(), (fuel - 1) as nat) {
                    Some((v, k)) => {
                        assert(v > u64::MAX);
                        assert(v > 0 ==> (x - 128) + 128 * v > u64::MAX) by (nonlinear_arith)
                            requires
                                v > u64::MAX,
                        ;
                    },
                    None => {},
                }
            }
            None
        },
    }
}

/// Reads the `u64` encoded at position `pos` of `b`, with the number of bytes
/// it takes.
pub fn read_varint(b: &[u8], pos: usize) -> (r: Option<(u64, usize)>)
    requires
        pos <= b@.len(),
    ensures
        r == (match varint_decode(b@.subrange(pos as int, b@.len() as int)) {
            Some((v, k)) => Some((v, k as usize)),
            None => None,
        }),
        r matches Some((v, k)) ==> 1 <= k <= b@.len() - pos,
{
    read_varint_rec(b, pos, VARINT_MAX_BYTES)
}

} // verus!
