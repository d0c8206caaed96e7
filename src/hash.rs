//! Fixed-width digests, used as datastore keys and as addresses.

use vstd::prelude::*;

verus! {

/// Number of bytes of a digest.
pub const HASH_SIZE_BYTES: usize = 32;

/// A 32-byte digest.
#[derive(Clone, Copy, Debug, Eq, Hash)]
pub struct Digest(pub [u8; 32]);

impl PartialEq for Digest {
    fn eq(&self, other: &Digest) -> (r: bool) {
        let mut i: usize = 0;
        while i < HASH_SIZE_BYTES
            invariant
                i <= HASH_SIZE_BYTES,
                self.0@.len() == 32,
                other.0@.len() == 32,
                forall|j: int| 0 <= j < i ==> self.0@[j] == other.0@[j],
            decreases HASH_SIZE_BYTES - i,
        {
            if self.0[i] != other.0[i] {
                return false;
            }
            i += 1;
        }
        assert(self.0@ =~= other.0@);
        true
    }
}

impl vstd::std_specs::cmp::PartialEqSpecImpl for Digest {
    open spec fn obeys_eq_spec() -> bool {
        true
    }

    open spec fn eq_spec(&self, other: &Digest) -> bool {
        self.0@ == other.0@
    }
}

/// The 32 bytes that blake3 gives for `data`.
pub uninterp spec fn blake3_of(data: Seq<u8>) -> Seq<u8>;

/// Relies on `blake3::hash`: the 32-byte digest of the input.
#[verifier::external_body]
fn blake3_digest(data: &[u8]) -> (r: [u8; 32])
    ensures
        r@ == blake3_of(data@),
{
    *blake3::hash(data).as_bytes()
}

/// Strict lexicographic order on byte strings.
pub open spec fn bytes_lt(a: Seq<u8>, b: Seq<u8>) -> bool
    decreases a.len(),
{
    if a.len() == 0 || b.len() == 0 {
        b.len() > 0
    } else if a[0] != b[0] {
        a[0] < b[0]
    } else {
        bytes_lt(a.drop_first(), b.drop_first())
    }
}

/// Strict order of digests: lexicographic on their bytes.
pub open spec fn hash_lt(a: Digest, b: Digest) -> bool {
    bytes_lt(a.0@, b.0@)
}

pub proof fn lemma_bytes_lt_irreflexive(a: Seq<u8>)
    ensures
        !bytes_lt(a, a),
    decreases a.len(),
{
    if a.len() > 0 {
        lemma_bytes_lt_irreflexive(a.drop_first());
    }
}

pub proof fn lemma_bytes_lt_transitive(a: Seq<u8>, b: Seq<u8>, c: Seq<u8>)
    requires
        bytes_lt(a, b),
        bytes_lt(b, c),
    ensures
        bytes_lt(a, c),
    decreases a.len(),
{
    if a.len() > 0 && b.len() > 0 && c.len() > 0 && a[0] == b[0] && b[0] == c[0] {
        lemma_bytes_lt_transitive(a.drop_first(), b.drop_first(), c.drop_first());
    }
}

pub proof fn lemma_bytes_lt_total(a: Seq<u8>, b: Seq<u8>)
    requires
        a.len() == b.len(),
        a != b,
    ensures
        bytes_lt(a, b) || bytes_lt(b, a),
    decreases a.len(),
{
    if a.len() == 0 {
        assert(a =~= b);
    } else if a[0] == b[0] {
        if a.drop_first() == b.drop_first() {
            assert(a =~= b) by {
                assert forall|i: int| 0 <= i < a.len() implies a[i] == b[i] by {
                    if i > 0 {
                        assert(a[i] == a.drop_first()[i - 1]);
                        assert(b[i] == b.drop_first()[i - 1]);
                    }
                }
            }
        }
        lemma_bytes_lt_total(a.drop_first(), b.drop_first());
    }
}

/// Digests of equal bytes are equal.
pub proof fn lemma_hash_eq(a: Digest, b: Digest)
    requires
        a.0@ == b.0@,
    ensures
        a == b,
{
    assert(a.0 =~= b.0);
}

/// Digests are totally and strictly ordered.
pub proof fn lemma_hash_order(a: Digest, b: Digest, c: Digest)
    ensures
        !hash_lt(a, a),
        hash_lt(a, b) && hash_lt(b, c) ==> hash_lt(a, c),
        a != b ==> hash_lt(a, b) || hash_lt(b, a),
{
    lemma_bytes_lt_irreflexive(a.0@);
    if hash_lt(a, b) && hash_lt(b, c) {
        lemma_bytes_lt_transitive(a.0@, b.0@, c.0@);
    }
    if a != b {
        if a.0@ == b.0@ {
            lemma_hash_eq(a, b);
        }
        lemma_bytes_lt_total(a.0@, b.0@);
    }
}

impl Digest {
    /// The digest of `data`.
    pub fn compute_from(data: &[u8]) -> (r: Digest)
        ensures
            r.0@ == blake3_of(data@),
    {
        Digest(blake3_digest(data))
    }

    /// The digest's bytes.
    pub fn to_bytes(&self) -> (r: [u8; 32])
        ensures
            r == self.0,
    {
        self.0
    }

    /// The digest with the given bytes.
    pub fn from_bytes(bytes: &[u8; 32]) -> (r: Digest)
        ensures
            r.0 == *bytes,
    {
        Digest(*bytes)
    }

    /// Whether `self` comes strictly before `other`.
    pub fn lt(&self, other: &Digest) -> (r: bool)
        ensures
            r == hash_lt(*self, *other),
    {
        assert(self.0@.subrange(0, 32) =~= self.0@);
        assert(other.0@.subrange(0, 32) =~= other.0@);
        let mut i: usize = 0;
        while i < HASH_SIZE_BYTES
            invariant
                i <= HASH_SIZE_BYTES,
                self.0@.len() == 32,
                other.0@.len() == 32,
                forall|j: int| 0 <= j < i ==> self.0@[j] == other.0@[j],
                hash_lt(*self, *other) == bytes_lt(
                    self.0@.subrange(i as int, 32),
                    other.0@.subrange(i as int, 32),
                ),
            decreases HASH_SIZE_BYTES - i,
        {
            let a = self.0[i];
            let b = other.0[i];
            let ghost sa = self.0@.subrange(i as int, 32);
            let ghost sb = other.0@.subrange(i as int, 32);
            assert(sa.drop_first() =~= self.0@.subrange(i + 1, 32));
            assert(sb.drop_first() =~= other.0@.subrange(i + 1, 32));
            if a != b {
                return a < b;
            }
            i += 1;
        }
        false
    }
}

} // verus!
