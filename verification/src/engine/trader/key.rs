//! Trader identity.

use vstd::prelude::*;

use crate::tree::TreeKey;

verus! {

/// An opaque 32-byte trader identity.
///
/// On-chain this is a Solana address, but the engine carries it as raw bytes so it stays
/// testable without a validator. Ordering is lexicographic over the bytes, which is all
/// the seat table needs.
#[derive(Copy, Clone, Debug, PartialEq, Eq, PartialOrd, Ord, Hash)]
pub struct TraderKey(pub [u8; 32]);

impl TraderKey {
    /// Wraps raw bytes.
    pub fn new(bytes: [u8; 32]) -> (key: Self)
        ensures
            key == TraderKey(bytes),
    {
        TraderKey(bytes)
    }

    /// The underlying bytes.
    pub fn as_bytes(&self) -> (bytes: &[u8; 32])
        ensures
            *bytes == self.0,
    {
        &self.0
    }
}

impl From<[u8; 32]> for TraderKey {
    fn from(bytes: [u8; 32]) -> (key: Self) {
        TraderKey(bytes)
    }
}

impl vstd::std_specs::convert::FromSpecImpl<[u8; 32]> for TraderKey {
    open spec fn obeys_from_spec() -> bool {
        true
    }

    open spec fn from_spec(bytes: [u8; 32]) -> Self {
        TraderKey(bytes)
    }
}

impl Default for TraderKey {
    fn default() -> (key: Self)
        ensures
            key.0@ == Seq::new(32, |i: int| 0u8),
    {
        TraderKey(zeros())
    }
}

/// Thirty-two zero bytes.
pub(crate) fn zeros() -> (bytes: [u8; 32])
    ensures
        bytes@ == Seq::new(32, |i: int| 0u8),
{
    let bytes: [u8; 32] = [
        0, 0, 0, 0, 0, 0, 0, 0, 0, 0, 0, 0, 0, 0, 0, 0, 0, 0, 0, 0, 0, 0, 0, 0, 0, 0, 0, 0, 0, 0,
        0, 0,
    ];
    assert(bytes@ =~= Seq::new(32, |i: int| 0u8));
    bytes
}

/// The number that bytes spell, most significant first.
pub open spec fn big_endian(bytes: Seq<u8>) -> int
    decreases bytes.len(),
{
    if bytes.len() == 0 {
        0
    } else {
        big_endian(bytes.drop_last()) * 256 + bytes.last()
    }
}

/// Among sequences of one length, the first difference decides.
pub proof fn lemma_first_difference(a: Seq<u8>, b: Seq<u8>, i: int)
    requires
        a.len() == b.len(),
        0 <= i < a.len(),
        forall|j: int| 0 <= j < i ==> a[j] == b[j],
        a[i] < b[i],
    ensures
        big_endian(a) < big_endian(b),
    decreases a.len(),
{
    if i == a.len() - 1 {
        assert(a.drop_last() =~= b.drop_last());
    } else {
        lemma_first_difference(a.drop_last(), b.drop_last(), i);
    }
}

proof fn lemma_big_endian_injective(a: Seq<u8>, b: Seq<u8>)
    requires
        a.len() == b.len(),
        big_endian(a) == big_endian(b),
    ensures
        a == b,
    decreases a.len(),
{
    if a.len() > 0 {
        lemma_big_endian_injective(a.drop_last(), b.drop_last());
        assert(a =~= a.drop_last().push(a.last()));
        assert(b =~= b.drop_last().push(b.last()));
    } else {
        assert(a =~= b);
    }
}

impl TreeKey for TraderKey {
    open spec fn rank(self) -> int {
        big_endian(self.0@)
    }

    open spec fn zero() -> Self {
        choose|key: TraderKey| key.0@ == Seq::new(32, |i: int| 0u8)
    }

    proof fn rank_injective(a: Self, b: Self) {
        if a.rank() == b.rank() {
            lemma_big_endian_injective(a.0@, b.0@);
            assert(a.0 =~= b.0);
        }
    }

    fn precedes(&self, other: &Self) -> (before: bool) {
        let mut i: usize = 0;
        while i < 32
            invariant
                i <= 32,
                forall|j: int| 0 <= j < i ==> self.0@[j] == other.0@[j],
            decreases 32 - i,
        {
            if self.0[i] < other.0[i] {
                proof {
                    lemma_first_difference(self.0@, other.0@, i as int);
                }
                return true;
            }
            if self.0[i] > other.0[i] {
                proof {
                    lemma_first_difference(other.0@, self.0@, i as int);
                }
                return false;
            }
            i = i + 1;
        }
        assert(self.0@ =~= other.0@);
        false
    }

    fn zeroed() -> (key: Self) {
        let key = TraderKey::default();
        proof {
            let zero = Self::zero();
            assert(zero.0@ == key.0@);
            assert(zero.0 =~= key.0);
        }
        key
    }
}

} // verus!
