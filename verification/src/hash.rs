//! The identity hash: 64-bit FNV-1a.
//!
//! A name's identity is the FNV-1a hash of its bytes. The algorithm is fixed:
//! start from the offset basis and, for every byte in order, xor the byte into
//! the state and multiply by the prime modulo 2^64. Distinct names may collide;
//! equal names never differ.

use vstd::prelude::*;

verus! {

/// The state before any byte is hashed.
pub const FNV_OFFSET_BASIS: u64 = 0xcbf2_9ce4_8422_2325;

/// The multiplier applied after every byte.
pub const FNV_PRIME: u64 = 0x0000_0100_0000_01b3;

/// The state after hashing one more byte.
pub open spec fn fnv_step(state: u64, byte: u8) -> u64 {
    (((state ^ (byte as u64)) as nat * FNV_PRIME as nat) % 0x1_0000_0000_0000_0000) as u64
}

/// The state after hashing `bytes`, first to last, starting from `state`.
pub open spec fn fnv_fold(state: u64, bytes: Seq<u8>) -> u64
    decreases bytes.len(),
{
    if bytes.len() == 0 {
        state
    } else {
        fnv_step(fnv_fold(state, bytes.drop_last()), bytes.last())
    }
}

/// The FNV-1a hash of `bytes`.
pub open spec fn fnv1a(bytes: Seq<u8>) -> u64 {
    fnv_fold(FNV_OFFSET_BASIS, bytes)
}

/// The `count` low-order bytes of `x`, least significant first.
pub open spec fn low_bytes(x: nat, count: nat) -> Seq<u8>
    decreases count,
{
    if count == 0 {
        Seq::empty()
    } else {
        low_bytes(x / 256, (count - 1) as nat).insert(0, (x % 256) as u8)
    }
}

/// The eight bytes of `x`, least significant first.
pub open spec fn le_bytes(x: u64) -> Seq<u8> {
    low_bytes(x as nat, 8)
}

/// Hashing a concatenation is hashing its parts in turn.
pub proof fn lemma_fold_concat(state: u64, a: Seq<u8>, b: Seq<u8>)
    ensures
        fnv_fold(state, a + b) == fnv_fold(fnv_fold(state, a), b),
    decreases b.len(),
{
    if b.len() == 0 {
        assert(a + b =~= a);
    } else {
        lemma_fold_concat(state, a, b.drop_last());
        assert((a + b).drop_last() =~= a + b.drop_last());
        assert((a + b).last() == b.last());
    }
}

/// Equal byte sequences have equal hashes, from whatever state hashing starts.
pub proof fn lemma_hash_deterministic(a: Seq<u8>, b: Seq<u8>)
    requires
        a.len() == b.len(),
        forall|i: int| 0 <= i < a.len() ==> a[i] == b[i],
    ensures
        fnv1a(a) == fnv1a(b),
        forall|state: u64| fnv_fold(state, a) == fnv_fold(state, b),
{
    assert(a =~= b);
}

/// A running FNV-1a computation.
pub struct Fnv1a {
    state: u64,
}

impl View for Fnv1a {
    type V = u64;

    closed spec fn view(&self) -> u64 {
        self.state
    }
}

impl Fnv1a {
    /// A hasher that has seen no bytes.
    pub fn new() -> (hasher: Fnv1a)
        ensures
            hasher@ == FNV_OFFSET_BASIS,
    {
        Fnv1a { state: FNV_OFFSET_BASIS }
    }

    /// Feeds one byte.
    pub fn write_u8(&mut self, byte: u8)
        ensures
            final(self)@ == fnv_step(old(self)@, byte),
    {
        self.state = (self.state ^ (byte as u64)).wrapping_mul(FNV_PRIME);
    }

    /// Feeds `bytes`, first to last.
    pub fn write(&mut self, bytes: &[u8])
        ensures
            final(self)@ == fnv_fold(old(self)@, bytes@),
    {
        let mut i: usize = 0;
        while i < bytes.len()
            invariant
                i <= bytes.len(),
                self@ == fnv_fold(old(self)@, bytes@.take(i as int)),
            decreases bytes.len() - i,
        {
            proof {
                assert(bytes@.take(i + 1).drop_last() =~= bytes@.take(i as int));
            }
            self.write_u8(bytes[i]);
            i = i + 1;
        }
        proof {
            assert(bytes@.take(i as int) =~= bytes@);
        }
    }

    /// Feeds the eight bytes of `x`, least significant first.
    pub fn write_u64(&mut self, x: u64)
        ensures
            final(self)@ == fnv_fold(old(self)@, le_bytes(x)),
    {
        let mut rest: u64 = x;
        let mut i: usize = 0;
        let ghost mut fed: Seq<u8> = Seq::empty();
        while i < 8
            invariant
                i <= 8,
                self@ == fnv_fold(old(self)@, fed),
                fed.len() == i,
                le_bytes(x) == fed + low_bytes(rest as nat, (8 - i) as nat),
            decreases 8 - i,
        {
            let byte: u8 = (rest % 256) as u8;
            proof {
                let tail = low_bytes(rest as nat / 256, (8 - i - 1) as nat);
                assert(low_bytes(rest as nat, (8 - i) as nat) =~= seq![byte] + tail);
                assert(fed + (seq![byte] + tail) =~= fed.push(byte) + tail);
                assert(fed.push(byte).drop_last() =~= fed);
                fed = fed.push(byte);
            }
            self.write_u8(byte);
            rest = rest / 256;
            i = i + 1;
        }
        proof {
            assert(low_bytes(rest as nat, 0) =~= Seq::<u8>::empty());
            assert(fed + Seq::<u8>::empty() =~= fed);
        }
    }

    /// The hash of everything fed so far.
    pub fn finish(&self) -> (digest: u64)
        ensures
            digest == self@,
    {
        self.state
    }
}

/// The identity hash of a name.
pub fn hash_bytes(bytes: &[u8]) -> (digest: u64)
    ensures
        digest == fnv1a(bytes@),
{
    let mut hasher = Fnv1a::new();
    hasher.write(bytes);
    hasher.finish()
}

} // verus!
