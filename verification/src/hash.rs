//! A 64-bit FNV-1a hasher for frame-local layout maps.
use vstd::prelude::*;

verus! {

/// FNV-1a 64-bit offset basis: the state of a fresh hasher.
pub const FNV64_OFFSET_BASIS: u64 = 0xcbf2_9ce4_8422_2325;

/// FNV-1a 64-bit prime.
pub const FNV64_PRIME: u64 = 0x0000_0100_0000_01b3;

/// One FNV-1a round: xor the value in, then multiply by the prime modulo 2^64.
pub open spec fn fnv64_mix(state: u64, value: u64) -> u64 {
    (state ^ value).wrapping_mul(FNV64_PRIME)
}

/// The state reached from `state` after one round per byte, in order.
pub open spec fn fnv64_bytes(state: u64, bytes: Seq<u8>) -> u64
    decreases bytes.len(),
{
    if bytes.len() == 0 {
        state
    } else {
        fnv64_mix(fnv64_bytes(state, bytes.drop_last()), bytes.last() as u64)
    }
}

/// Fast non-cryptographic hasher used for frame-local layout maps.
#[derive(Debug)]
pub struct FastHasher {
    state: u64,
}

impl View for FastHasher {
    type V = u64;

    closed spec fn view(&self) -> u64 {
        self.state
    }
}

impl FastHasher {
    /// A hasher in its initial state.
    pub fn new() -> (h: Self)
        ensures
            h@ == FNV64_OFFSET_BASIS,
    {
        FastHasher { state: FNV64_OFFSET_BASIS }
    }

    fn mix_u64(&mut self, value: u64)
        ensures
            final(self)@ == fnv64_mix(old(self)@, value),
    {
        self.state = (self.state ^ value).wrapping_mul(FNV64_PRIME);
    }

    /// Mixes every byte of `bytes` into the state, one round per byte.
    pub fn write(&mut self, bytes: &[u8])
        ensures
            final(self)@ == fnv64_bytes(old(self)@, bytes@),
    {
        let n = bytes.len();
        let mut i: usize = 0;
        while i < n
            invariant
                n == bytes@.len(),
                i <= n,
                self@ == fnv64_bytes(old(self)@, bytes@.take(i as int)),
            decreases n - i,
        {
            proof {
                assert(bytes@.take(i + 1).drop_last() =~= bytes@.take(i as int));
            }
            self.mix_u64(bytes[i] as u64);
            i = i + 1;
        }
        proof {
            assert(bytes@.take(n as int) =~= bytes@);
        }
    }

    /// Mixes one byte into the state.
    pub fn write_u8(&mut self, value: u8)
        ensures
            final(self)@ == fnv64_mix(old(self)@, value as u64),
    {
        self.mix_u64(value as u64);
    }

    /// Mixes a `u16`, widened to 64 bits, in one round.
    pub fn write_u16(&mut self, value: u16)
        ensures
            final(self)@ == fnv64_mix(old(self)@, value as u64),
    {
        self.mix_u64(value as u64);
    }

    /// Mixes a `u32`, widened to 64 bits, in one round.
    pub fn write_u32(&mut self, value: u32)
        ensures
            final(self)@ == fnv64_mix(old(self)@, value as u64),
    {
        self.mix_u64(value as u64);
    }

    /// Mixes a `u64` in one round.
    pub fn write_u64(&mut self, value: u64)
        ensures
            final(self)@ == fnv64_mix(old(self)@, value),
    {
        self.mix_u64(value);
    }

    /// Mixes a `usize`, widened to 64 bits, in one round.
    pub fn write_usize(&mut self, value: usize)
        ensures
            final(self)@ == fnv64_mix(old(self)@, value as u64),
    {
        self.mix_u64(value as u64);
    }

    /// Returns the current state.
    pub fn finish(&self) -> (r: u64)
        ensures
            r == self@,
    {
        self.state
    }
}

impl Default for FastHasher {
    fn default() -> (h: Self)
        ensures
            h@ == FNV64_OFFSET_BASIS,
    {
        FastHasher::new()
    }
}

} // verus!

verus! {

impl std::hash::Hasher for FastHasher {
    fn write(&mut self, bytes: &[u8])
        ensures
            final(self)@ == fnv64_bytes(old(self)@, bytes@),
    {
        FastHasher::write(self, bytes);
    }

    fn write_u8(&mut self, value: u8)
        ensures
            final(self)@ == fnv64_mix(old(self)@, value as u64),
    {
        FastHasher::write_u8(self, value);
    }

    fn write_u16(&mut self, value: u16)
        ensures
            final(self)@ == fnv64_mix(old(self)@, value as u64),
    {
        FastHasher::write_u16(self, value);
    }

    fn write_u32(&mut self, value: u32)
        ensures
            final(self)@ == fnv64_mix(old(self)@, value as u64),
    {
        FastHasher::write_u32(self, value);
    }

    fn write_u64(&mut self, value: u64)
        ensures
            final(self)@ == fnv64_mix(old(self)@, value),
    {
        FastHasher::write_u64(self, value);
    }

    fn write_usize(&mut self, value: usize)
        ensures
            final(self)@ == fnv64_mix(old(self)@, value as u64),
    {
        FastHasher::write_usize(self, value);
    }

    fn finish(&self) -> (r: u64)
        ensures
            r == self@,
    {
        FastHasher::finish(self)
    }
}

} // verus!

verus! {

/// Hashing bytes in two writes gives the state one write of both gives, and
/// one `write_u8` is one single-byte `write`.
pub proof fn lemma_fnv64_split(state: u64, a: Seq<u8>, b: Seq<u8>)
    ensures
        fnv64_bytes(state, a + b) == fnv64_bytes(fnv64_bytes(state, a), b),
        fnv64_bytes(state, Seq::<u8>::empty()) == state,
        forall|x: u8| #[trigger] fnv64_bytes(state, seq![x]) == fnv64_mix(state, x as u64),
    decreases b.len(),
{
    if b.len() == 0 {
        assert(a + b =~= a);
    } else {
        assert((a + b).drop_last() =~= a + b.drop_last());
        assert((a + b).last() == b.last());
        lemma_fnv64_split(state, a, b.drop_last());
    }
    assert(fnv64_bytes(state, Seq::<u8>::empty()) == state);
    assert forall|x: u8| #[trigger] fnv64_bytes(state, seq![x]) == fnv64_mix(state, x as u64) by {
        assert(seq![x].drop_last() =~= Seq::<u8>::empty());
        assert(fnv64_bytes(state, Seq::<u8>::empty()) == state);
    }
}

} // verus!
