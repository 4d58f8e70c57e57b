//! Stable element identifiers.
use vstd::prelude::*;

verus! {

/// FNV-1a 32-bit offset basis.
pub const FNV32_OFFSET_BASIS: u32 = 0x811c_9dc5;

/// FNV-1a 32-bit prime.
pub const FNV32_PRIME: u32 = 16_777_619;

/// One FNV-1a round over 32 bits.
pub open spec fn fnv32_mix(state: u32, byte: u8) -> u32 {
    (state ^ (byte as u32)).wrapping_mul(FNV32_PRIME)
}

/// The state reached from `state` after one round per byte, in order.
pub open spec fn fnv32_bytes(state: u32, bytes: Seq<u8>) -> u32
    decreases bytes.len(),
{
    if bytes.len() == 0 {
        state
    } else {
        fnv32_mix(fnv32_bytes(state, bytes.drop_last()), bytes.last())
    }
}

/// The id hash of a label: FNV-1a over the label's UTF-8 bytes, started from
/// the offset basis xor `base`, with `offset` xored into the result.
pub open spec fn id_hash(label: Seq<char>, offset: u32, base: u32) -> u32 {
    fnv32_bytes(FNV32_OFFSET_BASIS ^ base, vstd::utf8::encode_utf8(label)) ^ offset
}

/// Stable identifier used to match layout elements across frames.
///
/// The `hash` is deterministic for the same label, offset and base. The
/// label itself is kept so callers can still query results by string id.
#[derive(Debug, Clone, PartialEq, Eq, Hash)]
pub struct ElementId {
    /// Deterministic hash used for compact identity comparisons.
    pub hash: u32,
    /// Optional index mixed into the hash.
    pub offset: u32,
    /// Optional base hash for locally scoped ids.
    pub base: u32,
    /// Human-readable id label.
    pub label: String,
}

impl ElementId {
    /// Whether this id's hash is the one its label, offset and base give.
    pub open spec fn well_formed(&self) -> bool {
        self.hash == id_hash(self.label@, self.offset, self.base)
    }

    /// Creates an id from a label.
    pub fn new(label: &str) -> (id: Self)
        ensures
            id.label@ == label@,
            id.offset == 0,
            id.base == 0,
            id.hash == id_hash(label@, 0, 0),
    {
        Self::with_offset_and_base(label, 0, 0)
    }

    /// Creates a repeated id by mixing `offset` into the label hash.
    pub fn indexed(label: &str, offset: u32) -> (id: Self)
        ensures
            id.label@ == label@,
            id.offset == offset,
            id.base == 0,
            id.hash == id_hash(label@, offset, 0),
    {
        Self::with_offset_and_base(label, offset, 0)
    }

    /// Creates an id scoped under `base`.
    pub fn local(label: &str, base: u32) -> (id: Self)
        ensures
            id.label@ == label@,
            id.offset == 0,
            id.base == base,
            id.hash == id_hash(label@, 0, base),
    {
        Self::with_offset_and_base(label, 0, base)
    }

    /// Creates an id from all hashing components.
    pub fn with_offset_and_base(label: &str, offset: u32, base: u32) -> (id: Self)
        ensures
            id.label@ == label@,
            id.offset == offset,
            id.base == base,
            id.hash == id_hash(label@, offset, base),
    {
        let hash = hash_id(label, offset, base);
        ElementId { hash, offset, base, label: label.to_owned() }
    }
}

/// Computes [`id_hash`] of `label`.
pub fn hash_id(label: &str, offset: u32, base: u32) -> (h: u32)
    ensures
        h == id_hash(label@, offset, base),
{
    let bytes = label.as_bytes();
    let n = bytes.len();
    let mut hash: u32 = FNV32_OFFSET_BASIS ^ base;
    let mut i: usize = 0;
    while i < n
        invariant
            n == bytes@.len(),
            bytes@ == vstd::utf8::encode_utf8(label@),
            i <= n,
            hash == fnv32_bytes(FNV32_OFFSET_BASIS ^ base, bytes@.take(i as int)),
        decreases n - i,
    {
        proof {
            assert(bytes@.take(i + 1).drop_last() =~= bytes@.take(i as int));
        }
        hash = (hash ^ (bytes[i] as u32)).wrapping_mul(FNV32_PRIME);
        i = i + 1;
    }
    proof {
        assert(bytes@.take(n as int) =~= bytes@);
    }
    hash ^ offset
}

/// Ids built from the same label, offset and base carry the same hash, and
/// for a fixed label and base, distinct offsets give distinct hashes.
pub proof fn lemma_id_hash_offsets(label: Seq<char>, base: u32, o1: u32, o2: u32)
    ensures
        id_hash(label, o1, base) == id_hash(label, o2, base) <==> o1 == o2,
{
    let core = fnv32_bytes(FNV32_OFFSET_BASIS ^ base, vstd::utf8::encode_utf8(label));
    assert((core ^ o1) == (core ^ o2) <==> o1 == o2) by (bit_vector);
}

/// An id hash is its offset-free hash with the offset xored in, and for a
/// fixed label and offset, distinct bases give distinct hashes.
pub proof fn lemma_id_hash_base(label: Seq<char>, offset: u32, b1: u32, b2: u32)
    ensures
        id_hash(label, offset, b1) == id_hash(label, 0, b1) ^ offset,
        id_hash(label, offset, b1) == id_hash(label, offset, b2) <==> b1 == b2,
{
    let bytes = vstd::utf8::encode_utf8(label);
    let c1 = fnv32_bytes(FNV32_OFFSET_BASIS ^ b1, bytes);
    let c2 = fnv32_bytes(FNV32_OFFSET_BASIS ^ b2, bytes);
    assert(c1 ^ offset == (c1 ^ 0u32) ^ offset) by (bit_vector);
    if c1 ^ offset == c2 ^ offset {
        assert(c1 ^ offset == c2 ^ offset ==> c1 == c2) by (bit_vector);
        lemma_fnv32_bytes_injective(FNV32_OFFSET_BASIS ^ b1, FNV32_OFFSET_BASIS ^ b2, bytes);
        let basis = FNV32_OFFSET_BASIS;
        assert(basis ^ b1 == basis ^ b2 ==> b1 == b2) by (bit_vector);
    }
}

/// Multiplying by the FNV prime modulo 2^32 loses nothing: the prime is
/// odd, so the product can be undone.
proof fn lemma_mul_prime_injective(x: u32, y: u32)
    requires
        x.wrapping_mul(FNV32_PRIME) == y.wrapping_mul(FNV32_PRIME),
    ensures
        x == y,
{
    assert(x.wrapping_mul(FNV32_PRIME) == ((x * 16777619u32) % 0x1_0000_0000) as u32);
    assert(y.wrapping_mul(FNV32_PRIME) == ((y * 16777619u32) % 0x1_0000_0000) as u32);
    assert(((x * 16777619u32) % 0x1_0000_0000 == (y * 16777619u32) % 0x1_0000_0000) ==> x == y)
        by (bit_vector);
}

/// One FNV-1a round is a bijection on states.
proof fn lemma_fnv32_mix_injective(a: u32, b: u32, byte: u8)
    requires
        fnv32_mix(a, byte) == fnv32_mix(b, byte),
    ensures
        a == b,
{
    let x = a ^ (byte as u32);
    let y = b ^ (byte as u32);
    lemma_mul_prime_injective(x, y);
    assert(x == y ==> a == b) by (bit_vector)
        requires
            x == a ^ (byte as u32),
            y == b ^ (byte as u32),
    ;
}

/// From one state, distinct bytes lead to distinct states.
proof fn lemma_fnv32_mix_byte_injective(state: u32, b1: u8, b2: u8)
    requires
        fnv32_mix(state, b1) == fnv32_mix(state, b2),
    ensures
        b1 == b2,
{
    let x = state ^ (b1 as u32);
    let y = state ^ (b2 as u32);
    lemma_mul_prime_injective(x, y);
    assert(x == y ==> b1 == b2) by (bit_vector)
        requires
            x == state ^ (b1 as u32),
            y == state ^ (b2 as u32),
    ;
}

/// The id hash covers every byte of the label: appending a character runs
/// exactly the rounds of its UTF-8 bytes on the offset-free hash of the
/// shorter label, so an ASCII character is exactly one more round, and
/// labels that differ only in their last ASCII character, at any length,
/// get different hashes.
pub proof fn lemma_id_hash_extend(label: Seq<char>, c: char, d: char, offset: u32, base: u32)
    ensures
        id_hash(label.push(c), offset, base) == fnv32_bytes(
            id_hash(label, 0, base),
            vstd::utf8::encode_utf8(seq![c]),
        ) ^ offset,
        (c as u32) < 0x80 ==> id_hash(label.push(c), offset, base) == fnv32_mix(
            id_hash(label, 0, base),
            (c as u32) as u8,
        ) ^ offset,
        (c as u32) < 0x80 && (d as u32) < 0x80 && c != d ==> id_hash(label.push(c), offset, base)
            != id_hash(label.push(d), offset, base),
{
    lemma_id_hash_extend_one(label, c, offset, base);
    lemma_id_hash_extend_one(label, d, offset, base);
    let h = id_hash(label, 0, base);
    if (c as u32) < 0x80 && (d as u32) < 0x80 && c != d {
        let x = (c as u32) as u8;
        let y = (d as u32) as u8;
        let cu = c as u32;
        let du = d as u32;
        assert(cu < 0x80 && du < 0x80 && cu != du ==> (cu as u8) != (du as u8)) by (bit_vector);
        let m1 = fnv32_mix(h, x);
        let m2 = fnv32_mix(h, y);
        if m1 ^ offset == m2 ^ offset {
            assert(m1 ^ offset == m2 ^ offset ==> m1 == m2) by (bit_vector);
            lemma_fnv32_mix_byte_injective(h, x, y);
        }
    }
}

proof fn lemma_id_hash_extend_one(label: Seq<char>, c: char, offset: u32, base: u32)
    ensures
        id_hash(label.push(c), offset, base) == fnv32_bytes(
            id_hash(label, 0, base),
            vstd::utf8::encode_utf8(seq![c]),
        ) ^ offset,
        (c as u32) < 0x80 ==> id_hash(label.push(c), offset, base) == fnv32_mix(
            id_hash(label, 0, base),
            (c as u32) as u8,
        ) ^ offset,
{
    let start = FNV32_OFFSET_BASIS ^ base;
    let a = vstd::utf8::encode_utf8(label);
    let e = vstd::utf8::encode_utf8(seq![c]);
    assert(label.push(c) =~= label + seq![c]);
    crate::text::lemma_encode_utf8_concat(label, seq![c]);
    lemma_fnv32_split(start, a, e);
    let core = fnv32_bytes(start, a);
    assert(core ^ 0u32 == core) by (bit_vector);
    if (c as u32) < 0x80 {
        let u = c as u32;
        assert(seq![c].drop_first() =~= Seq::<char>::empty());
        assert(seq![c][0] == c);
        assert(vstd::utf8::encode_utf8(Seq::<char>::empty()) =~= Seq::<u8>::empty());
        assert(vstd::utf8::has_width_1_encoding(u));
        assert(vstd::utf8::encode_scalar(u) == seq![vstd::utf8::leading_byte_width_1(u)]);
        assert(e == vstd::utf8::encode_scalar(u) + vstd::utf8::encode_utf8(Seq::<char>::empty()));
        assert(e =~= seq![((u & 0x7f) as u8)]);
        assert(u < 0x80 ==> ((u & 0x7f) as u8) == (u as u8)) by (bit_vector);
        assert(e.drop_last() =~= Seq::<u8>::empty());
        assert(e.last() == (u as u8));
        assert(fnv32_bytes(core, Seq::<u8>::empty()) == core);
        assert(fnv32_bytes(core, e) == fnv32_mix(fnv32_bytes(core, e.drop_last()), e.last()));
        assert(id_hash(label, 0, base) == core);
        assert(fnv32_bytes(id_hash(label, 0, base), e) == fnv32_mix(core, u as u8));
    }
}

/// Hashing the same bytes from distinct states gives distinct states.
proof fn lemma_fnv32_bytes_injective(s1: u32, s2: u32, bytes: Seq<u8>)
    requires
        fnv32_bytes(s1, bytes) == fnv32_bytes(s2, bytes),
    ensures
        s1 == s2,
    decreases bytes.len(),
{
    if bytes.len() > 0 {
        lemma_fnv32_mix_injective(
            fnv32_bytes(s1, bytes.drop_last()),
            fnv32_bytes(s2, bytes.drop_last()),
            bytes.last(),
        );
        lemma_fnv32_bytes_injective(s1, s2, bytes.drop_last());
    }
}

} // verus!

verus! {

/// Hashing a label's bytes in two parts gives what hashing them at once
/// gives.
pub proof fn lemma_fnv32_split(state: u32, a: Seq<u8>, b: Seq<u8>)
    ensures
        fnv32_bytes(state, a + b) == fnv32_bytes(fnv32_bytes(state, a), b),
    decreases b.len(),
{
    if b.len() == 0 {
        assert(a + b =~= a);
    } else {
        assert((a + b).drop_last() =~= a + b.drop_last());
        assert((a + b).last() == b.last());
        lemma_fnv32_split(state, a, b.drop_last());
    }
}

} // verus!
