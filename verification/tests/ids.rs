use rlay::hash::FastHasher;
use rlay::id::hash_id;
use rlay::ElementId;
use std::hash::Hasher;

#[test]
fn stable_ids_are_repeatable() {
    let id = ElementId::indexed("item", 2);
    let same = ElementId::indexed("item", 2);
    let other = ElementId::indexed("item", 3);

    assert_eq!(id.hash, same.hash);
    assert_ne!(id.hash, other.hash);
    assert_eq!(id.label, "item");
    assert_eq!(id.offset, 2);
}

#[test]
fn element_id_hash_is_fnv1a_of_the_label() {
    assert_eq!(ElementId::indexed("item", 2).hash, 0x9f38_33e4);
    assert_eq!(ElementId::indexed("item", 3).hash, 0x9f38_33e5);
    assert_eq!(ElementId::new("panel").hash, 0xccfe_4c45);
    assert_eq!(ElementId::local("a", 7).hash, 0xe30c_2799);
    assert_eq!(hash_id("héllo", 0, 0), 0x4aa4_8540);
}

#[test]
fn element_id_constructors_agree_with_the_general_one() {
    let general = ElementId::with_offset_and_base("row", 4, 9);
    assert_eq!(general.offset, 4);
    assert_eq!(general.base, 9);
    assert_eq!(general.hash, hash_id("row", 4, 9));
    assert_eq!(ElementId::new("row"), ElementId::with_offset_and_base("row", 0, 0));
    assert_eq!(ElementId::indexed("row", 4), ElementId::with_offset_and_base("row", 4, 0));
    assert_eq!(ElementId::local("row", 9), ElementId::with_offset_and_base("row", 0, 9));
}

#[test]
fn distinct_offsets_give_distinct_hashes() {
    for offset in 0..64u32 {
        assert_ne!(ElementId::indexed("cell", offset).hash, ElementId::indexed("cell", offset + 1).hash);
    }
}

#[test]
fn fast_hasher_is_fnv1a_64() {
    let mut h = FastHasher::new();
    assert_eq!(h.finish(), 0xcbf2_9ce4_8422_2325);
    FastHasher::write(&mut h, b"abc");
    assert_eq!(h.finish(), 0xe71f_a219_0541_574b);

    let mut one = FastHasher::new();
    FastHasher::write_u8(&mut one, 42);
    assert_eq!(one.finish(), 0xaf63_a74c_8601_927d);
}

#[test]
fn fast_hasher_split_writes_match_one_write() {
    let mut whole = FastHasher::default();
    Hasher::write(&mut whole, b"layout engine");
    let mut split = FastHasher::default();
    Hasher::write(&mut split, b"layout ");
    Hasher::write(&mut split, b"engine");
    assert_eq!(Hasher::finish(&whole), Hasher::finish(&split));

    let mut byte = FastHasher::default();
    Hasher::write_u8(&mut byte, 7);
    let mut slice = FastHasher::default();
    Hasher::write(&mut slice, &[7]);
    assert_eq!(Hasher::finish(&byte), Hasher::finish(&slice));
}

#[test]
fn fast_hasher_wide_writes_mix_one_round() {
    let mut a = FastHasher::new();
    a.write_u16(7);
    let mut b = FastHasher::new();
    b.write_u32(7);
    let mut c = FastHasher::new();
    c.write_u64(7);
    let mut d = FastHasher::new();
    d.write_usize(7);
    let mut e = FastHasher::new();
    e.write_u8(7);
    assert_eq!(a.finish(), e.finish());
    assert_eq!(b.finish(), e.finish());
    assert_eq!(c.finish(), e.finish());
    assert_eq!(d.finish(), e.finish());
}

#[test]
fn id_hash_is_the_offset_free_hash_xor_the_offset() {
    for (label, offset, base) in [("row", 4u32, 9u32), ("item", 2, 0), ("héllo", 0x8000_0001, 77)] {
        let with = ElementId::with_offset_and_base(label, offset, base).hash;
        let without = ElementId::with_offset_and_base(label, 0, base).hash;
        assert_eq!(with, without ^ offset);
    }
}

#[test]
fn distinct_bases_give_distinct_hashes() {
    let a = ElementId::with_offset_and_base("row", 4, 9).hash;
    let b = ElementId::with_offset_and_base("row", 4, 10).hash;
    let c = ElementId::local("row", 0).hash;
    let d = ElementId::local("row", 1).hash;
    assert_ne!(a, b);
    assert_ne!(c, d);
    assert_eq!(ElementId::new("row").hash, c);
}
