use fnv::FnvHasher;
use kyute::bloom::{bitmask_from_hashes, bloom_bitmask, Bloom, OFFSET_ONE, OFFSET_TWO};
use std::hash::{Hash, Hasher};

fn fnv(seed: u64, item: u64) -> u64 {
    let mut h = FnvHasher::with_key(seed);
    item.hash(&mut h);
    h.finish()
}

#[test]
fn bitmask_sets_the_two_hashed_bits() {
    assert_eq!(bitmask_from_hashes(3, 5), 0b101000);
    assert_eq!(bitmask_from_hashes(64 + 1, 1), 0b10);
    assert_eq!(bitmask_from_hashes(63, 0), (1u64 << 63) | 1);
}

#[test]
fn bloom_bitmask_uses_both_seeds() {
    for item in [0u64, 1, 42, 0xdead_beef, u64::MAX] {
        let expected = (1u64 << (fnv(OFFSET_ONE, item) % 64)) | (1u64 << (fnv(OFFSET_TWO, item) % 64));
        assert_eq!(bloom_bitmask(item), expected);
        assert_ne!(bloom_bitmask(item), 0);
    }
}

#[test]
fn fnv_offset_basis_matches_reference() {
    // FNV-1a of no bytes is the offset basis itself.
    let h = FnvHasher::with_key(OFFSET_ONE);
    assert_eq!(h.finish(), 0xcbf29ce484222325);
}

#[test]
fn added_items_always_pass() {
    let mut b = Bloom::new();
    for item in 0u64..200 {
        b.add(item);
        assert!(b.may_contain(item));
    }
    for item in 0u64..200 {
        assert!(b.may_contain(item));
    }
}

#[test]
fn empty_and_cleared_filters_reject() {
    let mut b = Bloom::new();
    for item in 0u64..100 {
        assert!(!b.may_contain(item));
    }
    b.add(7);
    b.clear();
    for item in 0u64..100 {
        assert!(!b.may_contain(item));
    }
    let d = Bloom::default();
    assert!(!d.may_contain(7));
}

#[test]
fn extend_unions_filters() {
    let mut a = Bloom::new();
    let mut b = Bloom::new();
    a.add(1);
    b.add(2);
    a.extend(&b);
    assert!(a.may_contain(1));
    assert!(a.may_contain(2));
}

#[test]
fn single_item_filter_is_exactly_its_mask() {
    let mut b = Bloom::new();
    b.add(12345);
    let mask = bloom_bitmask(12345);
    for item in 0u64..1000 {
        assert_eq!(b.may_contain(item), bloom_bitmask(item) & mask == bloom_bitmask(item));
    }
}
