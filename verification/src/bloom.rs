//! Bloom filter over 64-bit identifiers.
//!
//! Used to find out quickly whether an identified node may be part of a
//! subtree, so that events aimed at it are only routed where it can be.
use vstd::prelude::*;
use fnv::FnvHasher;
use std::hash::{Hash, Hasher};

verus! {

/// The FNV offset basis, as the algorithm describes it.
pub const OFFSET_ONE: u64 = 0xcbf2_9ce4_8422_2325;

/// A second, arbitrary seed.
pub const OFFSET_TWO: u64 = 0xe10_3ad8_2dad_8028;

/// Number of bits in the filter.
pub const NUM_BITS: u64 = 64;

/// The FNV-1a hash of an identifier, starting from the state `seed`, over
/// the eight bytes of the identifier in the machine's byte order.
pub uninterp spec fn fnv_hash(seed: u64, item: u64) -> u64;

/// Hashes `item` with `fnv::FnvHasher::with_key(seed)` through `Hash for u64`
/// (which writes the eight native-endian bytes of `item`) and returns
/// `finish()`.
///
/// Trusted: the result is the named value `fnv_hash(seed, item)`, which on a
/// given machine depends on the seed and the item alone (FNV-1a has no hidden
/// state); the byte order, and so the value, is that of the machine, which is
/// why the result is named rather than spelled out.
#[verifier::external_body]
fn bloom_hash(item: u64, seed: u64) -> (h: u64)
    ensures
        h == fnv_hash(seed, item),
{
    let mut hasher = FnvHasher::with_key(seed);
    item.hash(&mut hasher);
    hasher.finish()
}

/// The two bits that an item with hashes `h1` and `h2` sets.
pub open spec fn spec_bitmask(h1: u64, h2: u64) -> u64 {
    (1u64 << (h1 % 64)) | (1u64 << (h2 % 64))
}

/// The bits that `item` sets in a filter.
pub open spec fn item_mask(item: u64) -> u64 {
    spec_bitmask(fnv_hash(OFFSET_ONE, item), fnv_hash(OFFSET_TWO, item))
}

/// Combines two hashes of an item into its mask of two bits.
pub fn bitmask_from_hashes(h1: u64, h2: u64) -> (mask: u64)
    ensures
        mask == spec_bitmask(h1, h2),
{
    (1u64 << (h1 % NUM_BITS)) | (1u64 << (h2 % NUM_BITS))
}

/// Returns the bits that `item` sets in a filter.
pub fn bloom_bitmask(item: u64) -> (mask: u64)
    ensures
        mask == item_mask(item),
{
    let h1 = bloom_hash(item, OFFSET_ONE);
    let h2 = bloom_hash(item, OFFSET_TWO);
    bitmask_from_hashes(h1, h2)
}

/// A mask made of two hashes is never empty.
pub proof fn lemma_bitmask_nonzero(h1: u64, h2: u64)
    ensures
        spec_bitmask(h1, h2) != 0,
{
    let a = h1 % 64;
    let b = h2 % 64;
    assert((1u64 << a) | (1u64 << b) != 0) by (bit_vector)
        requires
            a < 64,
            b < 64,
    ;
}

/// A set of identifiers, approximated from above: it can answer "maybe" for
/// an identifier that was never added, but never "no" for one that was.
#[derive(Copy, Clone)]
pub struct Bloom {
    bits: u64,
}

impl Bloom {
    /// The bits of the filter.
    pub closed spec fn bits(&self) -> u64 {
        self.bits
    }

    /// Whether `item` passes the filter.
    pub open spec fn spec_may_contain(&self, item: u64) -> bool {
        self.bits() & item_mask(item) == item_mask(item)
    }

    /// Creates an empty filter.
    pub fn new() -> (b: Bloom)
        ensures
            b.bits() == 0,
    {
        Bloom { bits: 0 }
    }

    /// Adds an item to the filter.
    pub fn add(&mut self, item: u64)
        ensures
            final(self).bits() == old(self).bits() | item_mask(item),
    {
        let mask = bloom_bitmask(item);
        self.bits = self.bits | mask;
    }

    /// Combines the items of the filter with another.
    pub fn extend(&mut self, other: &Bloom)
        ensures
            final(self).bits() == old(self).bits() | other.bits(),
    {
        self.bits = self.bits | other.bits;
    }

    /// Removes all entries from the filter.
    pub fn clear(&mut self)
        ensures
            final(self).bits() == 0,
    {
        self.bits = 0;
    }

    /// Returns whether the specified item may have been added to the filter.
    pub fn may_contain(&self, item: u64) -> (r: bool)
        ensures
            r == self.spec_may_contain(item),
    {
        let mask = bloom_bitmask(item);
        self.bits & mask == mask
    }

    /// Returns an empty filter.
    pub fn default() -> (b: Bloom)
        ensures
            b.bits() == 0,
    {
        Bloom::new()
    }
}

/// An item that was added passes the filter: a filter has no false negatives.
/// `after` is `before` with `item` added.
pub proof fn law_added_item_passes(before: Bloom, after: Bloom, item: u64)
    requires
        after.bits() == before.bits() | item_mask(item),
    ensures
        after.spec_may_contain(item),
{
    let x = before.bits();
    let m = item_mask(item);
    assert((x | m) & m == m) by (bit_vector);
}

/// Adding items or merging another filter never makes an item that passed
/// fail afterwards: `after` holds every bit of `before`.
pub proof fn law_growth_keeps_items(before: Bloom, after: Bloom, more: u64, item: u64)
    requires
        before.spec_may_contain(item),
        after.bits() == before.bits() | more,
    ensures
        after.spec_may_contain(item),
{
    let x = before.bits();
    let m = item_mask(item);
    assert(x & m == m ==> (x | more) & m == m) by (bit_vector);
}

/// An empty filter (new, default or cleared) lets no item pass.
pub proof fn law_empty_filter_rejects(b: Bloom, item: u64)
    requires
        b.bits() == 0,
    ensures
        !b.spec_may_contain(item),
{
    lemma_bitmask_nonzero(fnv_hash(OFFSET_ONE, item), fnv_hash(OFFSET_TWO, item));
    let m = item_mask(item);
    assert(m != 0 ==> 0u64 & m != m) by (bit_vector);
}

} // verus!
