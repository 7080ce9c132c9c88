//! The membership filter: a probabilistic "already tried" test over byte
//! keys, with no false negatives, a bounded bit-array, and a reset once an
//! insertion ceiling is reached so that memory and the false-positive rate
//! stay bounded.

use vstd::prelude::*;
use std::collections::hash_map::RandomState;
use bloom::BloomFilter;

verus! {

#[verifier::external_type_specification]
#[verifier::external_body]
#[verifier::reject_recursive_types(R)]
#[verifier::reject_recursive_types(S)]
pub struct ExBloomFilter<R, S>(BloomFilter<R, S>);

/// The set of byte keys inserted into a Bloom filter since it was built.
pub uninterp spec fn bloom_contents(f: BloomFilter<RandomState, RandomState>) -> Set<Seq<u8>>;

/// Relies on `bloom::BloomFilter::with_size`: a fresh filter with every bit
/// of its bit array clear, so nothing has been inserted into it.
#[verifier::external_body]
fn bloom_with_size(num_bits: usize, num_hashes: u32) -> (r: BloomFilter<RandomState, RandomState>)
    requires
        num_bits >= 1,
        num_hashes >= 1,
    ensures
        bloom_contents(r) =~= Set::<Seq<u8>>::empty(),
{
    BloomFilter::with_size(num_bits, num_hashes)
}

/// Relies on `bloom::ASMS::insert` for `BloomFilter`: sets the key's probe
/// bits, so the key joins the inserted set and nothing leaves it.
#[verifier::external_body]
fn bloom_insert(f: &mut BloomFilter<RandomState, RandomState>, key: &Vec<u8>)
    ensures
        bloom_contents(*final(f)) =~= bloom_contents(*old(f)).insert(key@),
{
    bloom::ASMS::insert(f, key);
}

/// Relies on `bloom::ASMS::contains` for `BloomFilter`: true whenever the
/// key's probe bits are all set, which holds for every inserted key (no
/// false negatives) and for no key at all while the bit array is still clear
/// (a filter built by `with_size` probes at least one bit).
#[verifier::external_body]
fn bloom_contains(f: &BloomFilter<RandomState, RandomState>, key: &Vec<u8>) -> (r: bool)
    ensures
        bloom_contents(*f).contains(key@) ==> r,
        bloom_contents(*f) =~= Set::<Seq<u8>>::empty() ==> !r,
{
    bloom::ASMS::contains(f, key)
}

/// A Bloom filter together with its reset policy: after `max_insertions`
/// insertions the filter is replaced by a fresh empty one and the counter
/// returns to zero, trading rare repeated work for bounded memory.
pub struct MembershipFilter {
    bloom: BloomFilter<RandomState, RandomState>,
    num_bits: usize,
    num_hashes: u32,
    insertions: usize,
    max_insertions: usize,
}

impl MembershipFilter {
    /// The keys currently remembered: everything inserted since the last
    /// reset.
    pub closed spec fn contents(self) -> Set<Seq<u8>> {
        bloom_contents(self.bloom)
    }

    /// Insertions since the last reset.
    pub closed spec fn insertions(self) -> nat {
        self.insertions as nat
    }

    /// The insertion ceiling the filter was built with.
    pub closed spec fn ceiling(self) -> nat {
        self.max_insertions as nat
    }

    /// The filter's configuration is meaningful and the counter is inside
    /// the ceiling.
    pub closed spec fn wf(self) -> bool {
        &&& self.num_bits >= 1
        &&& self.num_hashes >= 1
        &&& self.max_insertions >= 1
        &&& self.insertions < self.max_insertions
    }

    /// Builds an empty filter over `num_bits` bits with `num_hashes` probes
    /// per key, which resets itself after `max_insertions` insertions.
    pub fn new(num_bits: usize, num_hashes: u32, max_insertions: usize) -> (r: MembershipFilter)
        requires
            num_bits >= 1,
            num_hashes >= 1,
            max_insertions >= 1,
        ensures
            r.wf(),
            r.contents() =~= Set::<Seq<u8>>::empty(),
            r.insertions() == 0,
            r.ceiling() == max_insertions,
    {
        MembershipFilter {
            bloom: bloom_with_size(num_bits, num_hashes),
            num_bits,
            num_hashes,
            insertions: 0,
            max_insertions,
        }
    }

    /// Insertions since the last reset.
    pub fn insertion_count(&self) -> (r: usize)
        ensures
            r == self.insertions(),
    {
        self.insertions
    }

    /// Whether the key may already have been tried. An inserted key is
    /// always reported (no false negatives); an empty filter reports
    /// nothing; in between, a spurious `true` is possible (false positive).
    pub fn contains(&self, key: &Vec<u8>) -> (r: bool)
        ensures
            self.contents().contains(key@) ==> r,
            self.contents() =~= Set::<Seq<u8>>::empty() ==> !r,
    {
        bloom_contains(&self.bloom, key)
    }

    /// Records a key. When this insertion reaches the ceiling the filter is
    /// replaced by a fresh empty one and the counter starts over; otherwise
    /// the key joins the remembered set.
    pub fn insert(&mut self, key: &Vec<u8>)
        requires
            old(self).wf(),
        ensures
            final(self).wf(),
            final(self).ceiling() == old(self).ceiling(),
            old(self).insertions() + 1 < old(self).ceiling() ==> final(self).contents() =~= old(
                self,
            ).contents().insert(key@) && final(self).insertions() == old(self).insertions() + 1,
            old(self).insertions() + 1 == old(self).ceiling() ==> final(self).contents()
                =~= Set::<Seq<u8>>::empty() && final(self).insertions() == 0,
    {
        bloom_insert(&mut self.bloom, key);
        self.insertions = self.insertions + 1;
        if self.insertions >= self.max_insertions {
            self.bloom = bloom_with_size(self.num_bits, self.num_hashes);
            self.insertions = 0;
        }
    }
}

/// After the insertion that reaches the ceiling, the filter starts over
/// empty: no previously inserted key is remembered, so `contains` reports
/// none of them.
pub proof fn lemma_reset_forgets(f: MembershipFilter, key: Seq<u8>)
    requires
        f.contents() =~= Set::<Seq<u8>>::empty(),
    ensures
        !f.contents().contains(key),
{
}

/// A key is reported as present immediately after it is inserted, provided
/// the insertion did not reach the ceiling and reset the filter: the filter
/// has no false negatives.
pub proof fn lemma_no_false_negative(before: MembershipFilter, after: MembershipFilter, key: Seq<u8>)
    requires
        before.wf(),
        before.insertions() + 1 < before.ceiling(),
        after.contents() =~= before.contents().insert(key),
    ensures
        after.contents().contains(key),
{
}

} // verus!
