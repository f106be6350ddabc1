//! Bloom filters: probabilistic set-membership structures that answer
//! "possibly present" or "definitely absent" for a queried byte sequence,
//! with a bounded, tunable false-positive rate and no false negatives.
//!
//! Construction takes the derived parameters `m` (total bit count) and `k`
//! (number of probes per value); the floating-point formulas that derive
//! them from an expected element count and a target false-positive rate
//! belong to the embedding program, since this library holds only verified
//! integer logic.
//!
//! Every variant derives its probe indices the same way: two fixed-seed
//! base hashes of the value's bytes, combined by the double-hashing
//! recurrence `(h1 + i * h2) mod size` for probe `i`. The crate root holds
//! a standalone filter over one shared bit array; the [`bloom`] module
//! holds the classical and partitioned variants, and the [`bloom_filters`]
//! module a shared interface over them.

use vstd::prelude::*;

mod bits;
mod hashing;
mod probes;
pub mod bloom;
pub mod bloom_filters;

use crate::bits::bit_vec_bits;
use crate::bits::bitvec_from_elem;
use crate::hashing::SEED_HASH_ONE;
use crate::hashing::SEED_HASH_TWO;
use crate::hashing::lemma_probe_in_range;
use crate::hashing::probe_of;
use crate::hashing::xxh3_64;
use crate::hashing::xxh3_with_seed;
use crate::probes::all_probes_set;
use crate::probes::check_probes;
use crate::probes::set_probes;
use crate::probes::some_probe_hits;

verus! {

/// A standalone filter over one shared bit array of `m` bits, probed at
/// `k` double-hashed indices per value.
pub struct BloomFilter {
    /// number of bits in the filter
    m: u64,
    /// number of hash functions
    k: u64,
    storage: bit_vec::BitVec,
}

impl BloomFilter {
    /// Total bit-array capacity `m`.
    pub closed spec fn num_bits(self) -> u64 {
        self.m
    }

    /// Number of hash functions `k`.
    pub closed spec fn num_hashes(self) -> u64 {
        self.k
    }

    /// The stored bit array.
    pub closed spec fn bits(self) -> Seq<bool> {
        bit_vec_bits(self.storage)
    }

    /// Structural invariant: both derived parameters are at least 1, the
    /// array holds exactly `m` bits, and the sizes admit 64-bit index
    /// arithmetic.
    pub open spec fn wf(self) -> bool {
        &&& 1 <= self.num_bits()
        &&& 1 <= self.num_hashes()
        &&& self.bits().len() == self.num_bits()
        &&& self.num_bits() <= usize::MAX
        &&& self.num_hashes() * self.num_bits() <= u64::MAX
    }

    /// The first base hash of `value`, reduced modulo `m`.
    pub open spec fn hash_one(self, value: Seq<u8>) -> int {
        xxh3_64(value, SEED_HASH_ONE) as int % self.num_bits() as int
    }

    /// The second base hash of `value`, reduced modulo `m`.
    pub open spec fn hash_two(self, value: Seq<u8>) -> int {
        xxh3_64(value, SEED_HASH_TWO) as int % self.num_bits() as int
    }

    /// The bit position probe `i` touches for `value`.
    pub open spec fn probe_at(self, value: Seq<u8>, i: int) -> int {
        probe_of(self.hash_one(value), self.hash_two(value), i, self.num_bits() as int)
    }

    /// Whether some probe of `value` touches bit position `j`.
    pub open spec fn hits(self, value: Seq<u8>, j: int) -> bool {
        exists|i: int| 0 <= i < self.num_hashes() && self.probe_at(value, i) == j
    }

    /// Membership answer of the filter state: every probe of `value` finds
    /// its bit set.
    pub open spec fn contains_spec(self, value: Seq<u8>) -> bool {
        forall|i: int|
            0 <= i < self.num_hashes() ==> self.bits()[#[trigger] self.probe_at(value, i)]
    }

    /// Builds a filter of `m` zeroed bits probed by `k` hash functions.
    ///
    /// The bounds keep the array addressable and the probe arithmetic free
    /// of 64-bit overflow; the embedding program derives `m` and `k` from
    /// the expected element count and the target false-positive rate and
    /// rejects degenerate parameters before construction.
    pub fn new(m: u64, k: u64) -> (r: Self)
        requires
            1 <= m,
            1 <= k,
            m <= usize::MAX,
            k * m <= u64::MAX,
        ensures
            r.wf(),
            r.num_bits() == m,
            r.num_hashes() == k,
            forall|j: int| 0 <= j < r.bits().len() ==> !r.bits()[j],
    {
        BloomFilter { m, k, storage: bitvec_from_elem(m as usize, false) }
    }

    /// Sets the `k` probe bits of `value`; every other bit is left alone,
    /// so bits only ever go from clear to set.
    pub fn insert(&mut self, value: &[u8])
        requires
            old(self).wf(),
        ensures
            final(self).wf(),
            final(self).num_bits() == old(self).num_bits(),
            final(self).num_hashes() == old(self).num_hashes(),
            forall|j: int|
                0 <= j < final(self).bits().len()
                    ==> final(self).bits()[j] == (old(self).bits()[j] || old(self).hits(
                    value@,
                    j,
                )),
            final(self).contains_spec(value@),
    {
        let hash1 = xxh3_with_seed(value, SEED_HASH_ONE) % self.m;
        let hash2 = xxh3_with_seed(value, SEED_HASH_TWO) % self.m;
        set_probes(&mut self.storage, hash1, hash2, self.k, self.m);
        proof {
            let h1: int = old(self).hash_one(value@);
            let h2: int = old(self).hash_two(value@);
            let k: int = old(self).num_hashes() as int;
            let m: int = old(self).num_bits() as int;
            assert forall|j: int| 0 <= j < self.bits().len() implies self.bits()[j] == (old(
                self,
            ).bits()[j] || old(self).hits(value@, j)) by {
                if old(self).hits(value@, j) {
                    let i = choose|i: int|
                        0 <= i < old(self).num_hashes() && #[trigger] old(self).probe_at(
                            value@,
                            i,
                        ) == j;
                    assert(probe_of(h1, h2, i, m) == j);
                    assert(some_probe_hits(h1, h2, k, m, j));
                }
                if some_probe_hits(h1, h2, k, m, j) {
                    let i = choose|i: int| 0 <= i < k && #[trigger] probe_of(h1, h2, i, m) == j;
                    assert(old(self).probe_at(value@, i) == j);
                    assert(old(self).hits(value@, j));
                }
            }
            assert forall|i: int| 0 <= i < self.num_hashes() implies self.bits()[#[trigger] self
                .probe_at(value@, i)] by {
                assert(self.probe_at(value@, i) == probe_of(h1, h2, i, m));
                assert(self.bits()[probe_of(h1, h2, i, m)]);
            }
        }
    }

    /// Checks the `k` probe bits of `value`: `false` as soon as one is
    /// clear, `true` once all are set. A `true` may be a false positive;
    /// a `false` is definite absence.
    pub fn lookup(&self, value: &[u8]) -> (r: bool)
        requires
            self.wf(),
        ensures
            r == self.contains_spec(value@),
    {
        let hash1 = xxh3_with_seed(value, SEED_HASH_ONE) % self.m;
        let hash2 = xxh3_with_seed(value, SEED_HASH_TWO) % self.m;
        let r = check_probes(&self.storage, hash1, hash2, self.k, self.m);
        proof {
            let h1: int = self.hash_one(value@);
            let h2: int = self.hash_two(value@);
            let k: int = self.num_hashes() as int;
            let m: int = self.num_bits() as int;
            if self.contains_spec(value@) {
                assert forall|i: int| 0 <= i < k implies self.bits()[#[trigger] probe_of(
                    h1,
                    h2,
                    i,
                    m,
                )] by {
                    assert(probe_of(h1, h2, i, m) == self.probe_at(value@, i));
                    assert(self.bits()[self.probe_at(value@, i)]);
                }
            }
            if all_probes_set(self.bits(), h1, h2, k, m) {
                assert forall|i: int| 0 <= i < self.num_hashes() implies self.bits()[
                #[trigger] self.probe_at(value@, i)] by {
                    assert(self.probe_at(value@, i) == probe_of(h1, h2, i, m));
                    assert(self.bits()[probe_of(h1, h2, i, m)]);
                }
            }
        }
        r
    }
}

/// Law: no false negatives. A value the filter already answers `true` for
/// keeps that answer under any further growth of the bit array — and an
/// insert only ever grows it — so once a value is inserted, every later
/// lookup of the same bytes answers `true`.
pub proof fn lemma_no_false_negatives(pre: BloomFilter, post: BloomFilter, value: Seq<u8>)
    requires
        pre.wf(),
        post.num_bits() == pre.num_bits(),
        post.num_hashes() == pre.num_hashes(),
        post.bits().len() == pre.bits().len(),
        forall|j: int| 0 <= j < pre.bits().len() ==> (pre.bits()[j] ==> post.bits()[j]),
        pre.contains_spec(value),
    ensures
        post.contains_spec(value),
{
    assert forall|i: int| 0 <= i < post.num_hashes() implies post.bits()[#[trigger] post.probe_at(
        value,
        i,
    )] by {
        lemma_probe_in_range(
            pre.hash_one(value),
            pre.hash_two(value),
            i,
            pre.num_bits() as int,
        );
        assert(post.probe_at(value, i) == pre.probe_at(value, i));
        assert(pre.bits()[pre.probe_at(value, i)]);
    }
}

/// Law: determinism. The membership answer is a function of the filter
/// state and the queried bytes alone, so equal states and byte-identical
/// values always answer alike.
pub proof fn lemma_lookup_deterministic(
    f1: BloomFilter,
    f2: BloomFilter,
    v1: Seq<u8>,
    v2: Seq<u8>,
)
    requires
        f1 == f2,
        v1 == v2,
    ensures
        f1.contains_spec(v1) == f2.contains_spec(v2),
{
}

} // verus!
