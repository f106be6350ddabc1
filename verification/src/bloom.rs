//! The two filter variants over one shared bit array (`BloomFilter`) and over
//! per-hash partitions (`PartitionedBloomFilter`). Both derive their probe
//! indices by double hashing: two fixed-seed base hashes of the value's
//! bytes, combined as `(h1 + i * h2) mod size` for probe `i`.

use vstd::prelude::*;
use crate::bits::bit_vec_bits;
use crate::bits::bitvec_from_elem;
use crate::bits::bitvec_get;
use crate::bits::bitvec_len;
use crate::bits::bitvec_set;
use crate::hashing::SEED_HASH_ONE;
use crate::hashing::SEED_HASH_TWO;
use crate::hashing::lemma_probe_in_range;
use crate::hashing::lemma_probe_sum_bounded;
use crate::hashing::probe_index;
use crate::hashing::probe_of;
use crate::hashing::xxh3_64;
use crate::hashing::xxh3_with_seed;
use crate::probes::all_probes_set;
use crate::probes::check_probes;
use crate::probes::set_probes;
use crate::probes::some_probe_hits;
use vstd::arithmetic::div_mod::lemma_div_by_multiple;
use vstd::arithmetic::div_mod::lemma_div_is_ordered;
use vstd::arithmetic::div_mod::lemma_fundamental_div_mod;
use vstd::arithmetic::div_mod::lemma_mod_bound;

verus! {

/// The classical variant: one shared bit array of `m` bits, probed at `k`
/// derived indices per value.
pub struct BloomFilter {
    /// number of bits in the filter
    m: u64,
    /// number of hash functions
    k: u64,
    storage: bit_vec::BitVec,
}

impl BloomFilter {
    /// Total bit-array capacity `m`.
    pub closed spec fn num_bits(self) -> u64 {
        self.m
    }

    /// Number of hash functions `k`.
    pub closed spec fn num_hashes(self) -> u64 {
        self.k
    }

    /// The stored bit array.
    pub closed spec fn bits(self) -> Seq<bool> {
        bit_vec_bits(self.storage)
    }

    /// Structural invariant: both derived parameters are at least 1, the
    /// array holds exactly `m` bits, and the sizes admit 64-bit index
    /// arithmetic.
    pub open spec fn wf(self) -> bool {
        &&& 1 <= self.num_bits()
        &&& 1 <= self.num_hashes()
        &&& self.bits().len() == self.num_bits()
        &&& self.num_bits() <= usize::MAX
        &&& self.num_hashes() * self.num_bits() <= u64::MAX
    }

    /// The first base hash of `value`, reduced modulo `m`.
    pub open spec fn hash_one(self, value: Seq<u8>) -> int {
        xxh3_64(value, SEED_HASH_ONE) as int % self.num_bits() as int
    }

    /// The second base hash of `value`, reduced modulo `m`.
    pub open spec fn hash_two(self, value: Seq<u8>) -> int {
        xxh3_64(value, SEED_HASH_TWO) as int % self.num_bits() as int
    }

    /// The bit position probe `i` touches for `value`.
    pub open spec fn probe_at(self, value: Seq<u8>, i: int) -> int {
        probe_of(self.hash_one(value), self.hash_two(value), i, self.num_bits() as int)
    }

    /// Whether some probe of `value` touches bit position `j`.
    pub open spec fn hits(self, value: Seq<u8>, j: int) -> bool {
        exists|i: int| 0 <= i < self.num_hashes() && self.probe_at(value, i) == j
    }

    /// Membership answer of the filter state: every probe of `value` finds
    /// its bit set.
    pub open spec fn contains_spec(self, value: Seq<u8>) -> bool {
        forall|i: int|
            0 <= i < self.num_hashes() ==> self.bits()[#[trigger] self.probe_at(value, i)]
    }

    /// Builds a filter of `m` zeroed bits probed by `k` hash functions.
    ///
    /// The bounds keep the array addressable and the probe arithmetic free
    /// of 64-bit overflow; the embedding program derives `m` and `k` from
    /// the expected element count and the target false-positive rate and
    /// rejects degenerate parameters before construction.
    pub fn new(m: u64, k: u64) -> (r: Self)
        requires
            1 <= m,
            1 <= k,
            m <= usize::MAX,
            k * m <= u64::MAX,
        ensures
            r.wf(),
            r.num_bits() == m,
            r.num_hashes() == k,
            forall|j: int| 0 <= j < r.bits().len() ==> !r.bits()[j],
    {
        BloomFilter { m, k, storage: bitvec_from_elem(m as usize, false) }
    }

    /// Sets the `k` probe bits of `value`; every other bit is left alone,
    /// so bits only ever go from clear to set.
    pub fn insert(&mut self, value: &[u8])
        requires
            old(self).wf(),
        ensures
            final(self).wf(),
            final(self).num_bits() == old(self).num_bits(),
            final(self).num_hashes() == old(self).num_hashes(),
            forall|j: int|
                0 <= j < final(self).bits().len()
                    ==> final(self).bits()[j] == (old(self).bits()[j] || old(self).hits(
                    value@,
                    j,
                )),
            final(self).contains_spec(value@),
    {
        let hash1 = xxh3_with_seed(value, SEED_HASH_ONE) % self.m;
        let hash2 = xxh3_with_seed(value, SEED_HASH_TWO) % self.m;
        set_probes(&mut self.storage, hash1, hash2, self.k, self.m);
        proof {
            let h1: int = old(self).hash_one(value@);
            let h2: int = old(self).hash_two(value@);
            let k: int = old(self).num_hashes() as int;
            let m: int = old(self).num_bits() as int;
            assert forall|j: int| 0 <= j < self.bits().len() implies self.bits()[j] == (old(
                self,
            ).bits()[j] || old(self).hits(value@, j)) by {
                if old(self).hits(value@, j) {
                    let i = choose|i: int|
                        0 <= i < old(self).num_hashes() && #[trigger] old(self).probe_at(
                            value@,
                            i,
                        ) == j;
                    assert(probe_of(h1, h2, i, m) == j);
                    assert(some_probe_hits(h1, h2, k, m, j));
                }
                if some_probe_hits(h1, h2, k, m, j) {
                    let i = choose|i: int| 0 <= i < k && #[trigger] probe_of(h1, h2, i, m) == j;
                    assert(old(self).probe_at(value@, i) == j);
                    assert(old(self).hits(value@, j));
                }
            }
            assert forall|i: int| 0 <= i < self.num_hashes() implies self.bits()[#[trigger] self
                .probe_at(value@, i)] by {
                assert(self.probe_at(value@, i) == probe_of(h1, h2, i, m));
                assert(self.bits()[probe_of(h1, h2, i, m)]);
            }
        }
    }

    /// Checks the `k` probe bits of `value`: `false` as soon as one is
    /// clear, `true` once all are set. A `true` may be a false positive;
    /// a `false` is definite absence.
    pub fn lookup(&self, value: &[u8]) -> (r: bool)
        requires
            self.wf(),
        ensures
            r == self.contains_spec(value@),
    {
        let hash1 = xxh3_with_seed(value, SEED_HASH_ONE) % self.m;
        let hash2 = xxh3_with_seed(value, SEED_HASH_TWO) % self.m;
        let r = check_probes(&self.storage, hash1, hash2, self.k, self.m);
        proof {
            let h1: int = self.hash_one(value@);
            let h2: int = self.hash_two(value@);
            let k: int = self.num_hashes() as int;
            let m: int = self.num_bits() as int;
            if self.contains_spec(value@) {
                assert forall|i: int| 0 <= i < k implies self.bits()[#[trigger] probe_of(
                    h1,
                    h2,
                    i,
                    m,
                )] by {
                    assert(probe_of(h1, h2, i, m) == self.probe_at(value@, i));
                    assert(self.bits()[self.probe_at(value@, i)]);
                }
            }
            if all_probes_set(self.bits(), h1, h2, k, m) {
                assert forall|i: int| 0 <= i < self.num_hashes() implies self.bits()[
                #[trigger] self.probe_at(value@, i)] by {
                    assert(self.probe_at(value@, i) == probe_of(h1, h2, i, m));
                    assert(self.bits()[probe_of(h1, h2, i, m)]);
                }
            }
        }
        r
    }

    /// Returns the bit-array capacity `m` (not an element count).
    pub fn get_size(&self) -> (r: usize)
        ensures
            r == self.bits().len(),
            self.wf() ==> r == self.num_bits(),
    {
        bitvec_len(&self.storage)
    }
}

/// Law: no false negatives. A value the filter already answers `true` for
/// keeps that answer under any further growth of the bit array — and an
/// insert only ever grows it — so once a value is inserted, every later
/// lookup of the same bytes answers `true`.
pub proof fn lemma_no_false_negatives(pre: BloomFilter, post: BloomFilter, value: Seq<u8>)
    requires
        pre.wf(),
        post.num_bits() == pre.num_bits(),
        post.num_hashes() == pre.num_hashes(),
        post.bits().len() == pre.bits().len(),
        forall|j: int| 0 <= j < pre.bits().len() ==> (pre.bits()[j] ==> post.bits()[j]),
        pre.contains_spec(value),
    ensures
        post.contains_spec(value),
{
    assert forall|i: int| 0 <= i < post.num_hashes() implies post.bits()[#[trigger] post.probe_at(
        value,
        i,
    )] by {
        lemma_probe_in_range(
            pre.hash_one(value),
            pre.hash_two(value),
            i,
            pre.num_bits() as int,
        );
        assert(post.probe_at(value, i) == pre.probe_at(value, i));
        assert(pre.bits()[pre.probe_at(value, i)]);
    }
}

/// Law: determinism. The membership answer is a function of the filter
/// state and the queried bytes alone, so equal states and byte-identical
/// values always answer alike.
pub proof fn lemma_lookup_deterministic(
    f1: BloomFilter,
    f2: BloomFilter,
    v1: Seq<u8>,
    v2: Seq<u8>,
)
    requires
        f1 == f2,
        v1 == v2,
    ensures
        f1.contains_spec(v1) == f2.contains_spec(v2),
{
}

/// Law: idempotence. Inserting the same value a second time has no further
/// effect: the premises are exactly what `insert`'s contract gives for two
/// consecutive inserts of `value`, and the bit arrays after the first and
/// the second insert are equal.
pub proof fn lemma_insert_idempotent(
    start: BloomFilter,
    once: BloomFilter,
    twice: BloomFilter,
    value: Seq<u8>,
)
    requires
        once.num_bits() == start.num_bits(),
        once.num_hashes() == start.num_hashes(),
        once.bits().len() == start.bits().len(),
        forall|j: int|
            0 <= j < once.bits().len() ==> once.bits()[j] == (start.bits()[j] || start.hits(
                value,
                j,
            )),
        twice.num_bits() == once.num_bits(),
        twice.num_hashes() == once.num_hashes(),
        twice.bits().len() == once.bits().len(),
        forall|j: int|
            0 <= j < twice.bits().len() ==> twice.bits()[j] == (once.bits()[j] || once.hits(
                value,
                j,
            )),
    ensures
        twice.bits() == once.bits(),
{
    assert forall|j: int| 0 <= j < twice.bits().len() implies twice.bits()[j] == once.bits()[
        j
    ] by {
        if once.hits(value, j) {
            let i = choose|i: int|
                0 <= i < once.num_hashes() && #[trigger] once.probe_at(value, i) == j;
            assert(start.probe_at(value, i) == once.probe_at(value, i));
            assert(start.hits(value, j));
        }
    }
    assert(twice.bits() =~= once.bits());
}

/// The partitioned variant: `k` disjoint bit arrays of `floor(m / k)` bits
/// each, hash function `i` permanently bound to partition `i`, so distinct
/// hash functions can never collide on the same physical bit.
pub struct PartitionedBloomFilter {
    /// number of bits in the filter
    m: u64,
    /// number of hash functions
    k: u64,
    partition_size: usize,
    partitions: Vec<bit_vec::BitVec>,
}

impl PartitionedBloomFilter {
    /// Total bit budget `m` the partitions were derived from.
    pub closed spec fn num_bits(self) -> u64 {
        self.m
    }

    /// Number of hash functions `k`, one per partition.
    pub closed spec fn num_hashes(self) -> u64 {
        self.k
    }

    /// Bits per partition, `floor(m / k)`.
    pub closed spec fn partition_size_spec(self) -> usize {
        self.partition_size
    }

    /// Number of partitions held.
    pub closed spec fn num_partitions(self) -> nat {
        self.partitions@.len()
    }

    /// The bit array of partition `p`.
    pub closed spec fn partition_bits(self, p: int) -> Seq<bool> {
        bit_vec_bits(self.partitions@[p])
    }

    /// Structural invariant: one partition of `floor(m / k)` bits per hash
    /// function, every size at least 1, and the sizes admit 64-bit index
    /// arithmetic.
    pub open spec fn wf(self) -> bool {
        &&& 1 <= self.num_hashes()
        &&& self.num_hashes() <= self.num_bits()
        &&& self.num_hashes() <= usize::MAX
        &&& self.partition_size_spec() == self.num_bits() / self.num_hashes()
        &&& 1 <= self.partition_size_spec()
        &&& self.num_hashes() * self.partition_size_spec() <= self.num_bits()
        &&& self.num_partitions() == self.num_hashes()
        &&& forall|p: int|
            0 <= p < self.num_partitions() ==> #[trigger] self.partition_bits(p).len()
                == self.partition_size_spec()
    }

    /// The first base hash of `value`, reduced modulo the partition size.
    pub open spec fn hash_one(self, value: Seq<u8>) -> int {
        xxh3_64(value, SEED_HASH_ONE) as int % self.partition_size_spec() as int
    }

    /// The second base hash of `value`, reduced modulo the partition size.
    pub open spec fn hash_two(self, value: Seq<u8>) -> int {
        xxh3_64(value, SEED_HASH_TWO) as int % self.partition_size_spec() as int
    }

    /// The index probe `i` touches for `value` — inside partition `i`, the
    /// only partition that probe ever reads or writes.
    pub open spec fn probe_at(self, value: Seq<u8>, i: int) -> int {
        probe_of(self.hash_one(value), self.hash_two(value), i, self.partition_size_spec() as int)
    }

    /// Membership answer of the filter state: for every `i`, probe `i`
    /// finds its bit set in partition `i`.
    pub open spec fn contains_spec(self, value: Seq<u8>) -> bool {
        forall|i: int|
            0 <= i < self.num_hashes() ==> self.partition_bits(i)[#[trigger] self.probe_at(
                value,
                i,
            )]
    }

    /// Builds a filter of `k` zeroed partitions, each of `floor(m / k)`
    /// bits.
    ///
    /// The bounds keep every partition non-empty and addressable; the
    /// embedding program derives `m` and `k` from the expected element
    /// count and the target false-positive rate and rejects degenerate
    /// parameters before construction.
    pub fn new(m: u64, k: u64) -> (r: Self)
        requires
            1 <= k,
            k <= m,
            k <= usize::MAX,
            m / k <= usize::MAX,
        ensures
            r.wf(),
            r.num_bits() == m,
            r.num_hashes() == k,
            forall|p: int, j: int|
                0 <= p < r.num_partitions() && 0 <= j < r.partition_bits(p).len()
                    ==> !r.partition_bits(p)[j],
    {
        proof {
            lemma_fundamental_div_mod(m as int, k as int);
            lemma_mod_bound(m as int, k as int);
            assert(k * (m as int / k as int) <= m);
            lemma_div_by_multiple(1, k as int);
            lemma_div_is_ordered(k as int, m as int, k as int);
            assert(1 <= m as int / k as int);
        }
        let partition_size = (m / k) as usize;
        let mut partitions: Vec<bit_vec::BitVec> = Vec::new();
        let mut p: u64 = 0;
        while p < k
            invariant
                p <= k,
                k <= usize::MAX,
                partitions@.len() == p,
                forall|q: int|
                    0 <= q < p ==> #[trigger] bit_vec_bits(partitions@[q]).len()
                        == partition_size,
                forall|q: int, j: int|
                    0 <= q < p && 0 <= j < partition_size ==> !(#[trigger] bit_vec_bits(
                        partitions@[q],
                    )[j]),
            decreases k - p,
        {
            partitions.push(bitvec_from_elem(partition_size, false));
            p = p + 1;
        }
        let r = PartitionedBloomFilter { m, k, partition_size, partitions };
        proof {
            assert(k * r.partition_size_spec() <= m);
            assert forall|p: int|
                0 <= p < r.num_partitions() implies #[trigger] r.partition_bits(p).len()
                == r.partition_size_spec() by {
                assert(bit_vec_bits(r.partitions@[p]).len() == partition_size);
            }
        }
        r
    }

    /// Sets probe `i`'s bit in partition `i` for every `i`; each partition
    /// changes in at most that one position and no other partition is
    /// touched by that probe.
    pub fn insert(&mut self, value: &[u8])
        requires
            old(self).wf(),
        ensures
            final(self).wf(),
            final(self).num_bits() == old(self).num_bits(),
            final(self).num_hashes() == old(self).num_hashes(),
            final(self).partition_size_spec() == old(self).partition_size_spec(),
            final(self).num_partitions() == old(self).num_partitions(),
            forall|p: int|
                0 <= p < final(self).num_partitions() ==> #[trigger] final(self).partition_bits(p)
                    == old(self).partition_bits(p).update(old(self).probe_at(value@, p), true),
            final(self).contains_spec(value@),
    {
        let ps = self.partition_size as u64;
        let hash1 = xxh3_with_seed(value, SEED_HASH_ONE) % ps;
        let hash2 = xxh3_with_seed(value, SEED_HASH_TWO) % ps;
        let mut i: u64 = 0;
        while i < self.k
            invariant
                old(self).wf(),
                self.m == old(self).m,
                self.k == old(self).k,
                self.partition_size == old(self).partition_size,
                ps == self.partition_size,
                i <= self.k,
                hash1 == old(self).hash_one(value@),
                hash2 == old(self).hash_two(value@),
                hash1 < ps,
                hash2 < ps,
                self.partitions@.len() == old(self).partitions@.len(),
                forall|p: int|
                    0 <= p < i ==> #[trigger] self.partition_bits(p) == old(self).partition_bits(
                        p,
                    ).update(old(self).probe_at(value@, p), true),
                forall|p: int|
                    i <= p < self.partitions@.len() ==> self.partitions@[p] == old(
                        self,
                    ).partitions@[p],
            decreases self.k - i,
        {
            let ghost pre = *self;
            proof {
                lemma_probe_sum_bounded(
                    hash1 as int,
                    hash2 as int,
                    i as int,
                    self.k as int,
                    ps as int,
                );
                lemma_probe_in_range(hash1 as int, hash2 as int, i as int, ps as int);
                assert(pre.partitions@[i as int] == old(self).partitions@[i as int]);
                assert(pre.partition_bits(i as int) == old(self).partition_bits(i as int));
            }
            let idx = probe_index(hash1, hash2, i, ps);
            bitvec_set(&mut self.partitions[i as usize], idx as usize, true);
            proof {
                assert(old(self).probe_at(value@, i as int) == idx);
                assert(bit_vec_bits(self.partitions@[i as int]) == bit_vec_bits(
                    pre.partitions@[i as int],
                ).update(idx as int, true));
                assert forall|p: int|
                    0 <= p < i + 1 implies #[trigger] self.partition_bits(p) == old(
                    self,
                ).partition_bits(p).update(old(self).probe_at(value@, p), true) by {
                    if p == i {
                        assert(self.partition_bits(p) == old(self).partition_bits(p).update(
                            idx as int,
                            true,
                        ));
                    } else {
                        assert(self.partitions@[p] == pre.partitions@[p]);
                        assert(self.partition_bits(p) == pre.partition_bits(p));
                        assert(pre.partition_bits(p) == old(self).partition_bits(p).update(
                            old(self).probe_at(value@, p),
                            true,
                        ));
                    }
                }
                assert forall|p: int|
                    i + 1 <= p < self.partitions@.len() implies self.partitions@[p] == old(
                    self,
                ).partitions@[p] by {
                    assert(self.partitions@[p] == pre.partitions@[p]);
                    assert(pre.partitions@[p] == old(self).partitions@[p]);
                }
            }
            i = i + 1;
        }
        proof {
            assert forall|i2: int| 0 <= i2 < self.num_hashes() implies self.partition_bits(
                i2,
            )[#[trigger] self.probe_at(value@, i2)] by {
                lemma_probe_in_range(
                    old(self).hash_one(value@),
                    old(self).hash_two(value@),
                    i2,
                    old(self).partition_size_spec() as int,
                );
                assert(self.probe_at(value@, i2) == old(self).probe_at(value@, i2));
                assert(self.partition_bits(i2) == old(self).partition_bits(i2).update(
                    old(self).probe_at(value@, i2),
                    true,
                ));
            }
        }
    }

    /// Checks probe `i`'s bit in partition `i` for every `i`: `false` as
    /// soon as one is clear, `true` once all are set. A `true` may be a
    /// false positive; a `false` is definite absence.
    pub fn lookup(&self, value: &[u8]) -> (r: bool)
        requires
            self.wf(),
        ensures
            r == self.contains_spec(value@),
    {
        let ps = self.partition_size as u64;
        let hash1 = xxh3_with_seed(value, SEED_HASH_ONE) % ps;
        let hash2 = xxh3_with_seed(value, SEED_HASH_TWO) % ps;
        let mut i: u64 = 0;
        while i < self.k
            invariant
                self.wf(),
                ps == self.partition_size,
                i <= self.k,
                hash1 == self.hash_one(value@),
                hash2 == self.hash_two(value@),
                hash1 < ps,
                hash2 < ps,
                forall|i2: int|
                    0 <= i2 < i ==> self.partition_bits(i2)[#[trigger] self.probe_at(value@, i2)],
            decreases self.k - i,
        {
            proof {
                lemma_probe_sum_bounded(
                    hash1 as int,
                    hash2 as int,
                    i as int,
                    self.k as int,
                    ps as int,
                );
            }
            let idx = probe_index(hash1, hash2, i, ps);
            match bitvec_get(&self.partitions[i as usize], idx as usize) {
                Some(false) => {
                    proof {
                        assert(!self.partition_bits(i as int)[self.probe_at(value@, i as int)]);
                    }
                    return false;
                },
                _ => {},
            }
            i = i + 1;
        }
        true
    }

    /// Returns the number of partitions (which equals `k`) — a deliberate
    /// asymmetry with the classical variant, whose size is the bit count.
    pub fn get_size(&self) -> (r: usize)
        ensures
            r == self.num_partitions(),
            self.wf() ==> r == self.num_hashes(),
    {
        self.partitions.len()
    }
}

/// Law: no false negatives, partitioned variant. A value already answered
/// `true` keeps that answer under any per-partition growth of the bits —
/// and an insert only ever grows them.
pub proof fn lemma_partitioned_no_false_negatives(
    pre: PartitionedBloomFilter,
    post: PartitionedBloomFilter,
    value: Seq<u8>,
)
    requires
        pre.wf(),
        post.num_hashes() == pre.num_hashes(),
        post.partition_size_spec() == pre.partition_size_spec(),
        post.num_partitions() == pre.num_partitions(),
        forall|p: int|
            0 <= p < pre.num_partitions() ==> post.partition_bits(p).len()
                == pre.partition_bits(p).len(),
        forall|p: int, j: int|
            0 <= p < pre.num_partitions() && 0 <= j < pre.partition_bits(p).len() ==> (
            #[trigger] pre.partition_bits(p)[j] ==> post.partition_bits(p)[j]),
        pre.contains_spec(value),
    ensures
        post.contains_spec(value),
{
    assert forall|i: int| 0 <= i < post.num_hashes() implies post.partition_bits(
        i,
    )[#[trigger] post.probe_at(value, i)] by {
        lemma_probe_in_range(
            pre.hash_one(value),
            pre.hash_two(value),
            i,
            pre.partition_size_spec() as int,
        );
        assert(post.probe_at(value, i) == pre.probe_at(value, i));
        assert(pre.partition_bits(i)[pre.probe_at(value, i)]);
    }
}

/// Law: determinism, partitioned variant. The membership answer is a
/// function of the filter state and the queried bytes alone.
pub proof fn lemma_partitioned_lookup_deterministic(
    f1: PartitionedBloomFilter,
    f2: PartitionedBloomFilter,
    v1: Seq<u8>,
    v2: Seq<u8>,
)
    requires
        f1 == f2,
        v1 == v2,
    ensures
        f1.contains_spec(v1) == f2.contains_spec(v2),
{
}

/// Law: idempotence, partitioned variant. Inserting the same value a second
/// time has no further effect: the premises are exactly what `insert`'s
/// contract gives for two consecutive inserts of `value`, and every
/// partition is equal after the first and the second insert.
pub proof fn lemma_partitioned_insert_idempotent(
    start: PartitionedBloomFilter,
    once: PartitionedBloomFilter,
    twice: PartitionedBloomFilter,
    value: Seq<u8>,
)
    requires
        start.wf(),
        once.num_hashes() == start.num_hashes(),
        once.partition_size_spec() == start.partition_size_spec(),
        once.num_partitions() == start.num_partitions(),
        forall|p: int|
            0 <= p < once.num_partitions() ==> #[trigger] once.partition_bits(p)
                == start.partition_bits(p).update(start.probe_at(value, p), true),
        twice.num_hashes() == once.num_hashes(),
        twice.partition_size_spec() == once.partition_size_spec(),
        twice.num_partitions() == once.num_partitions(),
        forall|p: int|
            0 <= p < twice.num_partitions() ==> #[trigger] twice.partition_bits(p)
                == once.partition_bits(p).update(once.probe_at(value, p), true),
    ensures
        forall|p: int|
            0 <= p < twice.num_partitions() ==> #[trigger] twice.partition_bits(p)
                == once.partition_bits(p),
{
    assert forall|p: int| 0 <= p < twice.num_partitions() implies #[trigger] twice.partition_bits(
        p,
    ) == once.partition_bits(p) by {
        lemma_probe_in_range(
            start.hash_one(value),
            start.hash_two(value),
            p,
            start.partition_size_spec() as int,
        );
        assert(start.partition_bits(p).len() == start.partition_size_spec());
        assert(once.probe_at(value, p) == start.probe_at(value, p));
        assert(once.partition_bits(p) == start.partition_bits(p).update(
            start.probe_at(value, p),
            true,
        ));
        assert(twice.partition_bits(p) =~= once.partition_bits(p));
    }
}

/// Law: partition independence. The index probe `i` touches for a value
/// always falls inside partition `i`'s bounds, and by `insert`'s contract
/// that probe changes partition `i` alone — so two distinct hash functions
/// can never touch the same physical bit.
pub proof fn lemma_partition_independence(f: PartitionedBloomFilter, value: Seq<u8>, i: int)
    requires
        f.wf(),
        0 <= i < f.num_hashes(),
    ensures
        0 <= f.probe_at(value, i) < f.partition_size_spec(),
{
    lemma_probe_in_range(f.hash_one(value), f.hash_two(value), i, f.partition_size_spec() as int);
}

} // verus!
