//! The insert/lookup protocols over one shared bit array, common to the
//! filters that keep all their bits in a single vector: set or check the
//! `k` probe bits of the double-hashing recurrence.

use vstd::prelude::*;
use crate::bits::bit_vec_bits;
use crate::bits::bitvec_get;
use crate::bits::bitvec_set;
use crate::hashing::lemma_probe_in_range;
use crate::hashing::lemma_probe_sum_bounded;
use crate::hashing::probe_index;
use crate::hashing::probe_of;

verus! {

/// Whether one of the first `k` probes of the recurrence lands on bit `j`.
pub open spec fn some_probe_hits(h1: int, h2: int, k: int, size: int, j: int) -> bool {
    exists|i: int| 0 <= i < k && probe_of(h1, h2, i, size) == j
}

/// Whether all of the first `k` probe bits are set in `bits`.
pub open spec fn all_probes_set(bits: Seq<bool>, h1: int, h2: int, k: int, size: int) -> bool {
    forall|i: int| 0 <= i < k ==> bits[#[trigger] probe_of(h1, h2, i, size)]
}

/// Sets the `k` probe bits of the recurrence over the reduced base hashes
/// `h1` and `h2`; every other bit is left alone.
pub(crate) fn set_probes(storage: &mut bit_vec::BitVec, h1: u64, h2: u64, k: u64, size: u64)
    requires
        1 <= size,
        size <= usize::MAX,
        h1 < size,
        h2 < size,
        k * size <= u64::MAX,
        bit_vec_bits(*old(storage)).len() == size,
    ensures
        bit_vec_bits(*final(storage)).len() == size,
        forall|j: int|
            0 <= j < size ==> bit_vec_bits(*final(storage))[j] == (bit_vec_bits(*old(storage))[j]
                || some_probe_hits(h1 as int, h2 as int, k as int, size as int, j)),
        all_probes_set(
            bit_vec_bits(*final(storage)),
            h1 as int,
            h2 as int,
            k as int,
            size as int,
        ),
{
    let mut i: u64 = 0;
    while i < k
        invariant
            1 <= size,
            size <= usize::MAX,
            h1 < size,
            h2 < size,
            k * size <= u64::MAX,
            i <= k,
            bit_vec_bits(*storage).len() == size,
            forall|j: int|
                0 <= j < size ==> bit_vec_bits(*storage)[j] == (bit_vec_bits(*old(storage))[j]
                    || exists|i2: int|
                    0 <= i2 < i && #[trigger] probe_of(h1 as int, h2 as int, i2, size as int)
                        == j),
        decreases k - i,
    {
        proof {
            lemma_probe_sum_bounded(h1 as int, h2 as int, i as int, k as int, size as int);
        }
        let idx = probe_index(h1, h2, i, size);
        let ghost prev = bit_vec_bits(*storage);
        bitvec_set(storage, idx as usize, true);
        proof {
            assert forall|j: int| 0 <= j < size implies bit_vec_bits(*storage)[j] == (bit_vec_bits(
                *old(storage),
            )[j] || exists|i2: int|
                0 <= i2 < i + 1 && #[trigger] probe_of(h1 as int, h2 as int, i2, size as int)
                    == j) by {
                if j == idx {
                    assert(0 <= i < i + 1 && probe_of(h1 as int, h2 as int, i as int, size as int)
                        == j);
                } else {
                    assert(bit_vec_bits(*storage)[j] == prev[j]);
                    if exists|i2: int|
                        0 <= i2 < i + 1 && #[trigger] probe_of(h1 as int, h2 as int, i2, size as int)
                            == j {
                        let i2 = choose|i2: int|
                            0 <= i2 < i + 1 && #[trigger] probe_of(
                                h1 as int,
                                h2 as int,
                                i2,
                                size as int,
                            ) == j;
                        assert(i2 != i);
                        assert(0 <= i2 < i && probe_of(h1 as int, h2 as int, i2, size as int)
                            == j);
                    }
                }
            }
        }
        i = i + 1;
    }
    proof {
        assert forall|i2: int| 0 <= i2 < k implies bit_vec_bits(*storage)[#[trigger] probe_of(
            h1 as int,
            h2 as int,
            i2,
            size as int,
        )] by {
            lemma_probe_in_range(h1 as int, h2 as int, i2, size as int);
            assert(some_probe_hits(
                h1 as int,
                h2 as int,
                k as int,
                size as int,
                probe_of(h1 as int, h2 as int, i2, size as int),
            ));
        }
    }
}

/// Checks the `k` probe bits of the recurrence over the reduced base hashes
/// `h1` and `h2`: `false` as soon as one is clear, `true` once all are set.
pub(crate) fn check_probes(
    storage: &bit_vec::BitVec,
    h1: u64,
    h2: u64,
    k: u64,
    size: u64,
) -> (r: bool)
    requires
        1 <= size,
        size <= usize::MAX,
        h1 < size,
        h2 < size,
        k * size <= u64::MAX,
        bit_vec_bits(*storage).len() == size,
    ensures
        r == all_probes_set(bit_vec_bits(*storage), h1 as int, h2 as int, k as int, size as int),
{
    let mut i: u64 = 0;
    while i < k
        invariant
            1 <= size,
            size <= usize::MAX,
            h1 < size,
            h2 < size,
            k * size <= u64::MAX,
            i <= k,
            bit_vec_bits(*storage).len() == size,
            forall|i2: int|
                0 <= i2 < i ==> bit_vec_bits(*storage)[#[trigger] probe_of(
                    h1 as int,
                    h2 as int,
                    i2,
                    size as int,
                )],
        decreases k - i,
    {
        proof {
            lemma_probe_sum_bounded(h1 as int, h2 as int, i as int, k as int, size as int);
        }
        let idx = probe_index(h1, h2, i, size);
        match bitvec_get(storage, idx as usize) {
            Some(false) => {
                proof {
                    assert(!bit_vec_bits(*storage)[probe_of(
                        h1 as int,
                        h2 as int,
                        i as int,
                        size as int,
                    )]);
                }
                return false;
            },
            _ => {},
        }
        i = i + 1;
    }
    true
}

} // verus!
