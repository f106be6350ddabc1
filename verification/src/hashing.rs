//! The index generator: two base hashes of the value's bytes, reduced modulo
//! the target space, are combined by the double-hashing recurrence
//! `(h1 + i * h2) mod size` to yield the `i`-th probe index.

use vstd::prelude::*;
use vstd::arithmetic::div_mod::lemma_mod_bound;

verus! {

/// Seed of the first base hash; a fixed protocol constant shared by every
/// filter instance, so that equal inputs always yield equal bit arrays.
pub const SEED_HASH_ONE: u64 = 0;

/// Seed of the second base hash.
pub const SEED_HASH_TWO: u64 = 64;

/// The 64-bit digest `xxhash_rust::xxh3::xxh3_64_with_seed` computes; it
/// depends on the input bytes and the seed alone.
pub uninterp spec fn xxh3_64(bytes: Seq<u8>, seed: u64) -> u64;

/// Relies on `xxhash_rust::xxh3::xxh3_64_with_seed`: a pure, deterministic
/// 64-bit hash of `value` under `seed`.
#[verifier::external_body]
pub(crate) fn xxh3_with_seed(value: &[u8], seed: u64) -> (r: u64)
    ensures
        r == xxh3_64(value@, seed),
{
    xxhash_rust::xxh3::xxh3_64_with_seed(value, seed)
}

/// The `i`-th probe index of the double-hashing recurrence, over the reduced
/// base hashes `h1` and `h2` and the space size `size`.
pub open spec fn probe_of(h1: int, h2: int, i: int, size: int) -> int {
    (h1 + i * h2) % size
}

/// Every probe index falls inside the target space.
pub proof fn lemma_probe_in_range(h1: int, h2: int, i: int, size: int)
    requires
        0 <= h1,
        0 <= h2,
        0 <= i,
        1 <= size,
    ensures
        0 <= probe_of(h1, h2, i, size) < size,
{
    assert(0 <= i * h2) by (nonlinear_arith)
        requires
            0 <= i,
            0 <= h2,
    ;
    lemma_mod_bound(h1 + i * h2, size);
}

/// The sum `h1 + i * h2` stays under `bound * size` while the reduced hashes
/// stay under `size` and `i` stays under `bound`, so a 64-bit computation of
/// the recurrence cannot overflow when `bound * size` fits in 64 bits.
pub proof fn lemma_probe_sum_bounded(h1: int, h2: int, i: int, bound: int, size: int)
    by (nonlinear_arith)
    requires
        0 <= h1 < size,
        0 <= h2 < size,
        0 <= i < bound,
    ensures
        0 <= h1 + i * h2,
        h1 + i * h2 < bound * size,
{
}

/// Computes the `i`-th probe index `(h1 + i * h2) mod size`.
pub(crate) fn probe_index(h1: u64, h2: u64, i: u64, size: u64) -> (r: u64)
    requires
        1 <= size,
        h1 < size,
        h2 < size,
        h1 + i * h2 <= u64::MAX,
    ensures
        r == probe_of(h1 as int, h2 as int, i as int, size as int),
        r < size,
{
    proof {
        assert(0 <= i * h2 <= u64::MAX - h1) by (nonlinear_arith)
            requires
                0 <= i,
                0 <= h2,
                0 <= h1,
                h1 + i * h2 <= u64::MAX,
        ;
        lemma_probe_in_range(h1 as int, h2 as int, i as int, size as int);
    }
    (h1 + i * h2) % size
}

} // verus!
