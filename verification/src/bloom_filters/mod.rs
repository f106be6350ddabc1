//! A shared interface over bloom-filter variants: the [`Filter`] trait
//! states the behaviour every variant owes — no false negatives, determinism
//! and a stable size — and [`ClassicalBloomFilter`] implements it over one
//! shared bit array.

mod base;
mod classical_bloom_filter;

pub use self::base::Filter;
pub use self::classical_bloom_filter::ClassicalBloomFilter;
pub use self::classical_bloom_filter::lemma_classical_insert_idempotent;
pub use self::classical_bloom_filter::lemma_classical_lookup_deterministic;
pub use self::classical_bloom_filter::lemma_classical_no_false_negatives;
