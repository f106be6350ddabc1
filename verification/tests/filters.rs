// Fixtures for the filter variants. The pair (m, k) = (96, 7) used
// throughout is what the parameter formulas derive for 10 expected elements
// at a false-positive target of 0.01:
//   m = ceil(-(10 * ln 0.01) / (ln 2)^2) = 96
//   k = ceil((96 / 10) * ln 2) = 7        (with 96 / 10 truncated to 9)

use bloom_filters::bloom_filters::ClassicalBloomFilter;
use bloom_filters::bloom_filters::Filter;

#[test]
fn bloom_simple_check() {
    let mut bf = bloom_filters::bloom::BloomFilter::new(96, 7);
    bf.insert(&1u32.to_be_bytes());
    bf.insert(&10u32.to_be_bytes());
    bf.insert(&30u32.to_be_bytes());

    let res = bf.lookup(&1u32.to_be_bytes());
    assert!(res, "stored value is not found!");

    let res = bf.lookup(&10u32.to_be_bytes());
    assert!(res, "stored value is not found!");

    let res = bf.lookup(&30u32.to_be_bytes());
    assert!(res, "stored value is not found!");

    let res = bf.lookup(&45u32.to_be_bytes());
    assert!(!res, "not stored value is found!");
}

#[test]
fn partitioned_simple_check() {
    let mut bf = bloom_filters::bloom::PartitionedBloomFilter::new(96, 7);
    bf.insert(&1u32.to_be_bytes());
    bf.insert(&10u32.to_be_bytes());
    bf.insert(&30u32.to_be_bytes());

    let res = bf.lookup(&1u32.to_be_bytes());
    assert!(res, "stored value is not found!");

    let res = bf.lookup(&10u32.to_be_bytes());
    assert!(res, "stored value is not found!");

    let res = bf.lookup(&30u32.to_be_bytes());
    assert!(res, "stored value is not found!");

    let res = bf.lookup(&45u32.to_be_bytes());
    assert!(!res, "not stored value is found!");
}

#[test]
fn classical_bloom_filter_simple_check() {
    let mut bf = ClassicalBloomFilter::new(96, 7);
    bf.insert(&1u32.to_be_bytes());
    bf.insert(&10u32.to_be_bytes());
    bf.insert(&30u32.to_be_bytes());

    let res = bf.lookup(&1u32.to_be_bytes());
    assert!(res, "stored value is not found!");

    let res = bf.lookup(&10u32.to_be_bytes());
    assert!(res, "stored value is not found!");

    let res = bf.lookup(&30u32.to_be_bytes());
    assert!(res, "stored value is not found!");

    let res = bf.lookup(&45u32.to_be_bytes());
    assert!(!res, "not stored value is found!");
}

#[test]
fn lib_simple_check() {
    let mut bf = bloom_filters::BloomFilter::new(96, 7);
    bf.insert(&1u32.to_be_bytes());
    bf.insert(&10u32.to_be_bytes());
    bf.insert(&30u32.to_be_bytes());

    let res = bf.lookup(&1u32.to_be_bytes());
    assert!(res, "stored value is not found!");

    let res = bf.lookup(&10u32.to_be_bytes());
    assert!(res, "stored value is not found!");

    let res = bf.lookup(&30u32.to_be_bytes());
    assert!(res, "stored value is not found!");

    let res = bf.lookup(&45u32.to_be_bytes());
    assert_eq!(res, false, "not stored value is found!");
}

#[test]
fn parameter_formulas() {
    // The closed-form parameter derivation for n = 10, f = 0.01: the values
    // every fixture above constructs with.
    let n: u32 = 10;
    let f: f64 = 0.01;
    let m = (-(f.ln() * n as f64) / std::f64::consts::LN_2.powi(2)).ceil() as u64;
    assert_eq!(m, 96);
    let k = ((m / n as u64) as f64 * std::f64::consts::LN_2).ceil() as u64;
    assert_eq!(k, 7);
}

#[test]
fn fresh_filter_finds_nothing() {
    // Every bit starts clear, so a fresh filter answers false for any value.
    let bf = bloom_filters::bloom::BloomFilter::new(96, 7);
    assert!(!bf.lookup(&45u32.to_be_bytes()));
    assert!(!bf.lookup(&[]));

    let pf = bloom_filters::bloom::PartitionedBloomFilter::new(96, 7);
    assert!(!pf.lookup(&45u32.to_be_bytes()));
    assert!(!pf.lookup(&[]));

    let cf = ClassicalBloomFilter::new(96, 7);
    assert!(!cf.lookup(&45u32.to_be_bytes()));
    assert!(!cf.lookup(&[]));

    let rf = bloom_filters::BloomFilter::new(96, 7);
    assert!(!rf.lookup(&45u32.to_be_bytes()));
    assert!(!rf.lookup(&[]));
}

#[test]
fn empty_value_round_trip() {
    // The empty byte sequence is a value like any other.
    let mut bf = bloom_filters::bloom::BloomFilter::new(96, 7);
    bf.insert(&[]);
    assert!(bf.lookup(&[]));

    let mut pf = bloom_filters::bloom::PartitionedBloomFilter::new(96, 7);
    pf.insert(&[]);
    assert!(pf.lookup(&[]));
}

#[test]
fn insert_is_idempotent() {
    let mut bf = bloom_filters::bloom::BloomFilter::new(96, 7);
    bf.insert(&1u32.to_be_bytes());
    assert!(bf.lookup(&1u32.to_be_bytes()));
    bf.insert(&1u32.to_be_bytes());
    assert!(bf.lookup(&1u32.to_be_bytes()));
    assert!(!bf.lookup(&45u32.to_be_bytes()));
}

#[test]
fn lookups_never_revert() {
    // No false negatives: values stay found while later values are added.
    let mut bf = bloom_filters::bloom::BloomFilter::new(96, 7);
    let values: [u32; 5] = [1, 10, 30, 500, 70000];
    for (n, v) in values.iter().enumerate() {
        bf.insert(&v.to_be_bytes());
        for w in values.iter().take(n + 1) {
            assert!(bf.lookup(&w.to_be_bytes()), "stored value is not found!");
        }
    }

    let mut pf = bloom_filters::bloom::PartitionedBloomFilter::new(96, 7);
    for (n, v) in values.iter().enumerate() {
        pf.insert(&v.to_be_bytes());
        for w in values.iter().take(n + 1) {
            assert!(pf.lookup(&w.to_be_bytes()), "stored value is not found!");
        }
    }
}

#[test]
fn lookup_is_deterministic() {
    // Byte-identical queries against the same state answer alike.
    let mut bf = bloom_filters::bloom::BloomFilter::new(96, 7);
    bf.insert(&1u32.to_be_bytes());
    for v in [1u32, 10, 30, 45, 70000] {
        let first = bf.lookup(&v.to_be_bytes());
        let second = bf.lookup(&v.to_be_bytes());
        assert_eq!(first, second);
    }
}

#[test]
fn single_partition_filter() {
    // With k = 1 the partitioned variant degenerates to one partition of
    // floor(96 / 1) = 96 bits, probed once per value.
    let mut pf = bloom_filters::bloom::PartitionedBloomFilter::new(96, 1);
    assert_eq!(pf.get_size(), 1);
    pf.insert(&1u32.to_be_bytes());
    pf.insert(&10u32.to_be_bytes());
    assert!(pf.lookup(&1u32.to_be_bytes()));
    assert!(pf.lookup(&10u32.to_be_bytes()));
    assert!(!pf.lookup(&45u32.to_be_bytes()));
}

#[test]
fn one_bit_partitions_saturate() {
    // With m = k = 7 each partition holds a single bit, so one insert sets
    // every partition's only bit and every later lookup answers true.
    let mut pf = bloom_filters::bloom::PartitionedBloomFilter::new(7, 7);
    pf.insert(&1u32.to_be_bytes());
    assert!(pf.lookup(&1u32.to_be_bytes()));
    assert!(pf.lookup(&45u32.to_be_bytes()));
    assert!(pf.lookup(&[]));
}

#[test]
fn get_size_asymmetry() {
    // The classical variant reports its bit capacity, the partitioned one
    // its partition count: a documented behavioural difference.
    let mut bf = bloom_filters::bloom::BloomFilter::new(96, 7);
    assert_eq!(bf.get_size(), 96);
    bf.insert(&1u32.to_be_bytes());
    assert_eq!(bf.get_size(), 96);

    let mut pf = bloom_filters::bloom::PartitionedBloomFilter::new(96, 7);
    assert_eq!(pf.get_size(), 7);
    pf.insert(&1u32.to_be_bytes());
    assert_eq!(pf.get_size(), 7);

    let cf = ClassicalBloomFilter::new(96, 7);
    assert_eq!(cf.get_size(), 96);
}
