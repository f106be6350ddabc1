//! The capability set shared by the filter variants: insert, lookup and a
//! size report, with the behavioural contract every implementation owes.

use vstd::prelude::*;

verus! {

/// A probabilistic membership filter.
///
/// The contract of `insert` carries the central law of the structure: the
/// set of values answered `true` only ever grows, so a value once inserted
/// is answered `true` by every later lookup — no false negatives. `lookup`
/// answers exactly the membership predicate of the current state, so equal
/// states and byte-identical values always answer alike.
pub trait Filter: Sized {
    /// Structural invariant of the variant, established at construction and
    /// preserved by every operation.
    spec fn wf(&self) -> bool;

    /// Membership answer of the filter state for a byte sequence.
    spec fn contains_spec(&self, value: Seq<u8>) -> bool;

    /// The value `get_size` reports; which quantity that is (bit capacity,
    /// partition count) is the variant's documented choice.
    spec fn size_spec(&self) -> int;

    /// Records `value` as present. Always succeeds, is idempotent, and
    /// never withdraws a membership answer already given.
    fn insert(&mut self, value: &[u8])
        requires
            old(self).wf(),
        ensures
            final(self).wf(),
            final(self).contains_spec(value@),
            forall|w: Seq<u8>|
                old(self).contains_spec(w) ==> final(self).contains_spec(w),
            final(self).size_spec() == old(self).size_spec(),
    ;

    /// Answers whether `value` is possibly present (`true`, which may be a
    /// false positive) or definitely absent (`false`).
    fn lookup(&self, value: &[u8]) -> (r: bool)
        requires
            self.wf(),
        ensures
            r == self.contains_spec(value@),
    ;

    /// Reports the variant's size figure.
    fn get_size(&self) -> (r: usize)
        requires
            self.wf(),
        ensures
            r == self.size_spec(),
    ;
}

} // verus!
