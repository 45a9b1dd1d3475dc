//! The pluggable pairwise scoring policy consumed by the alignment engine.

use vstd::prelude::*;

verus! {

/// Largest magnitude a single pairwise score or unit gap penalty may have.
///
/// The dynamic-programming matrix adds at most `len(A) + len(B)` such unit
/// contributions into one cell, so with sequence lengths also capped at this
/// value every intermediate sum stays within `i64`.
pub const SCORE_LIMIT: i64 = 0x7fff_ffff;

/// A pairwise scoring policy: a substitution score for a pair of characters
/// and a penalty for a gap of a given length.
///
/// Both operations are deterministic and pure; the gap penalty is always
/// subtracted from a running score, never added.
pub trait Scorer: Sized {
    /// Well-formedness of the policy's parameters; the exec operations are
    /// only callable on well-formed policies.
    spec fn wf(&self) -> bool;

    /// The substitution score for the pair `(a, b)`.
    spec fn spec_score(&self, a: char, b: char) -> int;

    /// The penalty for a gap of `size` positions.
    spec fn spec_gap_penalty(&self, size: nat) -> int;

    /// Whether the penalty for a gap of `size` positions fits in `i64`.
    spec fn gap_fits(&self, size: nat) -> bool;

    /// A well-formed policy can always compute its unit gap penalty.
    proof fn unit_gap_fits(&self)
        requires
            self.wf(),
        ensures
            self.gap_fits(1),
    ;

    fn score(&self, a: char, b: char) -> (r: i64)
        requires
            self.wf(),
        ensures
            r == self.spec_score(a, b),
            -SCORE_LIMIT <= r <= SCORE_LIMIT,
    ;

    fn gap_penalty(&self, size: u32) -> (r: i64)
        requires
            self.wf(),
            1 <= size,
            self.gap_fits(size as nat),
        ensures
            r == self.spec_gap_penalty(size as nat),
            size == 1 ==> -SCORE_LIMIT <= r <= SCORE_LIMIT,
    ;
}

} // verus!
