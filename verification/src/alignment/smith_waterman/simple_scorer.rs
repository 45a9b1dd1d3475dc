//! The reference scoring policy: a fixed match score and a linear gap
//! penalty.

use vstd::prelude::*;

use super::scorer::{Scorer, SCORE_LIMIT};

verus! {

/// Simple scoring strategy for Smith-Waterman.
///
/// The base score is awarded for matching characters and its negative for
/// mismatches; the gap penalty is the base gap penalty multiplied by the
/// length of the gap.
pub struct SimpleScorer {
    pub base_score: i64,
    pub base_gap_penalty: i64,
}

impl SimpleScorer {
    pub fn new(base_score: i64, base_gap_penalty: i64) -> (s: SimpleScorer)
        requires
            -SCORE_LIMIT <= base_score <= SCORE_LIMIT,
            -SCORE_LIMIT <= base_gap_penalty <= SCORE_LIMIT,
        ensures
            s.wf(),
            s.base_score == base_score,
            s.base_gap_penalty == base_gap_penalty,
    {
        SimpleScorer { base_score, base_gap_penalty }
    }

    pub fn default() -> (s: SimpleScorer)
        ensures
            s.wf(),
            s.base_score == 3,
            s.base_gap_penalty == 2,
    {
        SimpleScorer::new(3, 2)
    }
}

impl Scorer for SimpleScorer {
    open spec fn wf(&self) -> bool {
        &&& -SCORE_LIMIT <= self.base_score <= SCORE_LIMIT
        &&& -SCORE_LIMIT <= self.base_gap_penalty <= SCORE_LIMIT
    }

    open spec fn spec_score(&self, a: char, b: char) -> int {
        if a == b {
            self.base_score as int
        } else {
            -(self.base_score as int)
        }
    }

    open spec fn spec_gap_penalty(&self, size: nat) -> int {
        size * self.base_gap_penalty
    }

    open spec fn gap_fits(&self, size: nat) -> bool {
        i64::MIN <= size * self.base_gap_penalty <= i64::MAX
    }

    proof fn unit_gap_fits(&self) {
        assert(1 * self.base_gap_penalty == self.base_gap_penalty);
    }

    fn score(&self, a: char, b: char) -> (r: i64) {
        if a == b {
            self.base_score
        } else {
            -self.base_score
        }
    }

    fn gap_penalty(&self, size: u32) -> (r: i64) {
        if size == 1 {
            proof {
                assert(1 * self.base_gap_penalty == self.base_gap_penalty);
            }
            self.base_gap_penalty
        } else {
            let r = (size as i64) * self.base_gap_penalty;
            proof {
                assert(r == size * self.base_gap_penalty);
            }
            r
        }
    }
}

/// Gap-penalty linearity of the reference policy: the penalty for a gap of
/// `k` positions is `k` times the penalty for a gap of one position.
pub proof fn lemma_gap_penalty_linear(s: SimpleScorer, k: nat)
    requires
        k >= 1,
    ensures
        s.spec_gap_penalty(k) == k * s.spec_gap_penalty(1),
{
    assert(1 * s.base_gap_penalty == s.base_gap_penalty);
}

} // verus!
