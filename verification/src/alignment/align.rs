//! Core types and interfaces for alignment algorithms.

use vstd::prelude::*;

verus! {

/// One step of an alignment: a pairing of positions, or a gap on one side.
///
/// `Both` pairs a position of the left sequence with one of the right
/// sequence; `RightGap` consumes a position of the left sequence against a
/// gap in the right one; `LeftGap` consumes a position of the right sequence
/// against a gap in the left one.
#[derive(Clone, Copy, Debug, PartialEq, Eq, Structural)]
pub enum AlignmentCell {
    Both { left: usize, right: usize },
    RightGap { left: usize },
    LeftGap { right: usize },
}

/// One optimal path through both sequences, index-ascending.
pub type Alignment = Vec<AlignmentCell>;

/// The view of a collection of alignments as a sequence of sequences.
pub open spec fn alignments_view(als: Seq<Alignment>) -> Seq<Seq<AlignmentCell>> {
    als.map_values(|al: Alignment| al@)
}

/// Domain error of the alignment engine: alignment is undefined when either
/// input sequence is empty.
#[derive(Clone, Copy, Debug, PartialEq, Eq, Structural)]
pub enum AlignmentError {
    EmptySequence,
}

/// The result of one alignment run: a score together with every alignment
/// that attains it.
pub struct Alignments {
    score: i64,
    alignments: Vec<Alignment>,
}

impl Alignments {
    /// The score shared by all contained alignments.
    pub closed spec fn spec_score(&self) -> i64 {
        self.score
    }

    /// The contained alignments, as a sequence of sequences of cells.
    pub closed spec fn spec_alignments(&self) -> Seq<Seq<AlignmentCell>> {
        alignments_view(self.alignments@)
    }

    pub fn new(score: i64, alignments: Vec<Alignment>) -> (r: Alignments)
        ensures
            r.spec_score() == score,
            r.spec_alignments() == alignments_view(alignments@),
    {
        Alignments { score, alignments }
    }

    pub fn score(&self) -> (r: i64)
        ensures
            r == self.spec_score(),
    {
        self.score
    }

    pub fn len(&self) -> (r: usize)
        ensures
            r == self.spec_alignments().len(),
    {
        self.alignments.len()
    }

    /// The alignment at position `i`; together with `len` this replaces
    /// iteration over the collection.
    pub fn get(&self, i: usize) -> (r: &Alignment)
        requires
            i < self.spec_alignments().len(),
        ensures
            r@ == self.spec_alignments()[i as int],
    {
        &self.alignments[i]
    }
}

/// The contiguity law from cell `k` on, where `(left, right)` is the
/// position pair of cell `k - 1`: each further cell advances the position
/// by exactly `(+1, +1)` (`Both`), `(+1, 0)` (`RightGap`) or `(0, +1)`
/// (`LeftGap`), carrying the coordinate a gap leaves unchanged.
pub open spec fn spec_contiguous_from(al: Seq<AlignmentCell>, k: int, left: int, right: int) -> bool
    decreases al.len() - k,
{
    if k < 0 || k >= al.len() {
        true
    } else {
        match al[k] {
            AlignmentCell::Both { left: l, right: r } => l == left + 1 && r == right + 1
                && spec_contiguous_from(al, k + 1, l as int, r as int),
            AlignmentCell::RightGap { left: l } => l == left + 1 && spec_contiguous_from(
                al,
                k + 1,
                l as int,
                right,
            ),
            AlignmentCell::LeftGap { right: r } => r == right + 1 && spec_contiguous_from(
                al,
                k + 1,
                left,
                r as int,
            ),
        }
    }
}

/// The contiguity law of an alignment: it is empty, or it opens with a
/// `Both` cell and every later cell advances the implied position pair by
/// exactly one of the deltas `(+1, +1)`, `(+1, 0)`, `(0, +1)`.
pub open spec fn spec_contiguous(al: Seq<AlignmentCell>) -> bool {
    al.len() == 0 || (match al[0] {
        AlignmentCell::Both { left, right } => spec_contiguous_from(
            al,
            1,
            left as int,
            right as int,
        ),
        _ => false,
    })
}

/// An alignment engine: calculates the best alignments of two sequences.
///
/// An engine carries its own specification: the score and the alignments it
/// returns for a pair of sequences are spec-level functions of the engine,
/// and `align` is bound to them exactly.
pub trait Aligner: Sized {
    /// Well-formedness of the engine's configuration.
    spec fn wf(&self) -> bool;

    /// Whether a pair of sequence lengths is small enough for the engine's
    /// arithmetic.
    spec fn fits(&self, a_len: nat, b_len: nat) -> bool;

    /// The score that every returned alignment attains.
    spec fn spec_score(&self, a: Seq<char>, b: Seq<char>) -> int;

    /// The alignments the engine returns, in the engine's scan order.
    spec fn spec_alignments(&self, a: Seq<char>, b: Seq<char>) -> Seq<Seq<AlignmentCell>>;

    /// Calculate the best alignments of sequences `a` and `b`.
    ///
    /// Returns the score that all of the returned alignments attain,
    /// together with every alignment that attains it; each alignment pairs
    /// indices of `a` with indices of `b`, with a gap on at most one side
    /// per cell.  Alignment is undefined for an empty sequence, and only
    /// then does the engine fail.
    fn align(&self, a: &str, b: &str) -> (r: Result<Alignments, AlignmentError>)
        requires
            self.wf(),
            self.fits(a@.len(), b@.len()),
        ensures
            r is Ok <==> a@.len() > 0 && b@.len() > 0,
            match r {
                Ok(res) => {
                    &&& res.spec_score() == self.spec_score(a@, b@)
                    &&& res.spec_alignments() == self.spec_alignments(a@, b@)
                    &&& res.spec_alignments().len() >= 1
                },
                Err(e) => e == AlignmentError::EmptySequence,
            },
    ;
}

} // verus!
