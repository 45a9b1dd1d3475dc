//! The engine entry point: best-alignment selection over the score matrix.

use vstd::prelude::*;

use crate::alignment::align::{
    alignments_view, spec_contiguous, Aligner, AlignmentCell, AlignmentError, Alignments,
};
use super::details::{
    build_score_matrix, dirs_valid_below, lemma_alignment_contiguous, lemma_built_dirs_valid,
    lemma_steps_ok_alignment, lemma_tracebacks_agree, lemma_tracebacks_empty_element,
    lemma_tracebacks_nonempty, lemma_tracebacks_ok, matrix_dirs, prepend_all, recurrence_dirs,
    spec_alignment_of,
    max3, spec_candidates, spec_cell_dirs, spec_cell_score, spec_pred, spec_step_cell,
    spec_steps_ok,
    spec_traceback_alignment, spec_tracebacks, spec_tracebacks_from, traceback_to_alignment,
    tracebacks, tracebacks_view, Direction,
};
use super::scorer::{Scorer, SCORE_LIMIT};
use super::simple_scorer::SimpleScorer;

verus! {

/// The greater of two values.
pub open spec fn max2(a: int, b: int) -> int {
    if a >= b {
        a
    } else {
        b
    }
}

/// The maximum over cells `(i, 0..j)` of the score matrix, at least zero.
pub open spec fn spec_row_max<S: Scorer>(scorer: &S, a: Seq<char>, b: Seq<char>, i: int, j: int) -> int
    decreases j,
{
    if j <= 0 {
        0
    } else {
        max2(spec_row_max(scorer, a, b, i, j - 1), spec_cell_score(scorer, a, b, i, j - 1))
    }
}

/// The maximum over the rows `0..i` of the score matrix, at least zero.
pub open spec fn spec_rows_max<S: Scorer>(
    scorer: &S,
    a: Seq<char>,
    b: Seq<char>,
    i: int,
    cols: int,
) -> int
    decreases i,
{
    if i <= 0 {
        0
    } else {
        max2(spec_rows_max(scorer, a, b, i - 1, cols), spec_row_max(scorer, a, b, i - 1, cols))
    }
}

/// The global maximum of the score matrix for `a` against `b`.
pub open spec fn spec_max_score<S: Scorer>(scorer: &S, a: Seq<char>, b: Seq<char>) -> int {
    spec_rows_max(scorer, a, b, a.len() + 1 as int, b.len() + 1 as int)
}

/// The cells `(i, 0..j)` whose score equals `v`, in ascending column order.
pub open spec fn spec_row_cells<S: Scorer>(
    scorer: &S,
    a: Seq<char>,
    b: Seq<char>,
    v: int,
    i: int,
    j: int,
) -> Seq<(usize, usize)>
    decreases j,
{
    if j <= 0 {
        Seq::<(usize, usize)>::empty()
    } else {
        spec_row_cells(scorer, a, b, v, i, j - 1) + (if spec_cell_score(scorer, a, b, i, j - 1)
            == v {
            seq![(i as usize, (j - 1) as usize)]
        } else {
            Seq::<(usize, usize)>::empty()
        })
    }
}

/// The cells of rows `0..i` whose score equals `v`, in row-major order.
pub open spec fn spec_rows_cells<S: Scorer>(
    scorer: &S,
    a: Seq<char>,
    b: Seq<char>,
    v: int,
    i: int,
    cols: int,
) -> Seq<(usize, usize)>
    decreases i,
{
    if i <= 0 {
        Seq::<(usize, usize)>::empty()
    } else {
        spec_rows_cells(scorer, a, b, v, i - 1, cols) + spec_row_cells(
            scorer,
            a,
            b,
            v,
            i - 1,
            cols,
        )
    }
}

/// Every cell of the score matrix that attains the global maximum, in
/// row-major scan order.
pub open spec fn spec_max_cells<S: Scorer>(scorer: &S, a: Seq<char>, b: Seq<char>) -> Seq<
    (usize, usize),
> {
    spec_rows_cells(scorer, a, b, spec_max_score(scorer, a, b), a.len() + 1 as int, b.len() + 1 as int)
}

/// The row maximum dominates every cell of the row prefix.
proof fn lemma_row_max_ge<S: Scorer>(scorer: &S, a: Seq<char>, b: Seq<char>, i: int, j: int, c: int)
    requires
        0 <= c < j,
    ensures
        spec_cell_score(scorer, a, b, i, c) <= spec_row_max(scorer, a, b, i, j),
    decreases j,
{
    if c < j - 1 {
        lemma_row_max_ge(scorer, a, b, i, j - 1, c);
    }
}

/// The rows maximum dominates every cell above row `i`.
proof fn lemma_rows_max_ge<S: Scorer>(
    scorer: &S,
    a: Seq<char>,
    b: Seq<char>,
    i: int,
    cols: int,
    r: int,
    c: int,
)
    requires
        0 <= r < i,
        0 <= c < cols,
    ensures
        spec_cell_score(scorer, a, b, r, c) <= spec_rows_max(scorer, a, b, i, cols),
    decreases i,
{
    if r < i - 1 {
        lemma_rows_max_ge(scorer, a, b, i - 1, cols, r, c);
    } else {
        lemma_row_max_ge(scorer, a, b, r, cols, c);
    }
}

/// A positive row maximum is attained by some cell of the row prefix.
proof fn lemma_row_max_witness<S: Scorer>(scorer: &S, a: Seq<char>, b: Seq<char>, i: int, j: int)
    requires
        spec_row_max(scorer, a, b, i, j) > 0,
    ensures
        exists|c: int|
            0 <= c < j && #[trigger] spec_cell_score(scorer, a, b, i, c) == spec_row_max(
                scorer,
                a,
                b,
                i,
                j,
            ),
    decreases j,
{
    if j > 0 {
        if spec_cell_score(scorer, a, b, i, j - 1) == spec_row_max(scorer, a, b, i, j) {
        } else {
            lemma_row_max_witness(scorer, a, b, i, j - 1);
        }
    }
}

/// A positive rows maximum is attained by some cell above row `i`.
proof fn lemma_rows_max_witness<S: Scorer>(scorer: &S, a: Seq<char>, b: Seq<char>, i: int, cols: int)
    requires
        spec_rows_max(scorer, a, b, i, cols) > 0,
    ensures
        exists|r: int, c: int|
            0 <= r < i && 0 <= c < cols && #[trigger] spec_cell_score(scorer, a, b, r, c)
                == spec_rows_max(scorer, a, b, i, cols),
    decreases i,
{
    if i > 0 {
        if spec_row_max(scorer, a, b, i - 1, cols) == spec_rows_max(scorer, a, b, i, cols) {
            lemma_row_max_witness(scorer, a, b, i - 1, cols);
        } else {
            lemma_rows_max_witness(scorer, a, b, i - 1, cols);
        }
    }
}

/// The score returned by the engine is the true maximum of the computed
/// score matrix: it is non-negative, no cell exceeds it, and some cell
/// attains it.
pub proof fn lemma_max_score_is_matrix_max<S: Scorer>(scorer: &S, a: Seq<char>, b: Seq<char>)
    ensures
        spec_max_score(scorer, a, b) >= 0,
        forall|r: int, c: int|
            0 <= r <= a.len() && 0 <= c <= b.len() ==> #[trigger] spec_cell_score(scorer, a, b, r, c)
                <= spec_max_score(scorer, a, b),
        exists|r: int, c: int|
            0 <= r <= a.len() && 0 <= c <= b.len() && #[trigger] spec_cell_score(scorer, a, b, r, c)
                == spec_max_score(scorer, a, b),
{
    let v = spec_max_score(scorer, a, b);
    assert forall|r: int, c: int| 0 <= r <= a.len() && 0 <= c <= b.len() implies spec_cell_score(
        scorer,
        a,
        b,
        r,
        c,
    ) <= v by {
        lemma_rows_max_ge(scorer, a, b, a.len() + 1 as int, b.len() + 1 as int, r, c);
    }
    if v > 0 {
        lemma_rows_max_witness(scorer, a, b, a.len() + 1 as int, b.len() + 1 as int);
    } else {
        lemma_rows_max_ge(scorer, a, b, a.len() + 1 as int, b.len() + 1 as int, 0, 0);
        assert(spec_cell_score(scorer, a, b, 0, 0) == 0);
    }
}

/// The list of maximum cells contains a cell for every attaining position,
/// so it is never empty.
proof fn lemma_row_cells_has<S: Scorer>(
    scorer: &S,
    a: Seq<char>,
    b: Seq<char>,
    v: int,
    i: int,
    j: int,
    c: int,
)
    requires
        0 <= c < j,
        spec_cell_score(scorer, a, b, i, c) == v,
    ensures
        spec_row_cells(scorer, a, b, v, i, j).len() >= 1,
    decreases j,
{
    if c < j - 1 {
        lemma_row_cells_has(scorer, a, b, v, i, j - 1, c);
    }
}

proof fn lemma_rows_cells_has<S: Scorer>(
    scorer: &S,
    a: Seq<char>,
    b: Seq<char>,
    v: int,
    i: int,
    cols: int,
    r: int,
    c: int,
)
    requires
        0 <= r < i,
        0 <= c < cols,
        spec_cell_score(scorer, a, b, r, c) == v,
    ensures
        spec_rows_cells(scorer, a, b, v, i, cols).len() >= 1,
    decreases i,
{
    if r < i - 1 {
        lemma_rows_cells_has(scorer, a, b, v, i - 1, cols, r, c);
    } else {
        lemma_row_cells_has(scorer, a, b, v, r, cols, c);
    }
}

/// Some cell always attains the maximum, so the engine always has at least
/// one endpoint to trace back from.
pub proof fn lemma_max_cells_nonempty<S: Scorer>(scorer: &S, a: Seq<char>, b: Seq<char>)
    ensures
        spec_max_cells(scorer, a, b).len() >= 1,
{
    lemma_max_score_is_matrix_max(scorer, a, b);
    let (r, c): (int, int) = choose|r: int, c: int|
        0 <= r <= a.len() && 0 <= c <= b.len() && #[trigger] spec_cell_score(scorer, a, b, r, c)
            == spec_max_score(scorer, a, b);
    lemma_rows_cells_has(
        scorer,
        a,
        b,
        spec_max_score(scorer, a, b),
        a.len() + 1 as int,
        b.len() + 1 as int,
        r,
        c,
    );
}

/// Every cell of the maximum-cell list lies inside the matrix and attains
/// the maximum.
proof fn lemma_row_cells_in_range<S: Scorer>(
    scorer: &S,
    a: Seq<char>,
    b: Seq<char>,
    v: int,
    i: int,
    j: int,
)
    requires
        0 <= i <= usize::MAX,
        0 <= j <= usize::MAX,
    ensures
        forall|x: int|
            0 <= x < spec_row_cells(scorer, a, b, v, i, j).len() ==> (
            #[trigger] spec_row_cells(scorer, a, b, v, i, j)[x]).0 == i && spec_row_cells(
                scorer,
                a,
                b,
                v,
                i,
                j,
            )[x].1 < j && spec_cell_score(
                scorer,
                a,
                b,
                i,
                spec_row_cells(scorer, a, b, v, i, j)[x].1 as int,
            ) == v,
    decreases j,
{
    if j > 0 {
        lemma_row_cells_in_range(scorer, a, b, v, i, j - 1);
        let prior = spec_row_cells(scorer, a, b, v, i, j - 1);
        assert forall|x: int| 0 <= x < spec_row_cells(scorer, a, b, v, i, j).len() implies (
        #[trigger] spec_row_cells(scorer, a, b, v, i, j)[x]).0 == i && spec_row_cells(
            scorer,
            a,
            b,
            v,
            i,
            j,
        )[x].1 < j && spec_cell_score(
            scorer,
            a,
            b,
            i,
            spec_row_cells(scorer, a, b, v, i, j)[x].1 as int,
        ) == v by {
            if x < prior.len() {
                assert(spec_row_cells(scorer, a, b, v, i, j)[x] == prior[x]);
            } else {
                assert(spec_row_cells(scorer, a, b, v, i, j)[x] == (i as usize, (j - 1) as usize));
            }
        }
    }
}

pub proof fn lemma_rows_cells_in_range<S: Scorer>(
    scorer: &S,
    a: Seq<char>,
    b: Seq<char>,
    v: int,
    i: int,
    cols: int,
)
    requires
        0 <= i <= usize::MAX,
        0 <= cols <= usize::MAX,
    ensures
        forall|x: int|
            0 <= x < spec_rows_cells(scorer, a, b, v, i, cols).len() ==> (
            #[trigger] spec_rows_cells(scorer, a, b, v, i, cols)[x]).0 < i && spec_rows_cells(
                scorer,
                a,
                b,
                v,
                i,
                cols,
            )[x].1 < cols && spec_cell_score(
                scorer,
                a,
                b,
                spec_rows_cells(scorer, a, b, v, i, cols)[x].0 as int,
                spec_rows_cells(scorer, a, b, v, i, cols)[x].1 as int,
            ) == v,
    decreases i,
{
    if i > 0 {
        lemma_rows_cells_in_range(scorer, a, b, v, i - 1, cols);
        lemma_row_cells_in_range(scorer, a, b, v, i - 1, cols);
        let prior = spec_rows_cells(scorer, a, b, v, i - 1, cols);
        let row = spec_row_cells(scorer, a, b, v, i - 1, cols);
        assert forall|x: int| 0 <= x < spec_rows_cells(scorer, a, b, v, i, cols).len() implies (
        #[trigger] spec_rows_cells(scorer, a, b, v, i, cols)[x]).0 < i && spec_rows_cells(
            scorer,
            a,
            b,
            v,
            i,
            cols,
        )[x].1 < cols && spec_cell_score(
            scorer,
            a,
            b,
            spec_rows_cells(scorer, a, b, v, i, cols)[x].0 as int,
            spec_rows_cells(scorer, a, b, v, i, cols)[x].1 as int,
        ) == v by {
            if x < prior.len() {
                assert(spec_rows_cells(scorer, a, b, v, i, cols)[x] == prior[x]);
            } else {
                assert(spec_rows_cells(scorer, a, b, v, i, cols)[x] == row[x - prior.len()]);
            }
        }
    }
}

/// The row maximum never falls below the zero floor.
proof fn lemma_row_max_nonneg<S: Scorer>(scorer: &S, a: Seq<char>, b: Seq<char>, i: int, j: int)
    ensures
        spec_row_max(scorer, a, b, i, j) >= 0,
    decreases j,
{
    if j > 0 {
        lemma_row_max_nonneg(scorer, a, b, i, j - 1);
    }
}

/// The rows maximum never falls below the zero floor.
proof fn lemma_rows_max_nonneg<S: Scorer>(scorer: &S, a: Seq<char>, b: Seq<char>, i: int, cols: int)
    ensures
        spec_rows_max(scorer, a, b, i, cols) >= 0,
    decreases i,
{
    if i > 0 {
        lemma_rows_max_nonneg(scorer, a, b, i - 1, cols);
    }
}

/// The alignments contributed by the given endpoints, in order: for each
/// endpoint, every traceback under the recurrence's directions, converted
/// to an alignment.
pub open spec fn spec_cells_alignments<S: Scorer>(
    scorer: &S,
    a: Seq<char>,
    b: Seq<char>,
    cells: Seq<(usize, usize)>,
) -> Seq<Seq<AlignmentCell>>
    decreases cells.len(),
{
    if cells.len() == 0 {
        Seq::<Seq<AlignmentCell>>::empty()
    } else {
        spec_cells_alignments(scorer, a, b, cells.drop_last()) + spec_tracebacks(
            recurrence_dirs(scorer, a, b),
            cells.last().0,
            cells.last().1,
        ).map_values(|t: Seq<(usize, usize)>| spec_alignment_of(t))
    }
}

/// Everything the engine returns for `a` against `b`: the alignments of
/// every traceback of every maximal cell, in row-major endpoint order.
pub open spec fn spec_sw_alignments<S: Scorer>(scorer: &S, a: Seq<char>, b: Seq<char>) -> Seq<
    Seq<AlignmentCell>,
> {
    spec_cells_alignments(scorer, a, b, spec_max_cells(scorer, a, b))
}

proof fn lemma_cells_alignments_contiguous<S: Scorer>(
    scorer: &S,
    a: Seq<char>,
    b: Seq<char>,
    cells: Seq<(usize, usize)>,
    x: int,
)
    requires
        0 <= x < spec_cells_alignments(scorer, a, b, cells).len(),
    ensures
        spec_contiguous(spec_cells_alignments(scorer, a, b, cells)[x]),
    decreases cells.len(),
{
    let prior = spec_cells_alignments(scorer, a, b, cells.drop_last());
    if x < prior.len() {
        lemma_cells_alignments_contiguous(scorer, a, b, cells.drop_last(), x);
        assert(spec_cells_alignments(scorer, a, b, cells)[x] == prior[x]);
    } else {
        let last = cells.last();
        let d = recurrence_dirs(scorer, a, b);
        let ts = spec_tracebacks(d, last.0, last.1);
        lemma_recurrence_dirs_valid(scorer, a, b, last.0, last.1);
        lemma_tracebacks_ok(d, last.0, last.1);
        let t = ts[x - prior.len()];
        assert(spec_steps_ok(t));
        lemma_alignment_contiguous(t);
        assert(spec_cells_alignments(scorer, a, b, cells)[x] == spec_alignment_of(t));
    }
}

/// Contiguity law: in every alignment the engine returns, consecutive
/// cells advance the implied position pair by exactly one of the deltas
/// `(+1, +1)` (both sides), `(+1, 0)` (gap on the right), `(0, +1)` (gap
/// on the left); no other deltas occur.
pub proof fn lemma_sw_alignments_contiguous<S: Scorer>(
    scorer: &S,
    a: Seq<char>,
    b: Seq<char>,
    x: int,
)
    requires
        0 <= x < spec_sw_alignments(scorer, a, b).len(),
    ensures
        spec_contiguous(spec_sw_alignments(scorer, a, b)[x]),
{
    lemma_cells_alignments_contiguous(scorer, a, b, spec_max_cells(scorer, a, b), x);
}

/// The recurrence records directions only strictly inside the matrix.
pub proof fn lemma_recurrence_dirs_valid<S: Scorer>(
    scorer: &S,
    a: Seq<char>,
    b: Seq<char>,
    i: usize,
    j: usize,
)
    ensures
        dirs_valid_below(recurrence_dirs(scorer, a, b), i, j),
{
    let d = recurrence_dirs(scorer, a, b);
    assert forall|r: int, c: int|
        0 <= r <= i && 0 <= c <= j && (#[trigger] d(r, c)).len() > 0 implies 1 <= r && 1 <= c by {
        assert(d(r, c) == spec_cell_dirs(scorer, a, b, r, c));
    }
}

/// The engine returns at least one alignment for every pair of sequences.
pub proof fn lemma_sw_alignments_nonempty<S: Scorer>(scorer: &S, a: Seq<char>, b: Seq<char>)
    ensures
        spec_sw_alignments(scorer, a, b).len() >= 1,
{
    lemma_max_cells_nonempty(scorer, a, b);
    let cells = spec_max_cells(scorer, a, b);
    let last = cells.last();
    lemma_recurrence_dirs_valid(scorer, a, b, last.0, last.1);
    lemma_tracebacks_nonempty(recurrence_dirs(scorer, a, b), last.0, last.1);
}

/// Performs string alignment using the Smith-Waterman algorithm.
pub struct SmithWaterman<T> where T: Scorer {
    pub scorer: T,
}

impl<T: Scorer> SmithWaterman<T> {
    pub fn new(scorer: T) -> (r: SmithWaterman<T>)
        ensures
            r.scorer == scorer,
    {
        SmithWaterman { scorer }
    }
}

impl<T: Scorer> Aligner for SmithWaterman<T> {
    open spec fn wf(&self) -> bool {
        self.scorer.wf()
    }

    open spec fn fits(&self, a_len: nat, b_len: nat) -> bool {
        a_len <= SCORE_LIMIT && b_len <= SCORE_LIMIT
    }

    open spec fn spec_score(&self, a: Seq<char>, b: Seq<char>) -> int {
        spec_max_score(&self.scorer, a, b)
    }

    open spec fn spec_alignments(&self, a: Seq<char>, b: Seq<char>) -> Seq<Seq<AlignmentCell>> {
        spec_sw_alignments(&self.scorer, a, b)
    }

    #[verifier::loop_isolation(false)]
    fn align(&self, a: &str, b: &str) -> (r: Result<Alignments, AlignmentError>) {
        let m = a.unicode_len();
        let n = b.unicode_len();
        if m == 0 || n == 0 {
            return Err(AlignmentError::EmptySequence);
        }
        let scorer = &self.scorer;
        let (score_matrix, tb_matrix) = build_score_matrix(a, b, scorer);
        proof {
            lemma_built_dirs_valid(scorer, a@, b@, &score_matrix, &tb_matrix);
        }

        // The global maximum of the score matrix.
        let mut max_score: i64 = 0;
        let mut i: usize = 0;
        while i <= m
            invariant
                i <= m + 1,
                max_score == spec_rows_max(scorer, a@, b@, i as int, n + 1),
            decreases m + 1 - i,
        {
            let mut j: usize = 0;
            proof {
                lemma_rows_max_nonneg(scorer, a@, b@, i as int, n + 1);
            }
            while j <= n
                invariant
                    j <= n + 1,
                    max_score == max2(
                        spec_rows_max(scorer, a@, b@, i as int, n + 1),
                        spec_row_max(scorer, a@, b@, i as int, j as int),
                    ),
                decreases n + 1 - j,
            {
                let v = score_matrix.get(i, j);
                if v > max_score {
                    max_score = v;
                }
                j = j + 1;
            }
            i = i + 1;
        }
        proof {
            assert(max_score == spec_max_score(scorer, a@, b@));
        }

        // Every cell that attains the maximum, in row-major order.
        let mut max_indices: Vec<(usize, usize)> = Vec::new();
        let mut i: usize = 0;
        while i <= m
            invariant
                i <= m + 1,
                max_indices@ == spec_rows_cells(scorer, a@, b@, max_score as int, i as int, n + 1),
            decreases m + 1 - i,
        {
            let mut j: usize = 0;
            while j <= n
                invariant
                    j <= n + 1,
                    max_indices@ == spec_rows_cells(scorer, a@, b@, max_score as int, i as int, n + 1)
                        + spec_row_cells(scorer, a@, b@, max_score as int, i as int, j as int),
                decreases n + 1 - j,
            {
                let ghost before = max_indices@;
                let v = score_matrix.get(i, j);
                if v == max_score {
                    max_indices.push((i, j));
                    proof {
                        assert(max_indices@ =~= before.push((i, j)));
                    }
                }
                proof {
                    assert(max_indices@ =~= spec_rows_cells(
                        scorer,
                        a@,
                        b@,
                        max_score as int,
                        i as int,
                        n + 1,
                    ) + spec_row_cells(scorer, a@, b@, max_score as int, i as int, j + 1));
                }
                j = j + 1;
            }
            i = i + 1;
        }

        proof {
            assert(max_indices@ == spec_max_cells(scorer, a@, b@));
            lemma_rows_cells_in_range(scorer, a@, b@, max_score as int, m + 1, n + 1);
        }
        let ghost cells = max_indices@;
        let ghost rec_d = recurrence_dirs(scorer, a@, b@);

        // Enumerate the tracebacks of each endpoint and convert each to an
        // alignment.
        let mut alignments: Vec<Vec<AlignmentCell>> = Vec::new();
        let mut x: usize = 0;
        while x < max_indices.len()
            invariant
                x <= cells.len(),
                max_indices@ == cells,
                alignments_view(alignments@) == spec_cells_alignments(
                    scorer,
                    a@,
                    b@,
                    cells.subrange(0, x as int),
                ),
            decreases cells.len() - x,
        {
            let cell = max_indices[x];
            proof {
                assert(cell == spec_rows_cells(
                    scorer,
                    a@,
                    b@,
                    max_score as int,
                    m + 1,
                    n + 1,
                )[x as int]);
                assert(cell.0 < m + 1 && cell.1 < n + 1);
            }
            let tbs = tracebacks(&tb_matrix, cell);
            proof {
                assert forall|r: int, c: int|
                    0 <= r <= cell.0 && 0 <= c <= cell.1 implies #[trigger] matrix_dirs(
                    &tb_matrix,
                )(r, c) == rec_d(r, c) by {
                    assert(matrix_dirs(&tb_matrix)(r, c) == tb_matrix.dirs(r, c));
                    assert(rec_d(r, c) == spec_cell_dirs(scorer, a@, b@, r, c));
                }
                lemma_tracebacks_agree(matrix_dirs(&tb_matrix), rec_d, cell.0, cell.1);
                lemma_recurrence_dirs_valid(scorer, a@, b@, cell.0, cell.1);
                lemma_tracebacks_ok(rec_d, cell.0, cell.1);
            }
            let ghost block = spec_tracebacks(rec_d, cell.0, cell.1);
            let ghost mapped = block.map_values(|t: Seq<(usize, usize)>| spec_alignment_of(t));
            let mut y: usize = 0;
            while y < tbs.len()
                invariant
                    y <= block.len(),
                    tracebacks_view(tbs@) == block,
                    alignments_view(alignments@) == spec_cells_alignments(
                        scorer,
                        a@,
                        b@,
                        cells.subrange(0, x as int),
                    ) + block.subrange(0, y as int).map_values(
                        |t: Seq<(usize, usize)>| spec_alignment_of(t),
                    ),
                decreases block.len() - y,
            {
                let ghost before = alignments@;
                let t = &tbs[y];
                proof {
                    assert(t@ == block[y as int]);
                    assert(spec_steps_ok(t@));
                }
                match traceback_to_alignment(t) {
                    Ok(al) => {
                        proof {
                            assert(spec_alignment_of(t@) == al@);
                        }
                        alignments.push(al);
                        proof {
                            assert(alignments_view(alignments@) =~= alignments_view(before).push(
                                al@,
                            ));
                            assert(block.subrange(0, y + 1).drop_last() =~= block.subrange(
                                0,
                                y as int,
                            ));
                            assert(block.subrange(0, y + 1).map_values(
                                |t: Seq<(usize, usize)>| spec_alignment_of(t),
                            ) =~= block.subrange(0, y as int).map_values(
                                |t: Seq<(usize, usize)>| spec_alignment_of(t),
                            ).push(spec_alignment_of(block[y as int])));
                            assert(alignments_view(alignments@) =~= spec_cells_alignments(
                                scorer,
                                a@,
                                b@,
                                cells.subrange(0, x as int),
                            ) + block.subrange(0, y + 1).map_values(
                                |t: Seq<(usize, usize)>| spec_alignment_of(t),
                            ));
                        }
                    },
                    Err(_) => {
                        proof {
                            lemma_steps_ok_alignment(t@);
                            assert(false);
                        }
                    },
                }
                y = y + 1;
            }
            proof {
                assert(block.subrange(0, block.len() as int) =~= block);
                assert(cells.subrange(0, x as int + 1).drop_last() =~= cells.subrange(0, x as int));
                assert(cells.subrange(0, x as int + 1).last() == cell);
                assert(alignments_view(alignments@) == spec_cells_alignments(
                    scorer,
                    a@,
                    b@,
                    cells.subrange(0, x as int + 1),
                ));
            }
            x = x + 1;
        }
        proof {
            assert(cells.subrange(0, cells.len() as int) =~= cells);
            lemma_sw_alignments_nonempty(scorer, a@, b@);
        }
        Ok(Alignments::new(max_score, alignments))
    }
}

/// The lesser of two values.
pub open spec fn min2(a: int, b: int) -> int {
    if a <= b {
        a
    } else {
        b
    }
}

/// Aligning a sequence against itself under the reference policy, no cell
/// of the score matrix exceeds the match score times the lesser of its
/// coordinates.
proof fn lemma_identity_cell_bound(s: SimpleScorer, q: Seq<char>, i: int, j: int)
    requires
        s.base_score > 0,
        s.base_gap_penalty >= 0,
        0 <= i,
        0 <= j,
    ensures
        spec_cell_score(&s, q, q, i, j) <= min2(i, j) * s.base_score,
    decreases i + j,
{
    let b = s.base_score as int;
    if i == 0 || j == 0 {
        assert(min2(i, j) * b >= 0) by (nonlinear_arith)
            requires
                min2(i, j) >= 0,
                b > 0,
        ;
    } else {
        lemma_identity_cell_bound(s, q, i - 1, j - 1);
        lemma_identity_cell_bound(s, q, i - 1, j);
        lemma_identity_cell_bound(s, q, i, j - 1);
        let c = spec_candidates(&s, q, q, i, j);
        assert(s.spec_score(q[i - 1], q[j - 1]) <= b);
        assert(c.0 <= min2(i - 1, j - 1) * b + b);
        assert(min2(i - 1, j - 1) * b + b == (min2(i - 1, j - 1) + 1) * b) by (nonlinear_arith);
        assert(min2(i - 1, j - 1) + 1 <= min2(i, j));
        assert((min2(i - 1, j - 1) + 1) * b <= min2(i, j) * b) by (nonlinear_arith)
            requires
                b > 0,
                min2(i - 1, j - 1) + 1 <= min2(i, j),
        ;
        assert(c.1 <= min2(i - 1, j) * b);
        assert(min2(i - 1, j) <= min2(i, j));
        assert(min2(i - 1, j) * b <= min2(i, j) * b) by (nonlinear_arith)
            requires
                b > 0,
                min2(i - 1, j) <= min2(i, j),
        ;
        assert(c.2 <= min2(i, j - 1) * b);
        assert(min2(i, j - 1) <= min2(i, j));
        assert(min2(i, j - 1) * b <= min2(i, j) * b) by (nonlinear_arith)
            requires
                b > 0,
                min2(i, j - 1) <= min2(i, j),
        ;
    }
}

/// Aligning a sequence against itself, the diagonal carries exactly the
/// accumulating match score, and its only recorded direction is diagonal.
proof fn lemma_identity_diag(s: SimpleScorer, q: Seq<char>, k: int)
    requires
        s.base_score > 0,
        s.base_gap_penalty >= 0,
        0 <= k <= q.len(),
    ensures
        spec_cell_score(&s, q, q, k, k) == k * s.base_score,
        k >= 1 ==> spec_cell_dirs(&s, q, q, k, k) == seq![Direction::Diag],
    decreases k,
{
    let b = s.base_score as int;
    if k == 0 {
    } else {
        lemma_identity_diag(s, q, k - 1);
        lemma_identity_cell_bound(s, q, k - 1, k);
        lemma_identity_cell_bound(s, q, k, k - 1);
        let c = spec_candidates(&s, q, q, k, k);
        assert(s.spec_score(q[k - 1], q[k - 1]) == b);
        assert(c.0 == (k - 1) * b + b);
        assert((k - 1) * b + b == k * b) by (nonlinear_arith);
        assert(min2(k - 1, k) == k - 1);
        assert((k - 1) * b < k * b) by (nonlinear_arith)
            requires
                b > 0,
        ;
        assert(c.1 < k * b);
        assert(c.2 < k * b);
        assert(k * b > 0) by (nonlinear_arith)
            requires
                k >= 1,
                b > 0,
        ;
        assert(spec_cell_dirs(&s, q, q, k, k) =~= seq![Direction::Diag]);
    }
}

/// Any row prefix that avoids the bottom-right corner contributes no
/// maximum cell.
proof fn lemma_identity_row_cells(s: SimpleScorer, q: Seq<char>, r: int, j: int)
    requires
        s.base_score > 0,
        s.base_gap_penalty >= 0,
        0 <= r <= q.len(),
        0 <= j <= q.len() + 1,
        r < q.len() || j <= q.len(),
    ensures
        spec_row_cells(&s, q, q, q.len() * s.base_score, r, j) == Seq::<(usize, usize)>::empty(),
    decreases j,
{
    let n = q.len() as int;
    let b = s.base_score as int;
    if j > 0 {
        lemma_identity_row_cells(s, q, r, j - 1);
        lemma_identity_cell_bound(s, q, r, j - 1);
        assert(min2(r, j - 1) < n);
        assert(min2(r, j - 1) * b < n * b) by (nonlinear_arith)
            requires
                b > 0,
                min2(r, j - 1) < n,
        ;
        assert(spec_cell_score(&s, q, q, r, j - 1) != n * b);
        assert(spec_row_cells(&s, q, q, n * b, r, j) =~= Seq::<(usize, usize)>::empty());
    }
}

/// No row above the last contributes a maximum cell.
proof fn lemma_identity_rows_cells(s: SimpleScorer, q: Seq<char>, r: int)
    requires
        s.base_score > 0,
        s.base_gap_penalty >= 0,
        0 <= r <= q.len(),
    ensures
        spec_rows_cells(&s, q, q, q.len() * s.base_score, r, q.len() + 1 as int) == Seq::<
            (usize, usize),
        >::empty(),
    decreases r,
{
    let n = q.len() as int;
    let b = s.base_score as int;
    if r > 0 {
        lemma_identity_rows_cells(s, q, r - 1);
        lemma_identity_row_cells(s, q, r - 1, n + 1);
        assert(spec_rows_cells(&s, q, q, n * b, r, n + 1) =~= Seq::<(usize, usize)>::empty());
    }
}

/// Aligning a non-empty sequence against itself, the maximum is the match
/// score accumulated along the whole diagonal, attained only at the
/// bottom-right corner.
proof fn lemma_identity_max(s: SimpleScorer, q: Seq<char>)
    requires
        s.base_score > 0,
        s.base_gap_penalty >= 0,
        1 <= q.len() <= usize::MAX,
    ensures
        spec_max_score(&s, q, q) == q.len() * s.base_score,
        spec_max_cells(&s, q, q) == seq![(q.len() as usize, q.len() as usize)],
{
    let n = q.len() as int;
    let b = s.base_score as int;
    lemma_identity_diag(s, q, n);
    lemma_max_score_is_matrix_max(&s, q, q);
    assert(spec_cell_score(&s, q, q, n, n) <= spec_max_score(&s, q, q));
    let (wr, wc): (int, int) = choose|r: int, c: int|
        0 <= r <= q.len() && 0 <= c <= q.len() && #[trigger] spec_cell_score(&s, q, q, r, c)
            == spec_max_score(&s, q, q);
    lemma_identity_cell_bound(s, q, wr, wc);
    assert(min2(wr, wc) <= n);
    assert(min2(wr, wc) * b <= n * b) by (nonlinear_arith)
        requires
            b > 0,
            min2(wr, wc) <= n,
    ;
    assert(spec_max_score(&s, q, q) == n * b);

    lemma_identity_rows_cells(s, q, n);
    lemma_identity_row_cells(s, q, n, n);
    assert(spec_row_cells(&s, q, q, n * b, n, n + 1) =~= seq![(n as usize, n as usize)]);
    assert(spec_max_cells(&s, q, q) =~= seq![(n as usize, n as usize)]);
}

/// The diagonal path down from `(k, k)` to `(1, 1)`, in matrix space.
pub open spec fn spec_id_path(k: int) -> Seq<(usize, usize)>
    decreases k,
{
    if k <= 0 {
        Seq::<(usize, usize)>::empty()
    } else {
        seq![(k as usize, k as usize)] + spec_id_path(k - 1)
    }
}

/// The identity alignment of length `k`: every position paired with
/// itself, in ascending order.
pub open spec fn spec_id_alignment(k: int) -> Seq<AlignmentCell>
    decreases k,
{
    if k <= 0 {
        Seq::<AlignmentCell>::empty()
    } else {
        spec_id_alignment(k - 1).push(
            AlignmentCell::Both { left: ((k - 1) as usize), right: ((k - 1) as usize) },
        )
    }
}

/// Aligning a sequence against itself, the only traceback from `(k, k)` is
/// the diagonal path.
proof fn lemma_identity_tracebacks(s: SimpleScorer, q: Seq<char>, k: int)
    requires
        s.base_score > 0,
        s.base_gap_penalty >= 0,
        0 <= k <= q.len(),
        q.len() <= usize::MAX,
    ensures
        spec_tracebacks(recurrence_dirs(&s, q, q), k as usize, k as usize) == seq![
            spec_id_path(k),
        ],
    decreases k,
{
    let d = recurrence_dirs(&s, q, q);
    let ku = k as usize;
    if k == 0 {
        assert(d(0, 0) == spec_cell_dirs(&s, q, q, 0, 0));
        assert(d(0, 0).len() == 0);
        assert(spec_tracebacks(d, 0, 0) =~~= seq![spec_id_path(0)]);
    } else {
        lemma_identity_diag(s, q, k);
        lemma_identity_tracebacks(s, q, k - 1);
        assert(d(k, k) == spec_cell_dirs(&s, q, q, k, k));
        assert(d(k, k) == seq![Direction::Diag]);
        assert(d(k, k).len() == 1);
        assert(spec_tracebacks(d, ku, ku) == spec_tracebacks_from(d, ku, ku, 0));
        assert(spec_pred(ku, ku, Direction::Diag) == (((k - 1) as usize), ((k - 1) as usize)));
        assert(spec_tracebacks_from(d, ku, ku, 1) =~= Seq::<Seq<(usize, usize)>>::empty());
        assert(spec_tracebacks_from(d, ku, ku, 0) == prepend_all(
            seq![(ku, ku)],
            spec_tracebacks(d, ((k - 1) as usize), ((k - 1) as usize)),
        ) + spec_tracebacks_from(d, ku, ku, 1));
        assert(prepend_all(seq![(ku, ku)], seq![spec_id_path(k - 1)]) =~~= seq![spec_id_path(k)]);
        assert(spec_tracebacks(d, ku, ku) =~~= seq![spec_id_path(k)]);
    }
}

/// The diagonal path denotes the identity alignment.
proof fn lemma_identity_alignment(k: int)
    requires
        0 <= k <= usize::MAX,
    ensures
        spec_traceback_alignment(spec_id_path(k)) == Some(spec_id_alignment(k)),
    decreases k,
{
    let t = spec_id_path(k);
    if k == 0 {
        assert(t.len() == 0);
        assert(spec_id_alignment(0) =~= Seq::<AlignmentCell>::empty());
    } else if k == 1 {
        assert(spec_id_path(0) == Seq::<(usize, usize)>::empty());
        assert(spec_id_alignment(0) == Seq::<AlignmentCell>::empty());
        assert(t =~= seq![(1usize, 1usize)]);
        assert(spec_traceback_alignment(t) == Some(
            seq![AlignmentCell::Both { left: 0usize, right: 0usize }],
        ));
        assert(spec_id_alignment(1) =~= seq![AlignmentCell::Both { left: 0usize, right: 0usize }]);
    } else {
        lemma_identity_alignment(k - 1);
        assert(t.drop_first() =~= spec_id_path(k - 1));
        assert(t.len() == spec_id_path(k - 1).len() + 1);
        assert(t[0] == (k as usize, k as usize));
        assert(spec_id_path(k - 1)[0] == (((k - 1) as usize), ((k - 1) as usize)));
        assert(t[1] == (((k - 1) as usize), ((k - 1) as usize)));
        assert(spec_step_cell(t[1], t[0]) == Some(
            AlignmentCell::Both { left: ((k - 1) as usize), right: ((k - 1) as usize) },
        ));
        assert(spec_id_alignment(k) == spec_id_alignment(k - 1).push(
            AlignmentCell::Both { left: ((k - 1) as usize), right: ((k - 1) as usize) },
        ));
    }
}

/// The length of the diagonal path.
proof fn lemma_id_path_len(k: int)
    requires
        0 <= k,
    ensures
        spec_id_path(k).len() == k,
    decreases k,
{
    if k > 0 {
        lemma_id_path_len(k - 1);
    }
}

/// Identity law: aligning a non-empty sequence against itself under the
/// reference policy (positive match score, non-negative gap penalty)
/// yields score `len * base_score` and exactly one alignment, which pairs
/// every position with itself.
pub proof fn lemma_align_identity(s: SimpleScorer, q: Seq<char>)
    requires
        s.base_score > 0,
        s.base_gap_penalty >= 0,
        1 <= q.len() <= usize::MAX,
    ensures
        spec_max_score(&s, q, q) == q.len() * s.base_score,
        spec_sw_alignments(&s, q, q) == seq![spec_id_alignment(q.len() as int)],
{
    let n = q.len() as int;
    lemma_identity_max(s, q);
    lemma_identity_tracebacks(s, q, n);
    lemma_identity_alignment(n);
    let cells = spec_max_cells(&s, q, q);
    assert(cells == seq![(n as usize, n as usize)]);
    assert(cells.drop_last() =~= Seq::<(usize, usize)>::empty());
    assert(spec_cells_alignments(&s, q, q, cells.drop_last()) == Seq::<Seq<AlignmentCell>>::empty());
    assert(cells.last() == (n as usize, n as usize));
    assert(spec_sw_alignments(&s, q, q) =~~= seq![spec_id_alignment(n)]);
}

/// The score an alignment attains: the substitution score of every paired
/// cell, minus the unit gap penalty for every gap cell.
pub open spec fn spec_alignment_score<S: Scorer>(
    scorer: &S,
    a: Seq<char>,
    b: Seq<char>,
    al: Seq<AlignmentCell>,
) -> int
    decreases al.len(),
{
    if al.len() == 0 {
        0
    } else {
        spec_alignment_score(scorer, a, b, al.drop_last()) + (match al.last() {
            AlignmentCell::Both { left, right } => scorer.spec_score(a[left as int], b[right as int]),
            AlignmentCell::RightGap { .. } => -scorer.spec_gap_penalty(1),
            AlignmentCell::LeftGap { .. } => -scorer.spec_gap_penalty(1),
        })
    }
}

/// A cell that records no direction sits at the zero floor.
proof fn lemma_empty_dirs_zero<S: Scorer>(scorer: &S, a: Seq<char>, b: Seq<char>, i: int, j: int)
    requires
        spec_cell_dirs(scorer, a, b, i, j).len() == 0,
    ensures
        spec_cell_score(scorer, a, b, i, j) == 0,
{
    if i <= 0 || j <= 0 {
    } else {
        let c = spec_candidates(scorer, a, b, i, j);
        let best = max3(c.0, c.1, c.2);
        if best > 0 {
            assert(best == c.0 || best == c.1 || best == c.2);
            assert(spec_cell_dirs(scorer, a, b, i, j).len() > 0);
        }
    }
}

/// Each recorded direction's candidate attains the cell's value.
proof fn lemma_dir_candidate<S: Scorer>(
    scorer: &S,
    a: Seq<char>,
    b: Seq<char>,
    i: int,
    j: int,
    m: int,
)
    requires
        0 <= m < spec_cell_dirs(scorer, a, b, i, j).len(),
    ensures
        ({
            let c = spec_candidates(scorer, a, b, i, j);
            let cell = spec_cell_score(scorer, a, b, i, j);
            &&& 1 <= i && 1 <= j
            &&& cell > 0
            &&& match spec_cell_dirs(scorer, a, b, i, j)[m] {
                Direction::Diag => c.0 == cell,
                Direction::Up => c.1 == cell,
                Direction::Left => c.2 == cell,
            }
        }),
{
    let ds = spec_cell_dirs(scorer, a, b, i, j);
    let c = spec_candidates(scorer, a, b, i, j);
    let best = max3(c.0, c.1, c.2);
    assert(1 <= i && 1 <= j && best > 0);
    let s0 = if c.0 == best {
        seq![Direction::Diag]
    } else {
        Seq::<Direction>::empty()
    };
    let s1 = if c.1 == best {
        seq![Direction::Up]
    } else {
        Seq::<Direction>::empty()
    };
    let s2 = if c.2 == best {
        seq![Direction::Left]
    } else {
        Seq::<Direction>::empty()
    };
    assert(ds == s0 + s1 + s2);
    if m < s0.len() {
        assert(ds[m] == s0[0]);
    } else if m < s0.len() + s1.len() {
        assert(ds[m] == s1[m - s0.len()]);
    } else {
        assert(ds[m] == s2[m - s0.len() - s1.len()]);
    }
}

/// Every traceback from a cell denotes an alignment worth exactly that
/// cell's score, provided the unit gap penalty is not a reward.
proof fn lemma_traceback_score<S: Scorer>(scorer: &S, a: Seq<char>, b: Seq<char>, i: usize, j: usize, x: int)
    requires
        scorer.spec_gap_penalty(1) >= 0,
        0 <= x < spec_tracebacks(recurrence_dirs(scorer, a, b), i, j).len(),
    ensures
        spec_alignment_score(
            scorer,
            a,
            b,
            spec_alignment_of(spec_tracebacks(recurrence_dirs(scorer, a, b), i, j)[x]),
        ) == spec_cell_score(scorer, a, b, i as int, j as int),
    decreases i + j, recurrence_dirs(scorer, a, b)(i as int, j as int).len() + 1,
{
    let d = recurrence_dirs(scorer, a, b);
    assert(d(i as int, j as int) == spec_cell_dirs(scorer, a, b, i as int, j as int));
    if d(i as int, j as int).len() == 0 {
        lemma_empty_dirs_zero(scorer, a, b, i as int, j as int);
        assert(spec_tracebacks(d, i, j)[x] == Seq::<(usize, usize)>::empty());
        assert(spec_alignment_of(Seq::<(usize, usize)>::empty()) == Seq::<AlignmentCell>::empty());
    } else {
        lemma_traceback_score_from(scorer, a, b, i, j, 0, x);
    }
}

/// As `lemma_traceback_score`, for the tracebacks that start with one of
/// the directions `k..`.
proof fn lemma_traceback_score_from<S: Scorer>(
    scorer: &S,
    a: Seq<char>,
    b: Seq<char>,
    i: usize,
    j: usize,
    k: int,
    x: int,
)
    requires
        scorer.spec_gap_penalty(1) >= 0,
        recurrence_dirs(scorer, a, b)(i as int, j as int).len() > 0,
        0 <= x < spec_tracebacks_from(recurrence_dirs(scorer, a, b), i, j, k).len(),
    ensures
        spec_alignment_score(
            scorer,
            a,
            b,
            spec_alignment_of(spec_tracebacks_from(recurrence_dirs(scorer, a, b), i, j, k)[x]),
        ) == spec_cell_score(scorer, a, b, i as int, j as int),
    decreases i + j, recurrence_dirs(scorer, a, b)(i as int, j as int).len() - k,
{
    let d = recurrence_dirs(scorer, a, b);
    let ds = d(i as int, j as int);
    assert(ds == spec_cell_dirs(scorer, a, b, i as int, j as int));
    lemma_dir_candidate(scorer, a, b, i as int, j as int, 0);
    assert(0 <= k < ds.len());
    let c = spec_candidates(scorer, a, b, i as int, j as int);
    let cell_v = spec_cell_score(scorer, a, b, i as int, j as int);
    let p = spec_pred(i, j, ds[k]);
    let mapped = prepend_all(seq![(i, j)], spec_tracebacks(d, p.0, p.1));
    if x < mapped.len() {
        lemma_dir_candidate(scorer, a, b, i as int, j as int, k);
        assert(d(p.0 as int, p.1 as int) == spec_cell_dirs(scorer, a, b, p.0 as int, p.1 as int));
        lemma_traceback_score(scorer, a, b, p.0, p.1, x);
        lemma_recurrence_dirs_valid(scorer, a, b, i, j);
        lemma_tracebacks_ok(d, p.0, p.1);
        assert(dirs_valid_below(d, p.0, p.1));
        let t2 = spec_tracebacks(d, p.0, p.1)[x];
        let t = seq![(i, j)] + t2;
        assert(spec_tracebacks_from(d, i, j, k)[x] == t);
        assert(t.drop_first() =~= t2);
        let contribution = match ds[k] {
            Direction::Diag => scorer.spec_score(a[i - 1], b[j - 1]),
            Direction::Up => -scorer.spec_gap_penalty(1),
            Direction::Left => -scorer.spec_gap_penalty(1),
        };
        assert(spec_cell_score(scorer, a, b, p.0 as int, p.1 as int) + contribution == cell_v);
        if t2.len() == 0 {
            // The path starts here: its predecessor records no direction,
            // so a gap step could not have a positive candidate.
            lemma_tracebacks_empty_element(d, p.0, p.1, x);
            lemma_empty_dirs_zero(scorer, a, b, p.0 as int, p.1 as int);
            assert(spec_cell_score(scorer, a, b, p.0 as int, p.1 as int) == 0);
            assert(ds[k] is Diag) by {
                if !(ds[k] is Diag) {
                    assert(contribution <= 0);
                    assert(cell_v > 0);
                }
            }
            assert(t.len() == 1);
            let al = spec_alignment_of(t);
            assert(al == seq![
                AlignmentCell::Both {
                    left: (((i, j).0 - 1) as usize),
                    right: (((i, j).1 - 1) as usize),
                },
            ]);
            assert(al.drop_last() =~= Seq::<AlignmentCell>::empty());
            assert(al.last() == (AlignmentCell::Both {
                left: ((i - 1) as usize),
                right: ((j - 1) as usize),
            }));
            assert(spec_alignment_score(scorer, a, b, al) == scorer.spec_score(
                a[i - 1],
                b[j - 1],
            ));
        } else {
            assert(spec_steps_ok(t2));
            lemma_steps_ok_alignment(t2);
            assert(t2[0] == (p.0, p.1));
            assert(1 <= t2[0].0 && 1 <= t2[0].1);
            let al2 = spec_traceback_alignment(t2).unwrap();
            let step = spec_step_cell(t2[0], (i, j));
            assert(t[0] == (i, j) && t[1] == t2[0]);
            assert(match ds[k] {
                Direction::Diag => step == Some(
                    AlignmentCell::Both { left: ((i - 1) as usize), right: ((j - 1) as usize) },
                ),
                Direction::Up => step == Some(
                    AlignmentCell::RightGap { left: ((i - 1) as usize) },
                ),
                Direction::Left => step == Some(
                    AlignmentCell::LeftGap { right: ((j - 1) as usize) },
                ),
            });
            assert(spec_traceback_alignment(t) == Some(al2.push(step.unwrap())));
            let al = al2.push(step.unwrap());
            assert(al.drop_last() =~= al2);
            assert(al.last() == step.unwrap());
            assert(spec_alignment_score(scorer, a, b, al) == spec_alignment_score(
                scorer,
                a,
                b,
                al2,
            ) + contribution);
        }
    } else {
        lemma_traceback_score_from(scorer, a, b, i, j, k + 1, x - mapped.len());
        assert(spec_tracebacks_from(d, i, j, k)[x] == spec_tracebacks_from(d, i, j, k + 1)[x
            - mapped.len()]);
    }
}

/// The alignments contributed by a list of endpoints that all attain the
/// value `v` are each worth exactly `v`.
proof fn lemma_cells_alignments_score<S: Scorer>(
    scorer: &S,
    a: Seq<char>,
    b: Seq<char>,
    cells: Seq<(usize, usize)>,
    v: int,
    x: int,
)
    requires
        scorer.spec_gap_penalty(1) >= 0,
        0 <= x < spec_cells_alignments(scorer, a, b, cells).len(),
        forall|y: int|
            0 <= y < cells.len() ==> spec_cell_score(
                scorer,
                a,
                b,
                (#[trigger] cells[y]).0 as int,
                cells[y].1 as int,
            ) == v,
    ensures
        spec_alignment_score(scorer, a, b, spec_cells_alignments(scorer, a, b, cells)[x]) == v,
    decreases cells.len(),
{
    let prior = spec_cells_alignments(scorer, a, b, cells.drop_last());
    if x < prior.len() {
        assert(forall|y: int|
            0 <= y < cells.drop_last().len() ==> #[trigger] cells.drop_last()[y] == cells[y]);
        lemma_cells_alignments_score(scorer, a, b, cells.drop_last(), v, x);
        assert(spec_cells_alignments(scorer, a, b, cells)[x] == prior[x]);
    } else {
        let last = cells.last();
        assert(last == cells[cells.len() - 1]);
        lemma_traceback_score(scorer, a, b, last.0, last.1, x - prior.len());
        assert(spec_cells_alignments(scorer, a, b, cells)[x] == spec_alignment_of(
            spec_tracebacks(recurrence_dirs(scorer, a, b), last.0, last.1)[x - prior.len()],
        ));
    }
}

/// All alignments in one result share the score: under a policy whose
/// unit gap penalty is not a reward, every alignment the engine returns is
/// worth exactly the engine's score, the matrix maximum.
pub proof fn lemma_sw_alignments_share_score<S: Scorer>(
    scorer: &S,
    a: Seq<char>,
    b: Seq<char>,
    x: int,
)
    requires
        scorer.spec_gap_penalty(1) >= 0,
        a.len() < usize::MAX,
        b.len() < usize::MAX,
        0 <= x < spec_sw_alignments(scorer, a, b).len(),
    ensures
        spec_alignment_score(scorer, a, b, spec_sw_alignments(scorer, a, b)[x]) == spec_max_score(
            scorer,
            a,
            b,
        ),
{
    let v = spec_max_score(scorer, a, b);
    lemma_rows_cells_in_range(scorer, a, b, v, a.len() + 1 as int, b.len() + 1 as int);
    let cells = spec_max_cells(scorer, a, b);
    assert forall|y: int| 0 <= y < cells.len() implies spec_cell_score(
        scorer,
        a,
        b,
        (#[trigger] cells[y]).0 as int,
        cells[y].1 as int,
    ) == v by {
        assert(cells[y] == spec_rows_cells(scorer, a, b, v, a.len() + 1 as int, b.len() + 1 as int)[y]);
    }
    lemma_cells_alignments_score(scorer, a, b, cells, v, x);
}

} // verus!
