//! Construction of the score and traceback matrices, enumeration of optimal
//! traceback paths, and conversion of a traceback into an alignment.

use vstd::prelude::*;

use crate::alignment::align::{
    spec_contiguous, spec_contiguous_from, Alignment, AlignmentCell,
};
use super::matrix::{ScoreMatrix, TracebackMatrix};
use super::scorer::{Scorer, SCORE_LIMIT};

verus! {

/// A step direction recorded in the traceback matrix.
#[derive(Clone, Copy, Debug, PartialEq, Eq, Structural)]
pub enum Direction {
    Diag,
    Up,
    Left,
}

/// The greatest of three values.
pub open spec fn max3(a: int, b: int, c: int) -> int {
    if a >= b && a >= c {
        a
    } else if b >= c {
        b
    } else {
        c
    }
}

/// The three candidate scores of cell `(i, j)`: extend the alignment
/// diagonally with the pair `(a[i-1], b[j-1])`, or with a gap coming from
/// above or from the left.
pub open spec fn spec_candidates<S: Scorer>(
    scorer: &S,
    a: Seq<char>,
    b: Seq<char>,
    i: int,
    j: int,
) -> (int, int, int)
    decreases i + j, 0int,
{
    if i <= 0 || j <= 0 {
        (0, 0, 0)
    } else {
        (
            spec_cell_score(scorer, a, b, i - 1, j - 1) + scorer.spec_score(a[i - 1], b[j - 1]),
            spec_cell_score(scorer, a, b, i - 1, j) - scorer.spec_gap_penalty(1),
            spec_cell_score(scorer, a, b, i, j - 1) - scorer.spec_gap_penalty(1),
        )
    }
}

/// The value of cell `(i, j)` of the score matrix: the best candidate,
/// clipped at the local-alignment floor of zero.  Row and column 0 are the
/// zero boundary.
pub open spec fn spec_cell_score<S: Scorer>(
    scorer: &S,
    a: Seq<char>,
    b: Seq<char>,
    i: int,
    j: int,
) -> int
    decreases i + j, 1int,
{
    if i <= 0 || j <= 0 {
        0
    } else {
        let c = spec_candidates(scorer, a, b, i, j);
        let best = max3(c.0, c.1, c.2);
        if best > 0 {
            best
        } else {
            0
        }
    }
}

/// The directions recorded in cell `(i, j)` of the traceback matrix: every
/// direction whose candidate attains the cell's positive maximum, in the
/// fixed order diagonal, up, left.  A cell at the zero floor records no
/// direction and marks a local-alignment start.
pub open spec fn spec_cell_dirs<S: Scorer>(
    scorer: &S,
    a: Seq<char>,
    b: Seq<char>,
    i: int,
    j: int,
) -> Seq<Direction> {
    if i <= 0 || j <= 0 {
        Seq::<Direction>::empty()
    } else {
        let c = spec_candidates(scorer, a, b, i, j);
        let best = max3(c.0, c.1, c.2);
        if best > 0 {
            (if c.0 == best {
                seq![Direction::Diag]
            } else {
                Seq::<Direction>::empty()
            }) + (if c.1 == best {
                seq![Direction::Up]
            } else {
                Seq::<Direction>::empty()
            }) + (if c.2 == best {
                seq![Direction::Left]
            } else {
                Seq::<Direction>::empty()
            })
        } else {
            Seq::<Direction>::empty()
        }
    }
}

/// Both matrices of one run, of shape `(len(A) + 1) x (len(B) + 1)`, hold
/// exactly the values of the specification recurrence.
pub open spec fn sw_matrices_match<S: Scorer>(
    scorer: &S,
    a: Seq<char>,
    b: Seq<char>,
    score: &ScoreMatrix,
    tb: &TracebackMatrix,
) -> bool {
    &&& score.wf()
    &&& tb.wf()
    &&& score.rows() == a.len() + 1
    &&& score.cols() == b.len() + 1
    &&& tb.rows() == a.len() + 1
    &&& tb.cols() == b.len() + 1
    &&& forall|i: int, j: int|
        0 <= i <= a.len() && 0 <= j <= b.len() ==> #[trigger] score.at(i, j)
            == spec_cell_score(scorer, a, b, i, j)
    &&& forall|i: int, j: int|
        0 <= i <= a.len() && 0 <= j <= b.len() ==> #[trigger] tb.dirs(i, j)
            == spec_cell_dirs(scorer, a, b, i, j)
}

/// Build the score and traceback matrices for `a` against `b` under the
/// given scoring policy.
#[verifier::loop_isolation(false)]
pub fn build_score_matrix<S: Scorer>(a: &str, b: &str, scorer: &S) -> (r: (
    ScoreMatrix,
    TracebackMatrix,
))
    requires
        scorer.wf(),
        a@.len() <= SCORE_LIMIT,
        b@.len() <= SCORE_LIMIT,
    ensures
        sw_matrices_match(scorer, a@, b@, &r.0, &r.1),
{
    let m = a.unicode_len();
    let n = b.unicode_len();
    let mut score = ScoreMatrix::zeros(m + 1, n + 1);
    let mut tb = TracebackMatrix::empty(m + 1, n + 1);
    proof {
        scorer.unit_gap_fits();
    }
    let g = scorer.gap_penalty(1);

    let mut i: usize = 1;
    while i <= m
        invariant
            1 <= i <= m + 1,
            score.wf(),
            tb.wf(),
            score.rows() == m + 1,
            score.cols() == n + 1,
            tb.rows() == m + 1,
            tb.cols() == n + 1,
            forall|r: int, c: int|
                0 <= r <= m && 0 <= c <= n && r < i ==> #[trigger] score.at(r, c)
                    == spec_cell_score(scorer, a@, b@, r, c),
            forall|r: int, c: int|
                0 <= r <= m && 0 <= c <= n && r < i ==> #[trigger] tb.dirs(r, c)
                    == spec_cell_dirs(scorer, a@, b@, r, c),
            forall|r: int, c: int|
                0 <= r <= m && 0 <= c <= n && r >= i ==> #[trigger] score.at(r, c) == 0,
            forall|r: int, c: int|
                0 <= r <= m && 0 <= c <= n && r >= i ==> (#[trigger] tb.dirs(r, c)).len() == 0,
            forall|r: int, c: int|
                0 <= r <= m && 0 <= c <= n ==> 0 <= #[trigger] score.at(r, c) <= (r + c)
                    * (SCORE_LIMIT as int),
        decreases m + 1 - i,
    {
        let a_char = a.get_char(i - 1);
        let mut j: usize = 1;
        while j <= n
            invariant
                1 <= i <= m,
                1 <= j <= n + 1,
                a_char == a@[i - 1],
                score.wf(),
                tb.wf(),
                score.rows() == m + 1,
                score.cols() == n + 1,
                tb.rows() == m + 1,
                tb.cols() == n + 1,
                forall|r: int, c: int|
                    0 <= r <= m && 0 <= c <= n && (r < i || (r == i && c < j)) ==> #[trigger] score.at(
                        r,
                        c,
                    ) == spec_cell_score(scorer, a@, b@, r, c),
                forall|r: int, c: int|
                    0 <= r <= m && 0 <= c <= n && (r < i || (r == i && c < j)) ==> #[trigger] tb.dirs(
                        r,
                        c,
                    ) == spec_cell_dirs(scorer, a@, b@, r, c),
                forall|r: int, c: int|
                    0 <= r <= m && 0 <= c <= n && (r > i || (r == i && c >= j)) ==> #[trigger] score.at(
                        r,
                        c,
                    ) == 0,
                forall|r: int, c: int|
                    0 <= r <= m && 0 <= c <= n && (r > i || (r == i && c >= j)) ==> (
                    #[trigger] tb.dirs(r, c)).len() == 0,
                forall|r: int, c: int|
                    0 <= r <= m && 0 <= c <= n ==> 0 <= #[trigger] score.at(r, c) <= (r + c)
                        * (SCORE_LIMIT as int),
            decreases n + 1 - j,
        {
            let b_char = b.get_char(j - 1);
            let s = scorer.score(a_char, b_char);

            proof {
                lemma_unit_bound_times(i + j, SCORE_LIMIT as int);
            }
            let diag = score.get(i - 1, j - 1) + s;
            let up = score.get(i - 1, j) - g;
            let left = score.get(i, j - 1) - g;

            let mut best = diag;
            if up > best {
                best = up;
            }
            if left > best {
                best = left;
            }

            proof {
                assert(spec_candidates(scorer, a@, b@, i as int, j as int) == (
                    diag as int,
                    up as int,
                    left as int,
                ));
                assert(best == max3(diag as int, up as int, left as int));
            }

            if best > 0 {
                score.set(i, j, best);
                let mut dirs: Vec<Direction> = Vec::new();
                if diag == best {
                    dirs.push(Direction::Diag);
                }
                if up == best {
                    dirs.push(Direction::Up);
                }
                if left == best {
                    dirs.push(Direction::Left);
                }
                proof {
                    assert(dirs@ =~= spec_cell_dirs(scorer, a@, b@, i as int, j as int));
                }
                tb.set(i, j, dirs);
            } else {
                proof {
                    assert(spec_cell_score(scorer, a@, b@, i as int, j as int) == 0);
                    assert(spec_cell_dirs(scorer, a@, b@, i as int, j as int)
                        =~= Seq::<Direction>::empty());
                }
            }

            j = j + 1;
        }
        i = i + 1;
    }
    (score, tb)
}

/// The predecessor cell that a direction recorded in `(i, j)` points to.
pub open spec fn spec_pred(i: usize, j: usize, d: Direction) -> (usize, usize) {
    match d {
        Direction::Diag => (((i - 1) as usize), ((j - 1) as usize)),
        Direction::Up => (((i - 1) as usize), j),
        Direction::Left => (i, ((j - 1) as usize)),
    }
}

/// Directions are recorded only strictly inside the matrix, so every
/// recorded direction has a predecessor cell that stays inside the matrix.
pub open spec fn tb_dirs_valid(tb: &TracebackMatrix) -> bool {
    forall|i: int, j: int|
        0 <= i < tb.rows() && 0 <= j < tb.cols() && (#[trigger] tb.dirs(i, j)).len() > 0 ==> i >= 1
            && j >= 1
}

/// A matrix built by `build_score_matrix` records directions only strictly
/// inside itself.
pub proof fn lemma_built_dirs_valid<S: Scorer>(
    scorer: &S,
    a: Seq<char>,
    b: Seq<char>,
    score: &ScoreMatrix,
    tb: &TracebackMatrix,
)
    requires
        sw_matrices_match(scorer, a, b, score, tb),
    ensures
        tb_dirs_valid(tb),
{
    assert forall|i: int, j: int|
        0 <= i < tb.rows() && 0 <= j < tb.cols() && (#[trigger] tb.dirs(i, j)).len() > 0 implies i
        >= 1 && j >= 1 by {
        if i < 1 || j < 1 {
            assert(tb.dirs(i, j) == spec_cell_dirs(scorer, a, b, i, j));
        }
    }
}

/// The direction sets that drive a traceback enumeration, as a function
/// from cell index to recorded directions.  The enumeration is stated over
/// such a function so that it describes both a concrete traceback matrix
/// and the specification recurrence itself.
pub type DirsFn = spec_fn(int, int) -> Seq<Direction>;

/// The direction sets recorded in a traceback matrix.
pub open spec fn matrix_dirs(tb: &TracebackMatrix) -> DirsFn {
    |i: int, j: int| tb.dirs(i, j)
}

/// The direction sets of the specification recurrence.
pub open spec fn recurrence_dirs<S: Scorer>(scorer: &S, a: Seq<char>, b: Seq<char>) -> DirsFn {
    |i: int, j: int| spec_cell_dirs(scorer, a, b, i, j)
}

/// Every traceback of `ts` with the cells `p` prepended.
pub open spec fn prepend_all(p: Seq<(usize, usize)>, ts: Seq<Seq<(usize, usize)>>) -> Seq<
    Seq<(usize, usize)>,
> {
    ts.map_values(|t: Seq<(usize, usize)>| p + t)
}

/// All tracebacks that end at `(i, j)`: each follows recorded directions
/// backwards until it reaches a cell that records none, and lists the cells
/// it passed through in index-descending order.  A cell that records no
/// direction yields the one empty traceback.
pub open spec fn spec_tracebacks(d: DirsFn, i: usize, j: usize) -> Seq<Seq<(usize, usize)>>
    decreases i + j, d(i as int, j as int).len() + 1,
{
    if d(i as int, j as int).len() == 0 {
        seq![Seq::<(usize, usize)>::empty()]
    } else {
        spec_tracebacks_from(d, i, j, 0)
    }
}

/// The tracebacks through `(i, j)` that start with one of the directions
/// `d(i, j)[k..]`, each with `(i, j)` prepended.
pub open spec fn spec_tracebacks_from(d: DirsFn, i: usize, j: usize, k: int) -> Seq<
    Seq<(usize, usize)>,
>
    decreases i + j, d(i as int, j as int).len() - k,
{
    let ds = d(i as int, j as int);
    if i < 1 || j < 1 || k < 0 || k >= ds.len() {
        Seq::<Seq<(usize, usize)>>::empty()
    } else {
        let p = spec_pred(i, j, ds[k]);
        prepend_all(seq![(i, j)], spec_tracebacks(d, p.0, p.1)) + spec_tracebacks_from(
            d,
            i,
            j,
            k + 1,
        )
    }
}

/// The number of enumeration steps below cell `(i, j)`: one for the cell
/// itself plus the steps below each recorded direction's predecessor.
pub open spec fn spec_tb_count(d: DirsFn, i: usize, j: usize) -> nat
    decreases i + j, d(i as int, j as int).len() + 1,
{
    if d(i as int, j as int).len() == 0 {
        1
    } else {
        1 + spec_tb_count_from(d, i, j, 0)
    }
}

/// The enumeration steps below the directions `d(i, j)[k..]`.
pub open spec fn spec_tb_count_from(d: DirsFn, i: usize, j: usize, k: int) -> nat
    decreases i + j, d(i as int, j as int).len() - k,
{
    let ds = d(i as int, j as int);
    if i < 1 || j < 1 || k < 0 || k >= ds.len() {
        0
    } else {
        let p = spec_pred(i, j, ds[k]);
        spec_tb_count(d, p.0, p.1) + spec_tb_count_from(d, i, j, k + 1)
    }
}

/// `k * limit` stays well inside `i64` for every `k` up to twice the
/// sequence-length cap, with one unit contribution of slack on either side.
proof fn lemma_unit_bound_times(k: int, limit: int)
    requires
        0 <= k <= 2 * (SCORE_LIMIT as int),
        limit == SCORE_LIMIT as int,
    ensures
        (k - 2) * limit <= k * limit,
        (k - 1) * limit <= k * limit,
        (k - 2) * limit + limit == (k - 1) * limit,
        (k - 1) * limit + limit == k * limit,
        k * limit <= i64::MAX - limit,
{
    assert((k - 2) * limit + limit == (k - 1) * limit) by (nonlinear_arith);
    assert((k - 1) * limit + limit == k * limit) by (nonlinear_arith);
    assert(limit >= 0);
    assert((k - 2) * limit <= (k - 1) * limit <= k * limit) by (nonlinear_arith)
        requires
            0 <= k,
            limit >= 0,
    ;
    assert(k * limit <= 2 * (SCORE_LIMIT as int) * limit) by (nonlinear_arith)
        requires
            0 <= k <= 2 * (SCORE_LIMIT as int),
            limit >= 0,
    ;
    assert(2 * (SCORE_LIMIT as int) * (SCORE_LIMIT as int) <= i64::MAX - SCORE_LIMIT as int);
}

/// The view of a collection of tracebacks as a sequence of sequences.
pub open spec fn tracebacks_view(ts: Seq<Vec<(usize, usize)>>) -> Seq<Seq<(usize, usize)>> {
    ts.map_values(|t: Vec<(usize, usize)>| t@)
}

/// One enumeration frame: the cells already passed through, and the cell to
/// continue from.
type Frame = (Vec<(usize, usize)>, (usize, usize));

/// The tracebacks still owed by a stack of frames, topmost frame first.
spec fn spec_stack_expansion(d: DirsFn, s: Seq<Frame>) -> Seq<Seq<(usize, usize)>>
    decreases s.len(),
{
    if s.len() == 0 {
        Seq::<Seq<(usize, usize)>>::empty()
    } else {
        let f = s.last();
        prepend_all(f.0@, spec_tracebacks(d, f.1.0, f.1.1)) + spec_stack_expansion(d, s.drop_last())
    }
}

/// The enumeration steps still owed by a stack of frames.
spec fn spec_stack_count(d: DirsFn, s: Seq<Frame>) -> nat
    decreases s.len(),
{
    if s.len() == 0 {
        0
    } else {
        spec_tb_count(d, s.last().1.0, s.last().1.1) + spec_stack_count(d, s.drop_last())
    }
}

proof fn lemma_stack_push(d: DirsFn, s: Seq<Frame>, f: Frame)
    ensures
        spec_stack_expansion(d, s.push(f)) == prepend_all(f.0@, spec_tracebacks(d, f.1.0, f.1.1))
            + spec_stack_expansion(d, s),
        spec_stack_count(d, s.push(f)) == spec_tb_count(d, f.1.0, f.1.1) + spec_stack_count(d, s),
{
    assert(s.push(f).drop_last() =~= s);
    assert(s.push(f).last() == f);
}

/// Prepending a common prefix distributes over concatenation of traceback
/// collections.
proof fn lemma_prepend_all_concat(
    x: Seq<Seq<(usize, usize)>>,
    y: Seq<Seq<(usize, usize)>>,
    p: Seq<(usize, usize)>,
)
    ensures
        prepend_all(p, x + y) == prepend_all(p, x) + prepend_all(p, y),
{
    assert(prepend_all(p, x + y) =~~= prepend_all(p, x) + prepend_all(p, y));
}

/// Prepending in two stages is prepending the concatenated prefix.
proof fn lemma_prepend_all_twice(
    x: Seq<Seq<(usize, usize)>>,
    p: Seq<(usize, usize)>,
    q: Seq<(usize, usize)>,
)
    ensures
        prepend_all(p, prepend_all(q, x)) == prepend_all(p + q, x),
{
    assert(prepend_all(p, prepend_all(q, x)) =~~= prepend_all(p + q, x));
}

/// A copy of a list of cells.
fn copy_cells(v: &Vec<(usize, usize)>) -> (r: Vec<(usize, usize)>)
    ensures
        r@ == v@,
{
    let mut r: Vec<(usize, usize)> = Vec::new();
    let mut k: usize = 0;
    while k < v.len()
        invariant
            k <= v@.len(),
            r@ == v@.subrange(0, k as int),
        decreases v@.len() - k,
    {
        r.push(v[k]);
        k = k + 1;
        proof {
            assert(r@ =~= v@.subrange(0, k as int));
        }
    }
    proof {
        assert(v@.subrange(0, v@.len() as int) =~= v@);
    }
    r
}

/// Calculate the tracebacks of `traceback_matrix` that end at index `idx`.
///
/// Tracebacks are in reverse: the first element of each traceback is the
/// biggest index in it, and they work their way backward through the
/// sequences being aligned.  The recorded directions are followed with an
/// explicit stack rather than by recursion, so that long tracebacks do not
/// exhaust the call stack.
#[verifier::loop_isolation(false)]
pub fn tracebacks(traceback_matrix: &TracebackMatrix, idx: (usize, usize)) -> (r: Vec<
    Vec<(usize, usize)>,
>)
    requires
        traceback_matrix.wf(),
        tb_dirs_valid(traceback_matrix),
        idx.0 < traceback_matrix.rows(),
        idx.1 < traceback_matrix.cols(),
    ensures
        tracebacks_view(r@) == spec_tracebacks(matrix_dirs(traceback_matrix), idx.0, idx.1),
{
    let ghost d = matrix_dirs(traceback_matrix);
    let mut results: Vec<Vec<(usize, usize)>> = Vec::new();
    let mut stack: Vec<Frame> = Vec::new();
    stack.push((Vec::new(), idx));
    proof {
        assert(stack@.len() == 1);
        assert(stack@.drop_last() =~= Seq::<Frame>::empty());
        assert(spec_stack_expansion(d, stack@.drop_last()) == Seq::<Seq<(usize, usize)>>::empty());
        assert(stack@.last().0@ =~= Seq::<(usize, usize)>::empty());
        assert(stack@.last().1 == idx);
        assert(spec_stack_expansion(d, stack@) == prepend_all(
            stack@.last().0@,
            spec_tracebacks(d, idx.0, idx.1),
        ) + spec_stack_expansion(d, stack@.drop_last()));
        assert(prepend_all(Seq::<(usize, usize)>::empty(), spec_tracebacks(d, idx.0, idx.1))
            =~~= spec_tracebacks(d, idx.0, idx.1));
        assert(tracebacks_view(results@) =~= Seq::<Seq<(usize, usize)>>::empty());
        assert(tracebacks_view(results@) + spec_stack_expansion(d, stack@) =~~= spec_tracebacks(
            d,
            idx.0,
            idx.1,
        ));
    }
    while stack.len() > 0
        invariant
            forall|t: int|
                0 <= t < stack@.len() ==> (#[trigger] stack@[t]).1.0 < traceback_matrix.rows()
                    && stack@[t].1.1 < traceback_matrix.cols(),
            tracebacks_view(results@) + spec_stack_expansion(d, stack@) == spec_tracebacks(
                d,
                idx.0,
                idx.1,
            ),
        decreases spec_stack_count(d, stack@),
    {
        let ghost prev_stack = stack@;
        let ghost prev_results = results@;
        let frame = stack.pop().unwrap();
        proof {
            assert(prev_stack.last() == frame);
            assert(stack@ =~= prev_stack.drop_last());
        }
        let (prefix, cell) = frame;
        let dirs = traceback_matrix.get(cell.0, cell.1);
        if dirs.len() == 0 {
            proof {
                assert(spec_tracebacks(d, cell.0, cell.1) =~= seq![Seq::<(usize, usize)>::empty()]);
                assert(prepend_all(prefix@, spec_tracebacks(d, cell.0, cell.1)) =~~= seq![prefix@]);
            }
            results.push(prefix);
            proof {
                assert(tracebacks_view(results@) =~= tracebacks_view(prev_results).push(prefix@));
                assert(tracebacks_view(results@) + spec_stack_expansion(d, stack@)
                    =~~= tracebacks_view(prev_results) + spec_stack_expansion(d, prev_stack));
            }
        } else {
            let ghost ds = dirs@;
            let ghost rest = stack@;
            let mut new_prefix = prefix;
            new_prefix.push(cell);
            let mut k: usize = dirs.len();
            proof {
                assert(spec_tracebacks_from(d, cell.0, cell.1, k as int) =~= Seq::<
                    Seq<(usize, usize)>,
                >::empty());
                assert(prepend_all(prefix@, spec_tracebacks_from(d, cell.0, cell.1, k as int))
                    =~= Seq::<Seq<(usize, usize)>>::empty());
                assert(new_prefix@ =~= prefix@ + seq![(cell.0, cell.1)]);
                assert(spec_stack_expansion(d, stack@) =~~= prepend_all(
                    prefix@,
                    spec_tracebacks_from(d, cell.0, cell.1, k as int),
                ) + spec_stack_expansion(d, rest));
                assert(spec_tb_count_from(d, cell.0, cell.1, k as int) == 0);
            }
            while k > 0
                invariant
                    k <= ds.len(),
                    ds == traceback_matrix.dirs(cell.0 as int, cell.1 as int),
                    1 <= cell.0 < traceback_matrix.rows(),
                    1 <= cell.1 < traceback_matrix.cols(),
                    new_prefix@ == prefix@ + seq![(cell.0, cell.1)],
                    forall|t: int|
                        0 <= t < stack@.len() ==> (#[trigger] stack@[t]).1.0
                            < traceback_matrix.rows() && stack@[t].1.1 < traceback_matrix.cols(),
                    spec_stack_expansion(d, stack@) == prepend_all(
                        prefix@,
                        spec_tracebacks_from(d, cell.0, cell.1, k as int),
                    ) + spec_stack_expansion(d, rest),
                    spec_stack_count(d, stack@) == spec_tb_count_from(d, cell.0, cell.1, k as int)
                        + spec_stack_count(d, rest),
                decreases k,
            {
                k = k - 1;
                let dir = dirs[k];
                let pred = match dir {
                    Direction::Diag => (cell.0 - 1, cell.1 - 1),
                    Direction::Up => (cell.0 - 1, cell.1),
                    Direction::Left => (cell.0, cell.1 - 1),
                };
                proof {
                    assert(pred == spec_pred(cell.0, cell.1, ds[k as int]));
                }
                let child = copy_cells(&new_prefix);
                let ghost mid_stack = stack@;
                stack.push((child, pred));
                proof {
                    lemma_stack_push(d, mid_stack, (child, pred));
                    lemma_prepend_all_twice(
                        spec_tracebacks(d, pred.0, pred.1),
                        prefix@,
                        seq![(cell.0, cell.1)],
                    );
                    lemma_prepend_all_concat(
                        prepend_all(seq![(cell.0, cell.1)], spec_tracebacks(d, pred.0, pred.1)),
                        spec_tracebacks_from(d, cell.0, cell.1, k + 1),
                        prefix@,
                    );
                    assert(spec_tracebacks_from(d, cell.0, cell.1, k as int) == prepend_all(
                        seq![(cell.0, cell.1)],
                        spec_tracebacks(d, pred.0, pred.1),
                    ) + spec_tracebacks_from(d, cell.0, cell.1, k + 1));
                    assert(spec_stack_expansion(d, stack@) =~~= prepend_all(
                        prefix@,
                        spec_tracebacks_from(d, cell.0, cell.1, k as int),
                    ) + spec_stack_expansion(d, rest));
                }
            }
            proof {
                assert(prepend_all(prefix@, spec_tracebacks_from(d, cell.0, cell.1, 0))
                    == prepend_all(prefix@, spec_tracebacks(d, cell.0, cell.1)));
                assert(tracebacks_view(results@) + spec_stack_expansion(d, stack@)
                    =~~= tracebacks_view(prev_results) + spec_stack_expansion(d, prev_stack));
                assert(spec_tb_count(d, cell.0, cell.1) == 1 + spec_tb_count_from(
                    d,
                    cell.0,
                    cell.1,
                    0,
                ));
            }
        }
    }
    proof {
        assert(tracebacks_view(results@) + spec_stack_expansion(d, stack@) =~= tracebacks_view(
            results@,
        ));
    }
    results
}

/// The enumeration only consults direction sets at or below its start
/// cell, so two direction functions that agree there enumerate the same
/// tracebacks.
pub proof fn lemma_tracebacks_agree(d1: DirsFn, d2: DirsFn, i: usize, j: usize)
    requires
        forall|r: int, c: int| 0 <= r <= i && 0 <= c <= j ==> #[trigger] d1(r, c) == d2(r, c),
    ensures
        spec_tracebacks(d1, i, j) == spec_tracebacks(d2, i, j),
    decreases i + j, d1(i as int, j as int).len() + 1,
{
    if d1(i as int, j as int).len() == 0 {
    } else {
        lemma_tracebacks_from_agree(d1, d2, i, j, 0);
    }
}

proof fn lemma_tracebacks_from_agree(d1: DirsFn, d2: DirsFn, i: usize, j: usize, k: int)
    requires
        forall|r: int, c: int| 0 <= r <= i && 0 <= c <= j ==> #[trigger] d1(r, c) == d2(r, c),
    ensures
        spec_tracebacks_from(d1, i, j, k) == spec_tracebacks_from(d2, i, j, k),
    decreases i + j, d1(i as int, j as int).len() - k,
{
    let ds = d1(i as int, j as int);
    if i < 1 || j < 1 || k < 0 || k >= ds.len() {
    } else {
        let p = spec_pred(i, j, ds[k]);
        lemma_tracebacks_agree(d1, d2, p.0, p.1);
        lemma_tracebacks_from_agree(d1, d2, i, j, k + 1);
    }
}

/// Every cell yields at least one traceback.
pub proof fn lemma_tracebacks_nonempty(d: DirsFn, i: usize, j: usize)
    requires
        dirs_valid_below(d, i, j),
    ensures
        spec_tracebacks(d, i, j).len() >= 1,
    decreases i + j, d(i as int, j as int).len() + 1,
{
    if d(i as int, j as int).len() == 0 {
    } else {
        lemma_tracebacks_from_nonempty(d, i, j, 0);
    }
}

proof fn lemma_tracebacks_from_nonempty(d: DirsFn, i: usize, j: usize, k: int)
    requires
        dirs_valid_below(d, i, j),
        0 <= k < d(i as int, j as int).len(),
    ensures
        spec_tracebacks_from(d, i, j, k).len() >= 1,
    decreases i + j, d(i as int, j as int).len() - k,
{
    let ds = d(i as int, j as int);
    assert(1 <= i && 1 <= j);
    let p = spec_pred(i, j, ds[k]);
    assert(dirs_valid_below(d, p.0, p.1));
    lemma_tracebacks_nonempty(d, p.0, p.1);
}

/// The alignment step between two consecutive traceback entries, in matrix
/// space: `curr` must advance from `prev` by exactly one of the deltas
/// `(+1, +1)` (both sides), `(+1, 0)` (gap on the right), `(0, +1)` (gap on
/// the left).  Any other delta breaks the contiguity law.
pub open spec fn spec_step_cell(prev: (usize, usize), curr: (usize, usize)) -> Option<
    AlignmentCell,
> {
    if curr.0 == prev.0 + 1 && curr.1 == prev.1 + 1 {
        Some(
            AlignmentCell::Both {
                left: ((curr.0 - 1) as usize),
                right: ((curr.1 - 1) as usize),
            },
        )
    } else if curr.0 == prev.0 + 1 && curr.1 == prev.1 {
        Some(AlignmentCell::RightGap { left: ((curr.0 - 1) as usize) })
    } else if curr.0 == prev.0 && curr.1 == prev.1 + 1 {
        Some(AlignmentCell::LeftGap { right: ((curr.1 - 1) as usize) })
    } else {
        None
    }
}

/// The alignment denoted by a traceback, or `None` where consecutive
/// entries break the contiguity law.  The traceback is index-descending in
/// matrix space, as produced by `tracebacks`; the denoted alignment is
/// index-ascending in sequence space, so its cells correspond to the
/// traceback entries read backwards, each shifted down by one.
pub open spec fn spec_traceback_alignment(t: Seq<(usize, usize)>) -> Option<Seq<AlignmentCell>>
    decreases t.len(),
{
    if t.len() == 0 {
        Some(Seq::<AlignmentCell>::empty())
    } else if t.len() == 1 {
        Some(
            seq![
                AlignmentCell::Both {
                    left: ((t[0].0 - 1) as usize),
                    right: ((t[0].1 - 1) as usize),
                },
            ],
        )
    } else {
        let rest = spec_traceback_alignment(t.drop_first());
        let step = spec_step_cell(t[1], t[0]);
        if rest is Some && step is Some {
            Some(rest.unwrap().push(step.unwrap()))
        } else {
            None
        }
    }
}

/// A traceback whose entries stay strictly inside the matrix and whose
/// consecutive entries are all valid alignment steps.
pub open spec fn spec_steps_ok(t: Seq<(usize, usize)>) -> bool {
    &&& forall|k: int| 0 <= k < t.len() ==> 1 <= (#[trigger] t[k]).0 && 1 <= t[k].1
    &&& forall|k: int|
        0 <= k < t.len() - 1 ==> (#[trigger] spec_step_cell(t[k + 1], t[k])) is Some
}

/// Below `(i, j)`, directions are recorded only strictly inside the matrix.
pub open spec fn dirs_valid_below(d: DirsFn, i: usize, j: usize) -> bool {
    forall|r: int, c: int|
        0 <= r <= i && 0 <= c <= j && (#[trigger] d(r, c)).len() > 0 ==> 1 <= r && 1 <= c
}

/// Every enumerated traceback walks strictly inside the matrix, makes only
/// valid alignment steps, and starts at the cell it was enumerated from.
pub proof fn lemma_tracebacks_ok(d: DirsFn, i: usize, j: usize)
    requires
        dirs_valid_below(d, i, j),
    ensures
        forall|x: int|
            0 <= x < spec_tracebacks(d, i, j).len() ==> spec_steps_ok(
                #[trigger] spec_tracebacks(d, i, j)[x],
            ) && (spec_tracebacks(d, i, j)[x].len() > 0 ==> spec_tracebacks(d, i, j)[x][0] == (
            i,
            j,
            )),
    decreases i + j, d(i as int, j as int).len() + 1,
{
    if d(i as int, j as int).len() == 0 {
        let empty = Seq::<(usize, usize)>::empty();
        assert(spec_tracebacks(d, i, j) == seq![empty]);
        assert forall|x: int| 0 <= x < spec_tracebacks(d, i, j).len() implies spec_steps_ok(
            #[trigger] spec_tracebacks(d, i, j)[x],
        ) && (spec_tracebacks(d, i, j)[x].len() > 0 ==> spec_tracebacks(d, i, j)[x][0] == (
        i,
        j,
        )) by {
            assert(spec_tracebacks(d, i, j)[x] == empty);
            assert(spec_steps_ok(empty));
        }
    } else {
        lemma_tracebacks_from_ok(d, i, j, 0);
        assert(spec_tracebacks(d, i, j) == spec_tracebacks_from(d, i, j, 0));
        assert forall|x: int| 0 <= x < spec_tracebacks(d, i, j).len() implies spec_steps_ok(
            #[trigger] spec_tracebacks(d, i, j)[x],
        ) && (spec_tracebacks(d, i, j)[x].len() > 0 ==> spec_tracebacks(d, i, j)[x][0] == (
        i,
        j,
        )) by {
            assert(spec_tracebacks(d, i, j)[x] == spec_tracebacks_from(d, i, j, 0)[x]);
        }
    }
}

/// As `lemma_tracebacks_ok`, for the tracebacks that start with one of the
/// directions `d(i, j)[k..]`; each of those contains at least `(i, j)`.
pub proof fn lemma_tracebacks_from_ok(d: DirsFn, i: usize, j: usize, k: int)
    requires
        dirs_valid_below(d, i, j),
        d(i as int, j as int).len() > 0,
    ensures
        forall|x: int|
            0 <= x < spec_tracebacks_from(d, i, j, k).len() ==> spec_steps_ok(
                #[trigger] spec_tracebacks_from(d, i, j, k)[x],
            ) && spec_tracebacks_from(d, i, j, k)[x].len() > 0 && spec_tracebacks_from(
                d,
                i,
                j,
                k,
            )[x][0] == (i, j),
    decreases i + j, d(i as int, j as int).len() - k,
{
    let ds = d(i as int, j as int);
    assert(1 <= i && 1 <= j);
    if k < 0 || k >= ds.len() {
    } else {
        let p = spec_pred(i, j, ds[k]);
        assert(dirs_valid_below(d, p.0, p.1));
        lemma_tracebacks_ok(d, p.0, p.1);
        lemma_tracebacks_from_ok(d, i, j, k + 1);
        let mapped = prepend_all(seq![(i, j)], spec_tracebacks(d, p.0, p.1));
        assert forall|x: int| 0 <= x < mapped.len() implies spec_steps_ok(#[trigger] mapped[x])
            && mapped[x].len() > 0 && mapped[x][0] == (i, j) by {
            let t = spec_tracebacks(d, p.0, p.1)[x];
            let u = seq![(i, j)] + t;
            assert(mapped[x] == u);
            assert(u[0] == (i, j));
            assert forall|m: int| 0 <= m < u.len() implies 1 <= (#[trigger] u[m]).0 && 1
                <= u[m].1 by {
                if m > 0 {
                    assert(u[m] == t[m - 1]);
                }
            }
            assert forall|m: int|
                0 <= m < u.len() - 1 implies (#[trigger] spec_step_cell(u[m + 1], u[m])) is Some by {
                if m == 0 {
                    assert(u[1] == t[0]);
                    assert(t[0] == p);
                    assert(spec_step_cell(p, (i, j)) is Some);
                } else {
                    assert(u[m] == t[m - 1]);
                    assert(u[m + 1] == t[m]);
                    assert(spec_step_cell(t[m - 1 + 1], t[m - 1]) is Some);
                }
            }
        }
        assert(spec_tracebacks_from(d, i, j, k) == mapped + spec_tracebacks_from(d, i, j, k + 1));
        assert forall|x: int| 0 <= x < spec_tracebacks_from(d, i, j, k).len() implies spec_steps_ok(
            #[trigger] spec_tracebacks_from(d, i, j, k)[x],
        ) && spec_tracebacks_from(d, i, j, k)[x].len() > 0 && spec_tracebacks_from(
            d,
            i,
            j,
            k,
        )[x][0] == (i, j) by {
            if x < mapped.len() {
                assert(spec_tracebacks_from(d, i, j, k)[x] == mapped[x]);
            } else {
                assert(spec_tracebacks_from(d, i, j, k)[x] == spec_tracebacks_from(
                    d,
                    i,
                    j,
                    k + 1,
                )[x - mapped.len()]);
            }
        }
    }
}

/// Only a cell that records no direction can yield the empty traceback.
pub proof fn lemma_tracebacks_empty_element(d: DirsFn, i: usize, j: usize, x: int)
    requires
        dirs_valid_below(d, i, j),
        0 <= x < spec_tracebacks(d, i, j).len(),
        spec_tracebacks(d, i, j)[x].len() == 0,
    ensures
        d(i as int, j as int).len() == 0,
{
    if d(i as int, j as int).len() > 0 {
        lemma_tracebacks_from_ok(d, i, j, 0);
        assert(spec_tracebacks(d, i, j)[x] == spec_tracebacks_from(d, i, j, 0)[x]);
        assert(false);
    }
}

/// A traceback whose steps are all valid denotes an alignment.
pub proof fn lemma_steps_ok_alignment(t: Seq<(usize, usize)>)
    requires
        spec_steps_ok(t),
    ensures
        spec_traceback_alignment(t) is Some,
    decreases t.len(),
{
    if t.len() >= 2 {
        assert forall|k: int| 0 <= k < t.drop_first().len() implies 1 <= (
        #[trigger] t.drop_first()[k]).0 && 1 <= t.drop_first()[k].1 by {
            assert(t.drop_first()[k] == t[k + 1]);
        }
        assert forall|k: int|
            0 <= k < t.drop_first().len() - 1 implies (#[trigger] spec_step_cell(
            t.drop_first()[k + 1],
            t.drop_first()[k],
        )) is Some by {
            assert(t.drop_first()[k] == t[k + 1]);
            assert(t.drop_first()[k + 1] == t[k + 2]);
            assert(spec_step_cell(t[k + 1 + 1], t[k + 1]) is Some);
        }
        lemma_steps_ok_alignment(t.drop_first());
        assert(spec_step_cell(t[1], t[0]) is Some);
    }
}

/// The alignment a traceback denotes, with the empty alignment standing in
/// for an invalid traceback; the enumerated tracebacks are all valid.
pub open spec fn spec_alignment_of(t: Seq<(usize, usize)>) -> Seq<AlignmentCell> {
    match spec_traceback_alignment(t) {
        Some(al) => al,
        None => Seq::<AlignmentCell>::empty(),
    }
}

/// The shape of the alignment a traceback denotes: one cell per traceback
/// entry, opening with a `Both` cell at the traceback's last (smallest)
/// entry, each later cell the step between two consecutive entries read
/// backwards.
pub proof fn lemma_alignment_shape(t: Seq<(usize, usize)>)
    requires
        spec_traceback_alignment(t) is Some,
        t.len() > 0,
    ensures
        ({
            let al = spec_traceback_alignment(t).unwrap();
            &&& al.len() == t.len()
            &&& al[0] == (AlignmentCell::Both {
                left: ((t[t.len() - 1].0 - 1) as usize),
                right: ((t[t.len() - 1].1 - 1) as usize),
            })
            &&& forall|m: int|
                1 <= m < t.len() ==> Some(#[trigger] al[m]) == spec_step_cell(
                    t[t.len() - m],
                    t[t.len() - m - 1],
                )
        }),
    decreases t.len(),
{
    if t.len() == 1 {
    } else {
        let t2 = t.drop_first();
        lemma_alignment_shape(t2);
        let al = spec_traceback_alignment(t).unwrap();
        let al2 = spec_traceback_alignment(t2).unwrap();
        assert(al == al2.push(spec_step_cell(t[1], t[0]).unwrap()));
        assert forall|m: int|
            1 <= m < t.len() implies Some(#[trigger] al[m]) == spec_step_cell(
            t[t.len() - m],
            t[t.len() - m - 1],
        ) by {
            if m < t.len() - 1 {
                assert(al[m] == al2[m]);
                assert(t2[t2.len() - m] == t[t.len() - m]);
                assert(t2[t2.len() - m - 1] == t[t.len() - m - 1]);
            } else {
                assert(al[m] == spec_step_cell(t[1], t[0]).unwrap());
                assert(spec_step_cell(t[1], t[0]) is Some);
            }
        }
        assert(al[0] == al2[0]);
        assert(t2[t2.len() - 1] == t[t.len() - 1]);
    }
}

/// From position `m` on, the denoted alignment of a valid traceback obeys
/// the contiguity law, continuing from the position pair of cell `m - 1`.
proof fn lemma_contiguous_from_aux(t: Seq<(usize, usize)>, al: Seq<AlignmentCell>, m: int)
    requires
        spec_steps_ok(t),
        spec_traceback_alignment(t) == Some(al),
        t.len() > 0,
        1 <= m <= t.len(),
    ensures
        spec_contiguous_from(al, m, t[t.len() - m].0 - 1, t[t.len() - m].1 - 1),
    decreases t.len() - m,
{
    lemma_alignment_shape(t);
    if m >= al.len() {
    } else {
        lemma_contiguous_from_aux(t, al, m + 1);
        assert(Some(al[m]) == spec_step_cell(t[t.len() - m], t[t.len() - m - 1]));
        assert(1 <= t[t.len() - m].0 && 1 <= t[t.len() - m].1);
        assert(1 <= t[t.len() - m - 1].0 && 1 <= t[t.len() - m - 1].1);
    }
}

/// Contiguity of the denoted alignment: every traceback whose steps are
/// valid denotes an alignment that satisfies the contiguity law.
pub proof fn lemma_alignment_contiguous(t: Seq<(usize, usize)>)
    requires
        spec_steps_ok(t),
    ensures
        spec_contiguous(spec_alignment_of(t)),
{
    lemma_steps_ok_alignment(t);
    if t.len() > 0 {
        lemma_alignment_shape(t);
        let al = spec_traceback_alignment(t).unwrap();
        lemma_contiguous_from_aux(t, al, 1);
        assert(1 <= t[t.len() - 1].0 && 1 <= t[t.len() - 1].1);
    }
}

/// Once the denoted alignment of a suffix is undefined, so is the whole
/// traceback's.
proof fn lemma_alignment_none(t: Seq<(usize, usize)>, k: int)
    requires
        0 <= k < t.len(),
        spec_traceback_alignment(t.skip(k)) is None,
    ensures
        spec_traceback_alignment(t) is None,
    decreases k,
{
    if k == 0 {
        assert(t.skip(0) =~= t);
    } else {
        assert(t.skip(k - 1).drop_first() =~= t.skip(k));
        assert(t.skip(k - 1).len() >= 2);
        lemma_alignment_none(t, k - 1);
    }
}

/// The structured error of an invalid traceback: one whose consecutive
/// entries break the contiguity law.  It identifies the offending
/// traceback.
#[derive(Debug)]
pub struct TracebackError {
    pub traceback: Vec<(usize, usize)>,
}

/// Convert a traceback, as returned by `tracebacks`, into an alignment.
///
/// The indices of the alignment cells are in sequence space, one less than
/// the matrix-space traceback entries; the cells are index-ascending, so
/// they read the traceback backwards.
#[verifier::loop_isolation(false)]
pub fn traceback_to_alignment(traceback: &Vec<(usize, usize)>) -> (r: Result<
    Alignment,
    TracebackError,
>)
    requires
        forall|k: int|
            0 <= k < traceback@.len() ==> 1 <= (#[trigger] traceback@[k]).0 && 1
                <= traceback@[k].1,
    ensures
        match r {
            Ok(al) => spec_traceback_alignment(traceback@) == Some(al@),
            Err(e) => spec_traceback_alignment(traceback@) is None && e.traceback@ == traceback@,
        },
{
    let n = traceback.len();
    let mut alignment: Alignment = Vec::new();
    if n == 0 {
        proof {
            assert(alignment@ =~= Seq::<AlignmentCell>::empty());
        }
        return Ok(alignment);
    }
    let first = traceback[n - 1];
    alignment.push(AlignmentCell::Both { left: first.0 - 1, right: first.1 - 1 });
    proof {
        assert(traceback@.skip(n - 1) =~= seq![traceback@[n - 1]]);
        assert(alignment@ =~= seq![
            AlignmentCell::Both {
                left: ((first.0 - 1) as usize),
                right: ((first.1 - 1) as usize),
            },
        ]);
    }
    let mut k: usize = n - 1;
    while k > 0
        invariant
            0 <= k <= n - 1,
            n == traceback@.len(),
            spec_traceback_alignment(traceback@.skip(k as int)) == Some(alignment@),
        decreases k,
    {
        let curr = traceback[k - 1];
        let prev = traceback[k];
        let cell: Option<AlignmentCell> = if curr.0 - 1 == prev.0 && curr.1 - 1 == prev.1 {
            Some(AlignmentCell::Both { left: curr.0 - 1, right: curr.1 - 1 })
        } else if curr.0 - 1 == prev.0 && curr.1 == prev.1 {
            Some(AlignmentCell::RightGap { left: curr.0 - 1 })
        } else if curr.0 == prev.0 && curr.1 - 1 == prev.1 {
            Some(AlignmentCell::LeftGap { right: curr.1 - 1 })
        } else {
            None
        };
        proof {
            assert(traceback@.skip(k - 1).drop_first() =~= traceback@.skip(k as int));
            assert(traceback@.skip(k - 1)[0] == traceback@[k - 1]);
            assert(traceback@.skip(k - 1)[1] == traceback@[k as int]);
            assert(cell == spec_step_cell(prev, curr));
        }
        match cell {
            Some(c) => {
                alignment.push(c);
            },
            None => {
                proof {
                    lemma_alignment_none(traceback@, k - 1);
                }
                return Err(TracebackError { traceback: copy_cells(traceback) });
            },
        }
        k = k - 1;
    }
    proof {
        assert(traceback@.skip(0) =~= traceback@);
    }
    Ok(alignment)
}

} // verus!
