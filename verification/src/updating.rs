//! Relocation of an anchor against the current contents of its file.

use vstd::prelude::*;

use crate::alignment::align::{Aligner, AlignmentCell};
use crate::alignment::smith_waterman::simple_scorer::SimpleScorer;
use crate::alignment::smith_waterman::smith_waterman::{
    lemma_align_identity, min2, spec_id_alignment, spec_sw_alignments,
};
use crate::anchor::check_path::spec_path_is_absolute;
use crate::anchor::context::{spec_after_end, spec_before_start};
use crate::anchor::{Anchor, Context, ContextError};

verus! {

/// Failure to relocate an anchor.
#[derive(Debug)]
pub enum UpdateError {
    /// The alignment engine returned no alignments at all.
    NoAlignments,
    /// The topic could not be mapped into the new text, or the rebuilt
    /// context failed validation.
    InvalidAlignment(String),
}

/// The positions the topic keeps in the new text: for each `Both` cell of
/// the alignment whose left index falls inside the topic part of the
/// context window (past the `before` stretch, within the topic's length),
/// the matching right index, in alignment order.
pub open spec fn spec_retained(al: Seq<AlignmentCell>, before_len: int, topic_len: int) -> Seq<
    usize,
>
    decreases al.len(),
{
    if al.len() == 0 {
        Seq::<usize>::empty()
    } else {
        spec_retained(al.drop_last(), before_len, topic_len) + (match al.last() {
            AlignmentCell::Both { left, right } => {
                if before_len <= left < before_len + topic_len {
                    seq![right]
                } else {
                    Seq::<usize>::empty()
                }
            },
            _ => Seq::<usize>::empty(),
        })
    }
}

/// The smallest of a non-empty list of positions.
pub open spec fn spec_min_of(s: Seq<usize>) -> int
    decreases s.len(),
{
    if s.len() <= 1 {
        if s.len() == 0 {
            0
        } else {
            s[0] as int
        }
    } else {
        let m = spec_min_of(s.drop_last());
        if s.last() < m {
            s.last() as int
        } else {
            m
        }
    }
}

/// Update an anchor based on the current contents of its source file.
///
/// `full_text` is the file's current text, read by the caller; the
/// anchor's stored context window is aligned against it, the topic's new
/// place is taken from the first alignment, and a fresh context and anchor
/// are built there.  Fails with `NoAlignments` if the engine returns none,
/// and with `InvalidAlignment` if either text is empty, if no position of
/// the topic survives into the new text, or if the rebuilt context or
/// anchor fails validation.
pub fn update<A: Aligner>(anchor: &Anchor, full_text: &str, aligner: &A) -> (r: Result<
    Anchor,
    UpdateError,
>)
    requires
        aligner.wf(),
        aligner.fits(anchor.spec_context().spec_full_text().len(), full_text@.len()),
    ensures
        ({
            let ctx = anchor.spec_context();
            let a = ctx.spec_full_text();
            let b = full_text@;
            let als = aligner.spec_alignments(a, b);
            let ret = spec_retained(als[0], ctx.spec_before().len() as int, ctx.spec_topic().len() as int);
            let new_off = spec_min_of(ret);
            &&& (r is Ok <==> (a.len() > 0 && b.len() > 0 && als.len() > 0 && ret.len() > 0
                && new_off + ret.len() <= b.len() && spec_path_is_absolute(anchor.spec_file_path())))
            &&& ((a.len() == 0 || b.len() == 0) ==> r matches Err(UpdateError::InvalidAlignment(_)))
            &&& ((a.len() > 0 && b.len() > 0 && als.len() == 0) ==> r matches Err(
                UpdateError::NoAlignments,
            ))
            &&& ((a.len() > 0 && b.len() > 0 && als.len() > 0 && ret.len() == 0) ==> r matches Err(
                UpdateError::InvalidAlignment(_),
            ))
            &&& match r {
                Ok(na) => {
                    &&& na.spec_file_path() == anchor.spec_file_path()
                    &&& na.spec_encoding() == anchor.spec_encoding()
                    &&& na.spec_metadata() == anchor.spec_metadata()
                    &&& na.spec_context().spec_offset() == new_off
                    &&& na.spec_context().spec_width() == ctx.spec_width()
                    &&& na.spec_context().spec_topic() == b.subrange(new_off, new_off + ret.len())
                    &&& na.spec_context().spec_before() == b.subrange(
                        spec_before_start(new_off, ctx.spec_width()),
                        new_off,
                    )
                    &&& na.spec_context().spec_after() == b.subrange(
                        new_off + ret.len(),
                        spec_after_end(b.len() as int, new_off + ret.len(), ctx.spec_width()),
                    )
                },
                Err(_) => true,
            }
        }),
{
    let ctxt = anchor.context();
    let a_text = ctxt.full_text();

    let alignments = match aligner.align(a_text.as_str(), full_text) {
        Ok(als) => als,
        Err(_) => {
            return Err(
                UpdateError::InvalidAlignment(
                    String::from_str("alignment is undefined for empty text"),
                ),
            );
        },
    };

    if alignments.len() == 0 {
        return Err(UpdateError::NoAlignments);
    }
    let alignment = alignments.get(0);

    let before_len = ctxt.before().as_str().unicode_len();
    let topic_len = ctxt.topic().as_str().unicode_len();

    // Keep the cells where both sides contribute and the left side lies in
    // the topic, and take each one's position in the modified source.
    let mut source_indices: Vec<usize> = Vec::new();
    let mut k: usize = 0;
    while k < alignment.len()
        invariant
            k <= alignment@.len(),
            source_indices@ == spec_retained(
                alignment@.subrange(0, k as int),
                before_len as int,
                topic_len as int,
            ),
        decreases alignment@.len() - k,
    {
        let cell = alignment[k];
        match cell {
            AlignmentCell::Both { left, right } => {
                if left >= before_len && left - before_len < topic_len {
                    source_indices.push(right);
                }
            },
            _ => {},
        }
        proof {
            assert(alignment@.subrange(0, k + 1).drop_last() =~= alignment@.subrange(0, k as int));
            assert(alignment@.subrange(0, k + 1).last() == alignment@[k as int]);
            assert(source_indices@ =~= spec_retained(
                alignment@.subrange(0, k + 1),
                before_len as int,
                topic_len as int,
            ));
        }
        k = k + 1;
    }
    proof {
        assert(alignment@.subrange(0, alignment@.len() as int) =~= alignment@);
    }

    if source_indices.len() == 0 {
        return Err(
            UpdateError::InvalidAlignment(String::from_str("Can not match context to new source.")),
        );
    }

    // The topic's new offset is the smallest retained position; its new
    // width is the number of retained positions.
    let mut new_topic_offset = source_indices[0];
    let mut k: usize = 1;
    while k < source_indices.len()
        invariant
            1 <= k <= source_indices@.len(),
            new_topic_offset == spec_min_of(source_indices@.subrange(0, k as int)),
        decreases source_indices@.len() - k,
    {
        let v = source_indices[k];
        if v < new_topic_offset {
            new_topic_offset = v;
        }
        proof {
            assert(source_indices@.subrange(0, k + 1).drop_last() =~= source_indices@.subrange(
                0,
                k as int,
            ));
            assert(source_indices@.subrange(0, k + 1).last() == source_indices@[k as int]);
        }
        k = k + 1;
    }
    proof {
        assert(source_indices@.subrange(0, source_indices@.len() as int) =~= source_indices@);
    }

    let new_width = source_indices.len();
    match Context::from_text(full_text, new_topic_offset, new_width, ctxt.width()) {
        Err(e) => {
            match e {
                ContextError::DataError(msg) => Err(UpdateError::InvalidAlignment(msg)),
            }
        },
        Ok(context) => {
            match Anchor::new(
                anchor.file_path().as_str(),
                context,
                anchor.metadata().clone(),
                anchor.encoding().clone(),
            ) {
                Ok(a) => Ok(a),
                Err(msg) => Err(UpdateError::InvalidAlignment(msg)),
            }
        },
    }
}

/// The positions `lo..hi`, in ascending order.
pub open spec fn spec_range(lo: int, hi: int) -> Seq<usize>
    decreases hi - lo,
{
    if hi <= lo {
        Seq::<usize>::empty()
    } else {
        spec_range(lo, hi - 1).push(((hi - 1) as usize))
    }
}

proof fn lemma_range_len(lo: int, hi: int)
    requires
        0 <= lo,
    ensures
        spec_range(lo, hi).len() == if hi >= lo { hi - lo } else { 0 },
    decreases hi - lo,
{
    if hi > lo {
        lemma_range_len(lo, hi - 1);
    }
}

proof fn lemma_range_min(lo: int, hi: int)
    requires
        0 <= lo < hi <= usize::MAX,
    ensures
        spec_min_of(spec_range(lo, hi)) == lo,
    decreases hi - lo,
{
    lemma_range_len(lo, hi);
    let s = spec_range(lo, hi);
    if hi - 1 == lo {
        assert(s == spec_range(lo, lo).push((lo as usize)));
        assert(s[0] == (lo as usize));
    } else {
        lemma_range_min(lo, hi - 1);
        lemma_range_len(lo, hi - 1);
        assert(s.drop_last() =~= spec_range(lo, hi - 1));
        assert(s.last() == ((hi - 1) as usize));
    }
}

/// What the identity alignment retains of a topic window: exactly the
/// topic's own positions.
proof fn lemma_retained_identity(n: int, bl: int, tl: int)
    requires
        0 <= bl,
        0 <= tl,
        0 <= n <= usize::MAX,
    ensures
        spec_retained(spec_id_alignment(n), bl, tl) == spec_range(bl, min2(n, bl + tl)),
    decreases n,
{
    if n == 0 {
        assert(spec_id_alignment(0) == Seq::<AlignmentCell>::empty());
        assert(spec_retained(spec_id_alignment(0), bl, tl) == Seq::<usize>::empty());
        assert(spec_range(bl, min2(0, bl + tl)) == Seq::<usize>::empty());
    } else {
        lemma_retained_identity(n - 1, bl, tl);
        let al = spec_id_alignment(n);
        let cell = AlignmentCell::Both { left: ((n - 1) as usize), right: ((n - 1) as usize) };
        assert(al == spec_id_alignment(n - 1).push(cell));
        assert(al.drop_last() =~= spec_id_alignment(n - 1));
        assert(al.last() == cell);
        if bl <= n - 1 < bl + tl {
            assert(min2(n, bl + tl) == n);
            assert(min2(n - 1, bl + tl) == n - 1);
            assert(spec_retained(al, bl, tl) =~= spec_range(bl, n - 1).push(((n - 1) as usize)));
            assert(spec_range(bl, n) == spec_range(bl, n - 1).push(((n - 1) as usize)));
        } else {
            assert(spec_retained(al, bl, tl) =~= spec_retained(spec_id_alignment(n - 1), bl, tl));
            if n - 1 < bl {
                assert(min2(n, bl + tl) <= bl && min2(n - 1, bl + tl) <= bl);
                assert(spec_range(bl, min2(n, bl + tl)) == Seq::<usize>::empty());
                assert(spec_range(bl, min2(n - 1, bl + tl)) == Seq::<usize>::empty());
            } else {
                assert(min2(n, bl + tl) == bl + tl && min2(n - 1, bl + tl) == bl + tl);
            }
        }
    }
}

/// Relocation idempotence: where the file's current text is identical to
/// the stored context window -- so the stored `before` stretch is the whole
/// text ahead of the topic and the offset equals its length -- the
/// reference engine finds exactly one alignment, every topic position
/// survives, and the topic lands at its original offset with its original
/// text.  Through `update`'s contract, `update` on such a file returns an
/// anchor whose context offset and topic equal the original.
pub proof fn lemma_update_idempotent(ctx: Context, s: SimpleScorer)
    requires
        s.base_score > 0,
        0 <= s.base_gap_penalty,
        ctx.spec_topic().len() > 0,
        ctx.spec_offset() == ctx.spec_before().len(),
        ctx.spec_full_text().len() <= usize::MAX,
    ensures
        ({
            let b = ctx.spec_full_text();
            let als = spec_sw_alignments(&s, b, b);
            let ret = spec_retained(
                als[0],
                ctx.spec_before().len() as int,
                ctx.spec_topic().len() as int,
            );
            &&& als.len() == 1
            &&& ret.len() == ctx.spec_topic().len()
            &&& spec_min_of(ret) == ctx.spec_offset()
            &&& spec_min_of(ret) + ret.len() <= b.len()
            &&& b.subrange(spec_min_of(ret), spec_min_of(ret) + ret.len() as int)
                == ctx.spec_topic()
        }),
{
    let b = ctx.spec_full_text();
    let n = b.len() as int;
    let bl = ctx.spec_before().len() as int;
    let tl = ctx.spec_topic().len() as int;
    assert(n == bl + tl + ctx.spec_after().len());
    lemma_align_identity(s, b);
    let als = spec_sw_alignments(&s, b, b);
    assert(als[0] == spec_id_alignment(n));
    lemma_retained_identity(n, bl, tl);
    assert(min2(n, bl + tl) == bl + tl);
    lemma_range_len(bl, bl + tl);
    lemma_range_min(bl, bl + tl);
    let ret = spec_retained(als[0], bl, tl);
    assert(ret.len() == tl);
    assert(spec_min_of(ret) == bl);
    assert(b.subrange(bl, bl + tl) =~= ctx.spec_topic());
}

} // verus!
