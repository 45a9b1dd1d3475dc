//! Check to see if and how an anchored file has changed since an anchor
//! was created.

use vstd::prelude::*;

use crate::anchor::check_path::spec_path_is_absolute;
use crate::anchor::context::{spec_after_end, spec_before_start};
use crate::anchor::{Anchor, Context, ContextError};

verus! {

/// Failure to diff an anchor against its file.
#[derive(Debug)]
pub enum DiffError {
    InvalidAnchor(String),
}

/// One line of a line diff: present only on the left side, on both sides,
/// or only on the right side.
pub enum DiffLine {
    Left(String),
    Both(String, String),
    Right(String),
}

/// The line diff of two texts, as the `diff` crate computes it.
pub uninterp spec fn line_diff_of(a: Seq<char>, b: Seq<char>) -> Seq<DiffLine>;

/// Relies on diff's `lines`: the computed line diff depends on the two
/// texts alone.
#[verifier::external_body]
fn diff_lines(a: &str, b: &str) -> (r: Vec<DiffLine>)
    ensures
        r@ == line_diff_of(a@, b@),
{
    diff::lines(a, b)
        .into_iter()
        .map(|d| match d {
            diff::Result::Left(l) => DiffLine::Left(l.to_string()),
            diff::Result::Both(l, r) => DiffLine::Both(l.to_string(), r.to_string()),
            diff::Result::Right(r) => DiffLine::Right(r.to_string()),
        })
        .collect()
}

/// How one diff line is rendered: the left text after `-` where it is
/// gone, after a space where it stayed, and the right text after `+`
/// where it is new.
pub open spec fn spec_diff_text(d: DiffLine) -> Seq<char> {
    match d {
        DiffLine::Left(l) => "-"@ + l@,
        DiffLine::Both(l, _) => " "@ + l@,
        DiffLine::Right(r) => "+"@ + r@,
    }
}

/// The full text that a context rebuilt from `text` at the same topic
/// offset and length, with context width `w`, covers.
pub open spec fn spec_rebuilt_full_text(text: Seq<char>, off: int, topic_len: int, w: int) -> Seq<
    char,
> {
    text.subrange(spec_before_start(off, w), off) + text.subrange(off, off + topic_len)
        + text.subrange(off + topic_len, spec_after_end(text.len() as int, off + topic_len, w))
}

/// Get the difference between an existing anchor and an anchor built
/// against the current state of its file.
///
/// `full_text` is the file's current text, read by the caller.  The first
/// element of the returned pair indicates whether any changes were found;
/// the second is the rendered line diff between the stored context window
/// and the window rebuilt from the current text (it may have contents even
/// if there is no actual difference).  Fails when a context of the same
/// shape can no longer be read at the anchor's offset, or when the anchor
/// itself does not validate.
pub fn get_anchor_diff(anchor: &Anchor, full_text: &str) -> (r: Result<
    (bool, Vec<String>),
    DiffError,
>)
    ensures
        ({
            let ctx = anchor.spec_context();
            let d = line_diff_of(
                ctx.spec_full_text(),
                spec_rebuilt_full_text(
                    full_text@,
                    ctx.spec_offset(),
                    ctx.spec_topic().len() as int,
                    ctx.spec_width(),
                ),
            );
            &&& (r is Ok <==> (ctx.spec_offset() + ctx.spec_topic().len() <= full_text@.len()
                && spec_path_is_absolute(anchor.spec_file_path())))
            &&& match r {
                Ok((changed, lines)) => {
                    &&& changed == exists|x: int| 0 <= x < d.len() && !((#[trigger] d[x]) is Both)
                    &&& lines@.len() == d.len()
                    &&& forall|x: int| 0 <= x < d.len() ==> (#[trigger] lines@[x])@ == spec_diff_text(d[x])
                },
                Err(_) => true,
            }
        }),
{
    let ctx_offset = anchor.context().offset();
    let ctx_topic_len = anchor.context().topic().as_str().unicode_len();

    let context = match Context::from_text(
        full_text,
        ctx_offset,
        ctx_topic_len,
        anchor.context().width(),
    ) {
        Ok(c) => c,
        Err(e) => {
            return Err(
                match e {
                    ContextError::DataError(msg) => DiffError::InvalidAnchor(msg),
                },
            );
        },
    };

    let new_anchor = match Anchor::new(
        anchor.file_path().as_str(),
        context,
        anchor.metadata().clone(),
        anchor.encoding().clone(),
    ) {
        Ok(a) => a,
        Err(msg) => {
            return Err(DiffError::InvalidAnchor(msg));
        },
    };

    let old_full = anchor.context().full_text();
    let new_full = new_anchor.context().full_text();
    let diff = diff_lines(old_full.as_str(), new_full.as_str());
    let ghost dseq = diff@;

    let mut changed = false;
    let mut diff_strings: Vec<String> = Vec::new();
    let mut k: usize = 0;
    while k < diff.len()
        invariant
            k <= dseq.len(),
            diff@ == dseq,
            changed == exists|x: int| 0 <= x < k && !((#[trigger] dseq[x]) is Both),
            diff_strings@.len() == k,
            forall|x: int|
                0 <= x < k ==> (#[trigger] diff_strings@[x])@ == spec_diff_text(dseq[x]),
        decreases dseq.len() - k,
    {
        match &diff[k] {
            DiffLine::Left(l) => {
                let mut s = String::from_str("-");
                s.append(l.as_str());
                diff_strings.push(s);
                changed = true;
            },
            DiffLine::Both(l, _) => {
                let mut s = String::from_str(" ");
                s.append(l.as_str());
                diff_strings.push(s);
            },
            DiffLine::Right(r) => {
                let mut s = String::from_str("+");
                s.append(r.as_str());
                diff_strings.push(s);
                changed = true;
            },
        }
        k = k + 1;
    }

    Ok((changed, diff_strings))
}

} // verus!

