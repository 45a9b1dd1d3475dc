//! The context of a topic: the topic substring together with bounded
//! stretches of the text before and after it.

use vstd::prelude::*;

verus! {

/// Failure to build a context from a text.
#[derive(Debug)]
pub enum ContextError {
    DataError(String),
}

/// An immutable window into a text: a topic substring, the text just
/// before and after it, the topic's offset in the text, and the context
/// width to use when the window is re-derived later.
///
/// All offsets and lengths count characters, not bytes.
#[derive(Clone, Debug)]
pub struct Context {
    before: String,
    offset: usize,
    topic: String,
    after: String,
    width: usize,
}

/// Where the stretch before a topic at `offset` starts, for a context
/// width of `context_width`: `context_width` characters back, bounded by
/// the start of the text.
pub open spec fn spec_before_start(offset: int, context_width: int) -> int {
    if context_width <= offset {
        offset - context_width
    } else {
        0
    }
}

/// Where the stretch after a topic ends, for a context width of
/// `context_width`: `context_width` characters past the topic's end,
/// bounded by the end of the text.
pub open spec fn spec_after_end(text_len: int, topic_end: int, context_width: int) -> int {
    if topic_end + context_width <= text_len {
        topic_end + context_width
    } else {
        text_len
    }
}

impl Context {
    pub closed spec fn spec_before(&self) -> Seq<char> {
        self.before@
    }

    pub closed spec fn spec_offset(&self) -> int {
        self.offset as int
    }

    pub closed spec fn spec_topic(&self) -> Seq<char> {
        self.topic@
    }

    pub closed spec fn spec_after(&self) -> Seq<char> {
        self.after@
    }

    pub closed spec fn spec_width(&self) -> int {
        self.width as int
    }

    /// The concatenated text the window covers.
    pub open spec fn spec_full_text(&self) -> Seq<char> {
        self.spec_before() + self.spec_topic() + self.spec_after()
    }

    pub fn new(before: &str, offset: usize, topic: &str, after: &str, width: usize) -> (c: Context)
        ensures
            c.spec_before() == before@,
            c.spec_offset() == offset,
            c.spec_topic() == topic@,
            c.spec_after() == after@,
            c.spec_width() == width,
    {
        Context {
            before: before.to_owned(),
            offset,
            topic: topic.to_owned(),
            after: after.to_owned(),
            width,
        }
    }

    /// Build the context of the topic of `width` characters at `offset` in
    /// `text`, keeping up to `context_width` characters on either side.
    ///
    /// Fails exactly when the topic itself cannot be read whole, that is
    /// when `offset + width` runs past the end of `text`; the before and
    /// after stretches are simply truncated at the text's boundaries.
    pub fn from_text(text: &str, offset: usize, width: usize, context_width: usize) -> (r: Result<
        Context,
        ContextError,
    >)
        ensures
            r is Ok <==> offset + width <= text@.len(),
            match r {
                Ok(c) => {
                    &&& c.spec_offset() == offset
                    &&& c.spec_width() == context_width
                    &&& c.spec_topic() == text@.subrange(offset as int, offset + width)
                    &&& c.spec_before() == text@.subrange(
                        spec_before_start(offset as int, context_width as int),
                        offset as int,
                    )
                    &&& c.spec_after() == text@.subrange(
                        offset + width,
                        spec_after_end(text@.len() as int, offset + width, context_width as int),
                    )
                },
                Err(e) => e is DataError,
            },
    {
        let n = text.unicode_len();
        if offset > n || width > n - offset {
            return Err(ContextError::DataError(String::from_str("Unable to read topic")));
        }

        let topic = text.substring_char(offset, offset + width);

        let before_offset = if context_width <= offset {
            offset - context_width
        } else {
            0
        };
        let before = text.substring_char(before_offset, offset);

        let after_offset = offset + width;
        let after_width = if context_width <= n - after_offset {
            context_width
        } else {
            n - after_offset
        };
        let after = text.substring_char(after_offset, after_offset + after_width);

        Ok(Context::new(before, offset, topic, after, context_width))
    }

    pub fn before(&self) -> (r: &String)
        ensures
            r@ == self.spec_before(),
    {
        &self.before
    }

    pub fn offset(&self) -> (r: usize)
        ensures
            r == self.spec_offset(),
    {
        self.offset
    }

    pub fn topic(&self) -> (r: &String)
        ensures
            r@ == self.spec_topic(),
    {
        &self.topic
    }

    pub fn after(&self) -> (r: &String)
        ensures
            r@ == self.spec_after(),
    {
        &self.after
    }

    pub fn width(&self) -> (r: usize)
        ensures
            r == self.spec_width(),
    {
        self.width
    }

    pub fn full_text(&self) -> (r: String)
        ensures
            r@ == self.spec_full_text(),
    {
        let mut s = String::new();
        s.append(self.before.as_str());
        s.append(self.topic.as_str());
        s.append(self.after.as_str());
        s
    }
}

} // verus!
