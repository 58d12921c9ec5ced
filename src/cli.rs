//! The scrolling output region of a terminal console: a buffer of the text
//! written to it that keeps only as many lines as the region shows.
use std::collections::VecDeque;
use vstd::prelude::*;

verus! {

/// The newline byte.
pub const NEWLINE: u8 = 10;

/// How many newlines `s` holds at or after index `i`.
pub open spec fn newlines_from(s: Seq<u8>, i: int) -> nat
    decreases s.len() - i,
{
    if i < 0 || i >= s.len() {
        0
    } else {
        newlines_from(s, i + 1) + if s[i] == NEWLINE {
            1nat
        } else {
            0nat
        }
    }
}

/// The text of a scrolling region of the terminal, from row `min`, `len`
/// rows high.
#[derive(Debug)]
pub struct ScrollBuf {
    min: u16,
    len: u16,
    buf: VecDeque<u8>,
    restore: bool,
}

impl ScrollBuf {
    pub closed spec fn min_spec(&self) -> u16 {
        self.min
    }

    pub closed spec fn len_spec(&self) -> u16 {
        self.len
    }

    /// The text written and not yet scrolled out.
    pub closed spec fn text(&self) -> Seq<u8> {
        self.buf@
    }

    /// Whether drawing the region saves and restores the cursor.
    pub closed spec fn restore_spec(&self) -> bool {
        self.restore
    }

    /// An empty region whose drawing keeps the cursor where it was.
    pub fn new(min: u16, len: u16) -> (r: ScrollBuf)
        ensures
            r.min_spec() == min,
            r.len_spec() == len,
            r.text() == Seq::<u8>::empty(),
            r.restore_spec(),
    {
        ScrollBuf { min, len, buf: VecDeque::new(), restore: true }
    }

    /// An empty region whose drawing leaves the cursor after the text.
    pub fn new_no_restore(min: u16, len: u16) -> (r: ScrollBuf)
        ensures
            r.min_spec() == min,
            r.len_spec() == len,
            r.text() == Seq::<u8>::empty(),
            !r.restore_spec(),
    {
        ScrollBuf { min, len, buf: VecDeque::new(), restore: false }
    }

    /// The text, to edit in place.
    pub fn buf(&mut self) -> (r: &mut VecDeque<u8>)
        ensures
            r@ == old(self).text(),
            final(self).text() == final(r)@,
            final(self).min_spec() == old(self).min_spec(),
            final(self).len_spec() == old(self).len_spec(),
            final(self).restore_spec() == old(self).restore_spec(),
    {
        &mut self.buf
    }

    pub fn restore(&self) -> (r: bool)
        ensures
            r == self.restore_spec(),
    {
        self.restore
    }

    pub fn min(&self) -> (r: u16)
        ensures
            r == self.min_spec(),
    {
        self.min
    }

    /// Drops the oldest text, so that no more than `len` newlines are left;
    /// what is left starts after a newline, or is all that was written.
    pub fn trim(&mut self)
        ensures
            final(self).min_spec() == old(self).min_spec(),
            final(self).len_spec() == old(self).len_spec(),
            final(self).restore_spec() == old(self).restore_spec(),
            exists|idx: int|
                {
                    &&& 0 <= idx <= old(self).text().len()
                    &&& final(self).text() == old(self).text().subrange(idx, old(self).text().len() as int)
                    &&& #[trigger] newlines_from(old(self).text(), idx) <= old(self).len_spec()
                    &&& idx > 0 ==> old(self).text()[idx - 1] == NEWLINE && newlines_from(
                        old(self).text(),
                        idx,
                    ) == old(self).len_spec()
                },
    {
        let ghost s = self.buf@;
        let n = self.buf.len();
        let mut line: u32 = 0;
        let mut idx: usize = 0;
        let mut i: usize = n;
        while i > 0 && idx == 0
            invariant
                self.buf@ == s,
                n == s.len(),
                i <= n,
                line == newlines_from(s, i as int),
                idx == 0 ==> line <= self.len,
                idx > 0 ==> idx == i + 1 && s[i as int] == NEWLINE && line == self.len + 1,
            decreases i,
        {
            i -= 1;
            if self.buf[i] == NEWLINE {
                line += 1;
            }
            if line > self.len as u32 {
                idx = i + 1;
            }
        }
        let tail = self.buf.split_off(idx);
        self.buf = tail;
        proof {
            if idx > 0 {
                assert(newlines_from(s, i as int) == newlines_from(s, idx as int) + 1);
            }
            assert(newlines_from(s, idx as int) <= old(self).len);
            assert(self.buf@ == s.subrange(idx as int, s.len() as int));
            assert(s == old(self).text());
            assert(newlines_from(old(self).text(), idx as int) <= old(self).len_spec());
        }
    }
}

/// A line editor on a scrolling region, with a prompt.
#[derive(Debug)]
pub struct LineReader {
    buf: ScrollBuf,
    prompt: &'static str,
}

impl LineReader {
    pub closed spec fn buf_spec(&self) -> ScrollBuf {
        self.buf
    }

    pub closed spec fn prompt_spec(&self) -> &'static str {
        self.prompt
    }

    /// A line editor on an empty region, whose drawing leaves the cursor
    /// after the text.
    pub fn new(prompt: &'static str, min: u16, len: u16) -> (r: LineReader)
        ensures
            r.prompt_spec() == prompt,
            r.buf_spec().min_spec() == min,
            r.buf_spec().len_spec() == len,
            r.buf_spec().text() == Seq::<u8>::empty(),
            !r.buf_spec().restore_spec(),
    {
        LineReader { buf: ScrollBuf::new_no_restore(min, len), prompt }
    }

    pub fn prompt(&self) -> (r: &'static str)
        ensures
            r == self.prompt_spec(),
    {
        self.prompt
    }

    /// The region the line is edited in.
    pub fn buf(&mut self) -> (r: &mut ScrollBuf)
        ensures
            *r == old(self).buf_spec(),
            final(self).buf_spec() == *final(r),
            final(self).prompt_spec() == old(self).prompt_spec(),
    {
        &mut self.buf
    }
}

} // verus!
