//! Interactive line editing.
use vstd::prelude::*;
use crate::text::str_from_utf8;

verus! {

/// Capacity of the line buffer in bytes.
pub const LINE_CAPACITY: usize = 256;

/// Line editor state: a fixed buffer and the cursor, which is also the
/// length of the line.
pub struct LineEditor {
    buffer: [u8; 256],
    pos: usize,
}

impl LineEditor {
    /// The whole buffer, including bytes past the cursor.
    pub closed spec fn buffer(&self) -> Seq<u8> {
        self.buffer@
    }

    /// The cursor position.
    pub closed spec fn cursor(&self) -> nat {
        self.pos as nat
    }

    /// The cursor lies within the buffer.
    pub open spec fn wf(&self) -> bool {
        self.buffer().len() == LINE_CAPACITY && self.cursor() <= LINE_CAPACITY
    }

    /// The line typed so far.
    pub open spec fn line(&self) -> Seq<u8> {
        self.buffer().take(self.cursor() as int)
    }

    /// An empty line over a zeroed buffer.
    pub fn new() -> (r: Self)
        ensures
            r.wf(),
            r.cursor() == 0,
            r.buffer() == Seq::new(256, |i: int| 0u8),
    {
        let r = LineEditor { buffer: [0u8; 256], pos: 0 };
        assert(r.buffer@ =~= Seq::new(256, |i: int| 0u8));
        r
    }

    /// Append `ch` at the cursor; ignored when the buffer is full.
    pub fn insert(&mut self, ch: u8)
        requires
            old(self).wf(),
        ensures
            final(self).wf(),
            old(self).cursor() < LINE_CAPACITY ==> final(self).buffer() == old(self).buffer().update(
                old(self).cursor() as int,
                ch,
            ) && final(self).cursor() == old(self).cursor() + 1,
            old(self).cursor() >= LINE_CAPACITY ==> *final(self) == *old(self),
    {
        if self.pos < LINE_CAPACITY {
            self.buffer[self.pos] = ch;
            self.pos = self.pos + 1;
        }
    }

    /// Delete the byte before the cursor, clearing its slot; ignored on an
    /// empty line.
    pub fn backspace(&mut self)
        requires
            old(self).wf(),
        ensures
            final(self).wf(),
            old(self).cursor() > 0 ==> final(self).cursor() == old(self).cursor() - 1
                && final(self).buffer() == old(self).buffer().update(old(self).cursor() - 1, 0u8),
            old(self).cursor() == 0 ==> *final(self) == *old(self),
    {
        if self.pos > 0 {
            self.pos = self.pos - 1;
            self.buffer[self.pos] = 0;
        }
    }

    /// Empty the line; the buffer keeps its bytes.
    pub fn clear(&mut self)
        ensures
            final(self).cursor() == 0,
            final(self).buffer() == old(self).buffer(),
    {
        self.pos = 0;
    }

    /// The line as a string slice; the bytes typed must form UTF-8.
    pub fn as_str(&self) -> (r: &str)
        requires
            self.wf(),
            vstd::utf8::valid_utf8(self.line()),
        ensures
            vstd::string::StringSliceAdditionalSpecFns::spec_bytes(r) == self.line(),
    {
        let line = vstd::slice::slice_subrange(self.buffer.as_slice(), 0, self.pos);
        assert(line@ =~= self.line());
        match str_from_utf8(line) {
            Some(s) => s,
            None => {
                assert(false);
                ""
            },
        }
    }
}

/// Read a line from the user after showing `prompt`.  Keyboard input is
/// not wired up yet, so the line is empty.
pub fn read_line(_prompt: &str) -> (r: LineEditor)
    ensures
        r.wf(),
        r.cursor() == 0,
        r.buffer() == Seq::new(256, |i: int| 0u8),
{
    LineEditor::new()
}


/// Typing a byte and deleting it again leaves the line as it was.  `e1`
/// is the editor after `insert` on `e0` (not full), `e2` after `backspace`
/// on `e1`.
pub proof fn law_backspace_undoes_insert(e0: LineEditor, e1: LineEditor, e2: LineEditor, ch: u8)
    requires
        e0.wf(),
        e0.cursor() < LINE_CAPACITY,
        e1.buffer() == e0.buffer().update(e0.cursor() as int, ch),
        e1.cursor() == e0.cursor() + 1,
        e2.cursor() == e1.cursor() - 1,
        e2.buffer() == e1.buffer().update(e1.cursor() - 1, 0u8),
    ensures
        e2.cursor() == e0.cursor(),
        e2.line() == e0.line(),
{
    assert(e2.line() =~= e0.line());
}

} // verus!
