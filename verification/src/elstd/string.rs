//! UTF-8 strings.
use vstd::prelude::*;
use vstd::string::StringSliceAdditionalSpecFns;
use vstd::utf8::{encode_scalar, encode_utf8};
use crate::text::{lemma_chars_of_bytes, str_from_utf8};

verus! {

broadcast use vstd::utf8::encode_utf8_valid_utf8;

/// Encoding a concatenation encodes each part in turn.
pub proof fn lemma_encode_utf8_concat(a: Seq<char>, b: Seq<char>)
    ensures
        encode_utf8(a + b) == encode_utf8(a) + encode_utf8(b),
    decreases a.len(),
{
    if a.len() == 0 {
        assert(a + b =~= b);
        assert(encode_utf8(a) + encode_utf8(b) =~= encode_utf8(b));
    } else {
        assert((a + b).drop_first() =~= a.drop_first() + b);
        lemma_encode_utf8_concat(a.drop_first(), b);
        assert((a + b)[0] == a[0]);
        assert(encode_utf8(a + b) =~= encode_utf8(a) + encode_utf8(b));
    }
}

/// Encoding one character gives its scalar encoding.
proof fn lemma_encode_utf8_single(c: char)
    ensures
        encode_utf8(seq![c]) == encode_scalar(c as u32),
{
    assert(seq![c].drop_first() =~= Seq::<char>::empty());
    assert(encode_utf8(Seq::<char>::empty()) == Seq::<u8>::empty());
    assert(seq![c][0] == c);
    assert(encode_utf8(seq![c]) =~= encode_scalar(c as u32));
}

/// The UTF-8 bytes of `c`, one to four of them.
pub fn encode_char(c: char) -> (r: Vec<u8>)
    ensures
        r@ == encode_scalar(c as u32),
{
    let v = c as u32;
    proof {
        vstd::utf8::char_is_scalar(c);
    }
    let mut out: Vec<u8> = Vec::new();
    if v <= 0x7F {
        out.push((v & 0x7F) as u8);
    } else if v <= 0x7FF {
        out.push(0xC0 | ((v >> 6) & 0x1F) as u8);
        out.push(0x80 | (v & 0x3F) as u8);
    } else if v <= 0xFFFF {
        out.push(0xE0 | ((v >> 12) & 0x0F) as u8);
        out.push(0x80 | ((v >> 6) & 0x3F) as u8);
        out.push(0x80 | (v & 0x3F) as u8);
    } else {
        out.push(0xF0 | ((v >> 18) & 0x7) as u8);
        out.push(0x80 | ((v >> 12) & 0x3F) as u8);
        out.push(0x80 | ((v >> 6) & 0x3F) as u8);
        out.push(0x80 | (v & 0x3F) as u8);
    }
    assert(out@ =~= encode_scalar(v));
    out
}

/// A growable UTF-8 string.
pub struct ElString {
    bytes: Vec<u8>,
    chars: Ghost<Seq<char>>,
}

impl View for ElString {
    type V = Seq<char>;

    /// The characters of the string.
    closed spec fn view(&self) -> Seq<char> {
        self.chars@
    }
}

impl ElString {
    /// The stored bytes are the UTF-8 encoding of the characters.
    pub closed spec fn wf(&self) -> bool {
        self.bytes@ == encode_utf8(self.chars@)
    }

    /// An empty string.
    pub fn new() -> (r: Self)
        ensures
            r.wf(),
            r@ == Seq::<char>::empty(),
    {
        ElString { bytes: Vec::new(), chars: Ghost(Seq::empty()) }
    }

    /// A copy of `s`.
    pub fn from_str(s: &str) -> (r: Self)
        ensures
            r.wf(),
            r@ == s@,
    {
        let b = s.as_bytes();
        ElString { bytes: vstd::slice::slice_to_vec(b), chars: Ghost(s@) }
    }

    /// The string as a string slice.
    pub fn as_str(&self) -> (r: &str)
        requires
            self.wf(),
        ensures
            r@ == self@,
    {
        proof {
            assert(vstd::utf8::valid_utf8(encode_utf8(self.chars@)));
        }
        match str_from_utf8(self.bytes.as_slice()) {
            Some(s) => {
                proof {
                    lemma_chars_of_bytes(s, self.chars@);
                }
                s
            },
            None => {
                assert(false);
                ""
            },
        }
    }

    /// Append the character `ch`.
    pub fn push(&mut self, ch: char)
        requires
            old(self).wf(),
        ensures
            final(self).wf(),
            final(self)@ == old(self)@.push(ch),
    {
        let enc = encode_char(ch);
        let mut i: usize = 0;
        let ghost start = self.bytes@;
        while i < enc.len()
            invariant
                i <= enc@.len(),
                self.bytes@ == start + enc@.take(i as int),
                self.chars == old(self).chars,
                start == old(self).bytes@,
            decreases enc@.len() - i,
        {
            self.bytes.push(enc[i]);
            i = i + 1;
            assert(self.bytes@ =~= start + enc@.take(i as int));
        }
        proof {
            assert(enc@.take(enc@.len() as int) =~= enc@);
            lemma_encode_utf8_concat(self.chars@, seq![ch]);
            lemma_encode_utf8_single(ch);
        }
        self.chars = Ghost(self.chars@.push(ch));
        assert(self.chars@ =~= old(self).chars@ + seq![ch]);
    }

    /// Append the characters of `s`.
    pub fn push_str(&mut self, s: &str)
        requires
            old(self).wf(),
        ensures
            final(self).wf(),
            final(self)@ == old(self)@ + s@,
    {
        let b = s.as_bytes();
        let mut i: usize = 0;
        let ghost start = self.bytes@;
        while i < b.len()
            invariant
                b@ == s.spec_bytes(),
                i <= b@.len(),
                self.bytes@ == start + b@.take(i as int),
                self.chars == old(self).chars,
                start == old(self).bytes@,
            decreases b@.len() - i,
        {
            self.bytes.push(b[i]);
            i = i + 1;
            assert(self.bytes@ =~= start + b@.take(i as int));
        }
        proof {
            assert(b@.take(b@.len() as int) =~= b@);
            lemma_encode_utf8_concat(self.chars@, s@);
        }
        self.chars = Ghost(self.chars@ + s@);
    }

    /// Length in bytes of the UTF-8 encoding.
    pub fn len(&self) -> (r: usize)
        requires
            self.wf(),
        ensures
            r == encode_utf8(self@).len(),
    {
        self.bytes.len()
    }

    /// Whether the string has no characters.
    pub fn is_empty(&self) -> (r: bool)
        requires
            self.wf(),
        ensures
            r == (self@.len() == 0),
    {
        proof {
            if self.chars@.len() > 0 {
                assert(encode_scalar(self.chars@[0] as u32).len() > 0);
            }
        }
        self.bytes.len() == 0
    }
}

impl Default for ElString {
    /// An empty string.
    fn default() -> (r: Self)
        ensures
            r.wf(),
            r@ == Seq::<char>::empty(),
    {
        ElString::new()
    }
}

} // verus!
