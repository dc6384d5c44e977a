//! Text helpers shared by the command parsers.
use vstd::prelude::*;
use vstd::string::StringSliceAdditionalSpecFns;

verus! {

broadcast use vstd::utf8::encode_utf8_decode_utf8;

/// Whether `a` and `b` hold the same characters (compared byte by byte).
pub fn str_eq(a: &str, b: &str) -> (r: bool)
    ensures
        r == (a@ == b@),
{
    let x = a.as_bytes();
    let y = b.as_bytes();
    proof {
        assert(vstd::utf8::decode_utf8(a.spec_bytes()) == a@);
        assert(vstd::utf8::decode_utf8(b.spec_bytes()) == b@);
    }
    if x.len() != y.len() {
        return false;
    }
    let mut i: usize = 0;
    while i < x.len()
        invariant
            x@ == a.spec_bytes(),
            y@ == b.spec_bytes(),
            x@.len() == y@.len(),
            i <= x@.len(),
            forall|j: int| 0 <= j < i ==> x@[j] == y@[j],
        decreases x@.len() - i,
    {
        if x[i] != y[i] {
            proof {
                if a@ == b@ {
                    assert(a.spec_bytes() == b.spec_bytes());
                    assert(x@[i as int] == y@[i as int]);
                }
            }
            return false;
        }
        i = i + 1;
    }
    assert(x@ =~= y@);
    true
}

/// `core::str::from_utf8`: the bytes `v` as a string slice when they are
/// well-formed UTF-8 (no overlong forms, no surrogates, nothing above
/// U+10FFFF), else `None`.  The slice holds exactly the bytes of `v`.
#[verifier::external_body]
pub(crate) fn str_from_utf8(v: &[u8]) -> (r: Option<&str>)
    ensures
        r is Some <==> vstd::utf8::valid_utf8(v@),
        r matches Some(s) ==> s.spec_bytes() == v@,
{
    core::str::from_utf8(v).ok()
}

/// The characters of a string are recovered from its bytes.
pub proof fn lemma_chars_of_bytes(s: &str, chars: Seq<char>)
    requires
        s.spec_bytes() == vstd::utf8::encode_utf8(chars),
    ensures
        s@ == chars,
{
    assert(vstd::utf8::decode_utf8(vstd::utf8::encode_utf8(s@)) == s@);
    assert(vstd::utf8::decode_utf8(vstd::utf8::encode_utf8(chars)) == chars);
}

} // verus!
