//! What compiled programs call back into: printing a string and comparing two
//! strings. Strings arrive as bytes ended by a NUL byte, as C strings do.
use vstd::prelude::*;

verus! {

/// The bytes of `s` before its first NUL byte.
pub open spec fn c_text(s: Seq<u8>) -> Seq<u8>
    decreases s.len(),
{
    if s.len() == 0 || s[0] == 0 {
        seq![]
    } else {
        seq![s[0]] + c_text(s.drop_first())
    }
}

/// `s` holds a NUL byte, which ends the string.
pub open spec fn has_nul(s: Seq<u8>) -> bool {
    exists|i: int| 0 <= i < s.len() && s[i] == 0
}

/// `b` continues a multi-byte UTF-8 sequence.
pub open spec fn continuation(b: u8) -> bool {
    0x80 <= b <= 0xBF
}

/// `s` is well-formed UTF-8 (RFC 3629): each character is one byte below
/// `0x80`, or a lead byte followed by the continuation bytes it calls for,
/// with no overlong form, no surrogate and nothing above `U+10FFFF`.
pub open spec fn utf8(s: Seq<u8>) -> bool
    decreases s.len(),
{
    if s.len() == 0 {
        true
    } else {
        let b = s[0];
        if b < 0x80 {
            utf8(s.skip(1))
        } else if 0xC2 <= b <= 0xDF {
            s.len() >= 2 && continuation(s[1]) && utf8(s.skip(2))
        } else if 0xE0 <= b <= 0xEF {
            &&& s.len() >= 3
            &&& if b == 0xE0 {
                0xA0 <= s[1] <= 0xBF
            } else if b == 0xED {
                0x80 <= s[1] <= 0x9F
            } else {
                continuation(s[1])
            }
            &&& continuation(s[2])
            &&& utf8(s.skip(3))
        } else if 0xF0 <= b <= 0xF4 {
            &&& s.len() >= 4
            &&& if b == 0xF0 {
                0x90 <= s[1] <= 0xBF
            } else if b == 0xF4 {
                0x80 <= s[1] <= 0x8F
            } else {
                continuation(s[1])
            }
            &&& continuation(s[2])
            &&& continuation(s[3])
            &&& utf8(s.skip(4))
        } else {
            false
        }
    }
}

/// The runtime that compiled code calls.
pub struct Runtime {}

/// The bytes of `s` before its first NUL, and where that NUL stands.
fn text_end(s: &[u8]) -> (n: usize)
    requires
        has_nul(s@),
    ensures
        n < s@.len(),
        s@[n as int] == 0,
        c_text(s@) == s@.take(n as int),
{
    let mut k: usize = 0;
    assert(s@.skip(0) =~= s@);
    assert(s@.take(0) + c_text(s@) =~= c_text(s@));
    while k < s.len()
        invariant
            0 <= k <= s@.len(),
            has_nul(s@),
            forall|j: int| 0 <= j < k ==> s@[j] != 0,
            c_text(s@) == s@.take(k as int) + c_text(s@.skip(k as int)),
        decreases s@.len() - k,
    {
        if s[k] == 0 {
            assert(c_text(s@.skip(k as int)) == Seq::<u8>::empty());
            assert(s@.take(k as int) + Seq::<u8>::empty() =~= s@.take(k as int));
            return k;
        }
        let ghost rest = s@.skip(k as int);
        assert(rest.drop_first() =~= s@.skip(k + 1));
        assert(s@.take(k + 1) =~= s@.take(k as int) + seq![s@[k as int]]);
        assert(s@.take(k as int) + (seq![rest[0]] + c_text(rest.drop_first())) =~= s@.take(k + 1)
            + c_text(s@.skip(k + 1)));
        k = k + 1;
    }
    let ghost i = choose|i: int| 0 <= i < s@.len() && s@[i] == 0;
    assert(s@[i] != 0);
    0
}

impl Runtime {
    pub fn new() -> (r: Runtime) {
        Runtime {  }
    }

    /// Whether the two C strings hold the same bytes.
    pub fn compare_str(&mut self, text1: &[u8], text2: &[u8]) -> (b: bool)
        requires
            has_nul(text1@),
            has_nul(text2@),
        ensures
            b == (c_text(text1@) == c_text(text2@)),
    {
        let n1 = text_end(text1);
        let n2 = text_end(text2);
        if n1 != n2 {
            assert(c_text(text1@).len() != c_text(text2@).len());
            return false;
        }
        let mut k: usize = 0;
        while k < n1
            invariant
                n1 == n2,
                n1 < text1@.len(),
                n2 < text2@.len(),
                c_text(text1@) == text1@.take(n1 as int),
                c_text(text2@) == text2@.take(n2 as int),
                0 <= k <= n1,
                forall|j: int| 0 <= j < k ==> text1@[j] == text2@[j],
            decreases n1 - k,
        {
            if text1[k] != text2[k] {
                assert(c_text(text1@)[k as int] != c_text(text2@)[k as int]);
                return false;
            }
            k = k + 1;
        }
        assert(c_text(text1@) =~= c_text(text2@));
        true
    }

    /// The bytes that printing the C string `text` writes: its text, which
    /// must be UTF-8, and a line feed.
    pub fn print(&mut self, text: &[u8]) -> (out: Vec<u8>)
        requires
            has_nul(text@),
            utf8(c_text(text@)),
        ensures
            out@ == c_text(text@).push(10u8),
    {
        let n = text_end(text);
        let mut out: Vec<u8> = Vec::new();
        let mut k: usize = 0;
        while k < n
            invariant
                0 <= k <= n,
                n < text@.len(),
                out@ == text@.take(k as int),
            decreases n - k,
        {
            out.push(text[k]);
            assert(out@ =~= text@.take(k + 1));
            k = k + 1;
        }
        out.push(10u8);
        out
    }
}

} // verus!
