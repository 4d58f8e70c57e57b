//! Text selection ranges and character/byte index conversion.
use vstd::prelude::*;
use vstd::utf8::{
    encode_scalar, encode_utf8, is_leading_byte_width_1, is_leading_byte_width_2,
    is_leading_byte_width_3, length_of_first_scalar,
};

verus! {

/// Character-index based single-line text selection.
#[derive(Debug, Clone, Copy, PartialEq, Eq, Structural)]
pub struct TextSelection {
    /// Fixed side of the selection drag.
    pub anchor: usize,
    /// Moving side of the selection drag.
    pub focus: usize,
}

impl TextSelection {
    /// Creates a selection from anchor and focus character indices.
    pub fn new(anchor: usize, focus: usize) -> (r: Self)
        ensures
            r == (TextSelection { anchor, focus }),
    {
        TextSelection { anchor, focus }
    }

    /// Returns `(start, end)` when the selection is non-empty: the smaller
    /// index first, whichever side of the drag it came from.
    pub fn normalized(self) -> (r: Option<(usize, usize)>)
        ensures
            self.anchor < self.focus ==> r == Some((self.anchor, self.focus)),
            self.focus < self.anchor ==> r == Some((self.focus, self.anchor)),
            self.anchor == self.focus ==> r is None,
    {
        if self.anchor < self.focus {
            Some((self.anchor, self.focus))
        } else if self.focus < self.anchor {
            Some((self.focus, self.anchor))
        } else {
            None
        }
    }
}

/// Encoding a concatenation encodes each part in turn.
pub proof fn lemma_encode_utf8_concat(a: Seq<char>, b: Seq<char>)
    ensures
        encode_utf8(a + b) == encode_utf8(a) + encode_utf8(b),
    decreases a.len(),
{
    if a.len() == 0 {
        assert(a + b =~= b);
        assert(encode_utf8(a) + encode_utf8(b) =~= encode_utf8(b));
    } else {
        assert((a + b).drop_first() =~= a.drop_first() + b);
        assert((a + b)[0] == a[0]);
        lemma_encode_utf8_concat(a.drop_first(), b);
        assert(encode_utf8(a + b) =~= encode_utf8(a) + encode_utf8(b));
    }
}

/// A non-empty character sequence has a non-empty encoding.
proof fn lemma_encode_utf8_nonempty(s: Seq<char>)
    requires
        s.len() > 0,
    ensures
        encode_utf8(s).len() > 0,
{
    assert(encode_scalar(s[0] as u32).len() >= 1);
}

/// The byte offset of character `char_index` in a string whose characters
/// are `chars`: the length of the encoding of the characters before it, or
/// of the whole string when the index is past its end.
pub open spec fn byte_offset(chars: Seq<char>, char_index: int) -> int {
    encode_utf8(chars.take(if char_index < chars.len() { char_index } else { chars.len() as int })).len() as int
}

/// Returns the byte offset of character `char_index` in `text`, or the
/// text's byte length when the index is past the last character.
pub fn char_index_to_byte(text: &str, char_index: usize) -> (r: usize)
    ensures
        r == byte_offset(text@, char_index as int),
{
    let bytes = text.as_bytes();
    let n = bytes.len();
    let ghost s = text@;
    let mut b: usize = 0;
    let mut k: usize = 0;
    proof {
        assert(s.take(0) =~= Seq::<char>::empty());
        assert(s.skip(0) =~= s);
        assert(bytes@.subrange(0, n as int) =~= bytes@);
    }
    while k < char_index && b < n
        invariant
            n == bytes@.len(),
            bytes@ == encode_utf8(s),
            k <= s.len(),
            k <= char_index,
            b <= n,
            b == encode_utf8(s.take(k as int)).len(),
            bytes@.subrange(b as int, n as int) == encode_utf8(s.skip(k as int)),
        decreases n - b,
    {
        let ghost rest = s.skip(k as int);
        proof {
            if rest.len() == 0 {
                assert(encode_utf8(rest).len() == 0);
                assert(false);
            }
            vstd::utf8::encode_utf8_first_scalar(rest);
            assert(rest[0] == s[k as int]);
            assert(encode_utf8(rest) =~= encode_scalar(s[k as int] as u32) + encode_utf8(rest.drop_first()));
            assert(rest.drop_first() =~= s.skip(k + 1));
            assert(encode_utf8(rest)[0] == bytes@[b as int]);
        }
        let lead = bytes[b];
        let w: usize = if 0x00 <= lead && lead <= 0x7f {
            1
        } else if 0xc0 <= lead && lead <= 0xdf {
            2
        } else if 0xe0 <= lead && lead <= 0xef {
            3
        } else {
            4
        };
        proof {
            let c = s[k as int];
            let e = encode_utf8(rest);
            let head = encode_scalar(c as u32);
            assert(w == length_of_first_scalar(e));
            assert(w == head.len());
            assert(s.take(k + 1) =~= s.take(k as int) + seq![c]);
            lemma_encode_utf8_concat(s.take(k as int), seq![c]);
            let one = seq![c];
            assert(one[0] == c);
            assert(one.drop_first() =~= Seq::<char>::empty());
            assert(encode_utf8(one.drop_first()) =~= Seq::<u8>::empty());
            assert(encode_utf8(one) =~= head);
            assert(e =~= head + encode_utf8(s.skip(k + 1)));
            assert(e.subrange(w as int, e.len() as int) =~= encode_utf8(s.skip(k + 1)));
            assert(bytes@.subrange((b + w) as int, n as int) =~= e.subrange(w as int, e.len() as int));
        }
        b = b + w;
        k = k + 1;
    }
    proof {
        if k < char_index {
            assert(b == n);
            if s.skip(k as int).len() > 0 {
                lemma_encode_utf8_nonempty(s.skip(k as int));
            }
            assert(k == s.len());
        }
    }
    b
}

} // verus!

verus! {

/// Whether two strings hold the same characters.
pub fn same_text(a: &str, b: &str) -> (r: bool)
    ensures
        r == (a@ == b@),
{
    let x = a.as_bytes();
    let y = b.as_bytes();
    proof {
        vstd::utf8::encode_utf8_decode_utf8(a@);
        vstd::utf8::encode_utf8_decode_utf8(b@);
    }
    if x.len() != y.len() {
        return false;
    }
    let n = x.len();
    let mut i: usize = 0;
    while i < n
        invariant
            n == x@.len(),
            n == y@.len(),
            x@ == encode_utf8(a@),
            y@ == encode_utf8(b@),
            i <= n,
            forall|j: int| 0 <= j < i ==> x@[j] == y@[j],
        decreases n - i,
    {
        if x[i] != y[i] {
            assert(x@[i as int] != y@[i as int]);
            assert(x@ != y@);
            return false;
        }
        i = i + 1;
    }
    proof {
        assert(x@ =~= y@);
    }
    true
}

/// Whether the UTF-8 bytes of `text` begin with those of `prefix`.
pub fn has_prefix(text: &str, prefix: &str) -> (r: bool)
    ensures
        r == (encode_utf8(prefix@).len() <= encode_utf8(text@).len() && encode_utf8(text@).take(
            encode_utf8(prefix@).len() as int,
        ) == encode_utf8(prefix@)),
{
    let x = text.as_bytes();
    let p = prefix.as_bytes();
    if p.len() > x.len() {
        return false;
    }
    let n = p.len();
    let mut i: usize = 0;
    while i < n
        invariant
            n == p@.len(),
            n <= x@.len(),
            x@ == encode_utf8(text@),
            p@ == encode_utf8(prefix@),
            i <= n,
            forall|j: int| 0 <= j < i ==> x@[j] == p@[j],
        decreases n - i,
    {
        if x[i] != p[i] {
            assert(x@.take(n as int)[i as int] != p@[i as int]);
            assert(x@.take(n as int) != p@);
            return false;
        }
        i = i + 1;
    }
    proof {
        assert(x@.take(n as int) =~= p@);
    }
    true
}

} // verus!

verus! {

/// The characters of `text`, in order.
pub fn chars_of(text: &str) -> (r: Vec<char>)
    ensures
        r@ == text@,
{
    broadcast use vstd::string::group_string_axioms;
    let mut out: Vec<char> = Vec::new();
    for c in it: text.chars()
        invariant
            out@ == it.seq().take(it.index() as int),
    {
        out.push(c);
    }
    out
}

} // verus!

verus! {

/// Byte offsets grow with the character index and never pass the text's
/// byte length; the offset just past the last character is that length.
pub proof fn lemma_byte_offset_monotone(s: Seq<char>, i: int, j: int)
    requires
        0 <= i <= j,
    ensures
        byte_offset(s, i) <= byte_offset(s, j) <= encode_utf8(s).len(),
        byte_offset(s, s.len() as int) == encode_utf8(s).len(),
{
    let a = if i < s.len() { i } else { s.len() as int };
    let b = if j < s.len() { j } else { s.len() as int };
    assert(s.take(b) =~= s.take(a) + s.subrange(a, b));
    lemma_encode_utf8_concat(s.take(a), s.subrange(a, b));
    assert(s =~= s.take(b) + s.skip(b));
    lemma_encode_utf8_concat(s.take(b), s.skip(b));
    assert(s.take(s.len() as int) =~= s);
}

} // verus!
