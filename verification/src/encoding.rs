//! Byte offsets into text. Offsets are counted in bytes of the text's UTF-8
//! encoding, the unit in which `str` is sliced.

use vstd::prelude::*;
use vstd::utf8::*;
use vstd::string::*;

verus! {

/// The number of bytes that `c` takes in UTF-8.
pub open spec fn char_len(c: char) -> nat {
    encode_scalar(c as u32).len()
}

/// The number of bytes that `s` takes in UTF-8.
pub open spec fn utf8_len(s: Seq<char>) -> nat {
    encode_utf8(s).len()
}

/// The encoding of a concatenation is the concatenation of the encodings.
pub proof fn lemma_encode_concat(a: Seq<char>, b: Seq<char>)
    ensures
        encode_utf8(a + b) == encode_utf8(a) + encode_utf8(b),
    decreases a.len(),
{
    if a.len() > 0 {
        lemma_encode_concat(a.drop_first(), b);
        assert((a + b).drop_first() =~= a.drop_first() + b);
    }
}

/// Lengths in bytes add up over concatenation.
pub proof fn lemma_utf8_len_concat(a: Seq<char>, b: Seq<char>)
    ensures
        utf8_len(a + b) == utf8_len(a) + utf8_len(b),
{
    lemma_encode_concat(a, b);
}

/// Pushing one character adds its length in bytes.
pub proof fn lemma_utf8_len_push(s: Seq<char>, c: char)
    ensures
        utf8_len(s.push(c)) == utf8_len(s) + char_len(c),
{
    lemma_encode_concat(s, seq![c]);
    assert(s.push(c) =~= s + seq![c]);
    assert(encode_utf8(seq![c]) =~= encode_scalar(c as u32)) by {
        reveal_with_fuel(encode_utf8, 2);
    }
}

/// The end of a prefix of `s` lies on a character boundary of its encoding.
pub proof fn lemma_prefix_is_boundary(s: Seq<char>, k: int)
    requires
        0 <= k <= s.len(),
    ensures
        is_char_boundary(encode_utf8(s), utf8_len(s.take(k)) as int),
        utf8_len(s.take(k)) <= utf8_len(s),
    decreases k,
{
    let bytes = encode_utf8(s);
    encode_utf8_valid_utf8(s);
    if k > 0 {
        encode_utf8_first_scalar(s);
        assert(pop_first_scalar(bytes) =~= encode_utf8(s.drop_first()));
        assert(s.take(k).drop_first() =~= s.drop_first().take(k - 1));
        lemma_prefix_is_boundary(s.drop_first(), k - 1);
    }
}

/// The number of bytes that `c` takes in UTF-8.
pub fn char_utf8_len(c: char) -> (n: usize)
    ensures
        n == char_len(c),
        1 <= n <= 4,
{
    let v: u32 = c as u32;
    if v < 0x80 {
        1
    } else if v < 0x800 {
        2
    } else if v < 0x10000 {
        3
    } else {
        4
    }
}

/// The number of bytes that `s` takes in UTF-8.
pub fn str_utf8_len(s: &str) -> (n: usize)
    ensures
        n == utf8_len(s@),
{
    let bytes = s.as_bytes();
    proof {
        vstd::slice::axiom_spec_len(bytes);
    }
    bytes.len()
}

/// Splits `s` after its first `count` characters, which take `width` bytes.
pub(crate) fn split_prefix<'a>(s: &'a str, Ghost(count): Ghost<int>, width: usize) -> (r: (
    &'a str,
    &'a str,
))
    requires
        0 <= count <= s@.len(),
        width == utf8_len(s@.take(count)),
    ensures
        r.0@ == s@.take(count),
        r.1@ == s@.skip(count),
{
    proof {
        lemma_prefix_is_boundary(s@, count);
    }
    let r = s.split_at(width);
    proof {
        let head = s@.take(count);
        let tail = s@.skip(count);
        assert(head + tail =~= s@);
        lemma_encode_concat(head, tail);
        assert(encode_utf8(s@).subrange(0, width as int) =~= encode_utf8(head));
        assert(encode_utf8(s@).subrange(width as int, encode_utf8(s@).len() as int)
            =~= encode_utf8(tail));
        encode_utf8_decode_utf8(r.0@);
        encode_utf8_decode_utf8(r.1@);
        encode_utf8_decode_utf8(head);
        encode_utf8_decode_utf8(tail);
    }
    r
}

} // verus!
