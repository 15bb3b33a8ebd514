//! Keywords of WKT, which are read without regard to case.

use vstd::prelude::*;
use vstd::string::*;
use vstd::std_specs::iter::IteratorSpec;

verus! {

/// The lower-case form of an ASCII capital letter; any other character
/// unchanged.
pub open spec fn lower(c: char) -> char {
    if 'A' <= c && c <= 'Z' {
        ((c as u8) + 32) as char
    } else {
        c
    }
}

/// `word` with its ASCII capital letters in lower case.
pub open spec fn lowercase(word: Seq<char>) -> Seq<char> {
    word.map_values(|c: char| lower(c))
}

/// Whether `word` is `keyword` but for the case of its letters. `keyword`
/// is written in lower case.
pub open spec fn is_keyword(word: Seq<char>, keyword: Seq<char>) -> bool {
    lowercase(word) == keyword
}

/// The lower-case form of an ASCII capital letter; any other character
/// unchanged.
pub fn to_lower(c: char) -> (l: char)
    ensures
        l == lower(c),
{
    if c >= 'A' && c <= 'Z' {
        ((c as u8) + 32) as char
    } else {
        c
    }
}

/// Whether `word` is `keyword` but for the case of its letters.
pub fn matches_keyword(word: &str, keyword: &str) -> (r: bool)
    ensures
        r == is_keyword(word@, keyword@),
{
    let mut left = word.chars();
    let mut right = keyword.chars();
    let ghost mut count: int = 0;
    loop
        invariant
            0 <= count <= word@.len(),
            count <= keyword@.len(),
            left.remaining() == word@.skip(count),
            right.remaining() == keyword@.skip(count),
            lowercase(word@).take(count) == keyword@.take(count),
        decreases word@.len() - count,
    {
        match left.next() {
            None => {
                let end = right.next();
                proof {
                    assert(lowercase(word@).take(count) =~= lowercase(word@));
                    if end is None {
                        assert(keyword@.take(count) =~= keyword@);
                    }
                }
                return end.is_none();
            },
            Some(c) => {
                match right.next() {
                    None => {
                        return false;
                    },
                    Some(k) => {
                        if to_lower(c) != k {
                            return false;
                        }
                        proof {
                            count = count + 1;
                        }
                    },
                }
            },
        }
    }
}

} // verus!
