//! Splits text into tokens: maximal runs of characters of one class.

use vstd::prelude::*;
use vstd::string::*;
use vstd::std_specs::iter::IteratorSpec;

use crate::char_class::{class_of, CharClass};
use crate::cursor::{
    contiguous, in_alphabet, joined, lemma_all_tokens_contiguous, lemma_all_tokens_joined,
    lemma_all_tokens_maximal, lemma_all_tokens_result, lemma_first_token_is_run,
    lemma_next_token_differs, lemma_run_len_is, maximal_runs, run_len, start_of, Cursor, Lexed,
    TokenView,
};
use crate::encoding::{
    char_utf8_len, lemma_utf8_len_concat, lemma_utf8_len_push, split_prefix, str_utf8_len,
    utf8_len,
};
use crate::parse_error::{ParseErrorView, ParseResult};

verus! {

/// A maximal run of characters of one class.
#[derive(Debug, PartialEq)]
pub struct Token<'s> {
    /// The offset in bytes at which the token starts.
    pub index: usize,
    pub char_class: CharClass,
    pub value: &'s str,
}

impl<'s> View for Token<'s> {
    type V = TokenView;

    open spec fn view(&self) -> TokenView {
        TokenView { index: self.index as nat, char_class: self.char_class, value: self.value@ }
    }
}

/// The mathematical value of what a request to a tokenizer returned.
pub open spec fn lexed_view(r: Option<ParseResult<Token<'_>>>) -> Lexed {
    match r {
        None => None,
        Some(Ok(token)) => Some(Ok(token@)),
        Some(Err(e)) => Some(Err(e@)),
    }
}

/// Splits text into tokens, one request at a time.
pub struct Tokenizer<'s> {
    rest: &'s str,
    index: usize,
}

impl<'s> View for Tokenizer<'s> {
    type V = Cursor;

    closed spec fn view(&self) -> Cursor {
        Cursor { position: self.index as nat, remaining: self.rest@ }
    }
}

impl<'s> Tokenizer<'s> {
    #[verifier::type_invariant]
    spec fn end_in_bounds(self) -> bool {
        self.index + utf8_len(self.rest@) <= usize::MAX
    }

    /// A tokenizer at the start of `text`.
    pub fn new(text: &'s str) -> (tokenizer: Self)
        ensures
            tokenizer@ == start_of(text@),
    {
        // The length of the text fits in `usize`, and so does every offset
        // into it.
        let _ = str_utf8_len(text);
        Tokenizer { rest: text, index: 0 }
    }

    /// The offset in bytes of the text that is still to be read.
    pub fn index(&self) -> (index: usize)
        ensures
            index == self@.position,
    {
        self.index
    }

    /// The next token, an error, or `None` at the end of the text. Only a
    /// token moves the tokenizer on.
    pub fn next(&mut self) -> (r: Option<ParseResult<Token<'s>>>)
        ensures
            lexed_view(r) == old(self)@.first_token(),
            final(self)@ == old(self)@.after_first_token(),
    {
        proof {
            use_type_invariant(&*self);
        }
        let rest = self.rest;
        let ghost s = rest@;
        let mut chars = rest.chars();
        let mut current: Option<CharClass> = None;
        let mut width: usize = 0;
        let ghost mut count: int = 0;
        loop
            invariant_except_break
                chars.remaining() == s.skip(count),
            invariant
                *self == *old(self),
                s == self@.remaining,
                0 <= count <= s.len(),
                width == utf8_len(s.take(count)),
                utf8_len(s) <= usize::MAX,
                current is None ==> count == 0,
                current is Some ==> count > 0,
                current matches Some(class) ==> forall|i: int|
                    0 <= i < count ==> class_of(#[trigger] s[i]) == Some(class),
            ensures
                0 <= count <= s.len(),
                width == utf8_len(s.take(count)),
                match current {
                    None => s.len() == 0,
                    Some(class) => run_len(s, class) == count && count > 0 && class_of(s[0])
                        == Some(class) && !(count < s.len() && class_of(s[count]) is None),
                },
            decreases s.len() - count,
        {
            let next = chars.next();
            match next {
                None => {
                    proof {
                        if let Some(class) = current {
                            lemma_run_len_is(s, class, count);
                        }
                    }
                    break ;
                },
                Some(c) => {
                    let next_class = match CharClass::of(c) {
                        Err(e) => {
                            proof {
                                if let Some(class) = current {
                                    lemma_run_len_is(s, class, count);
                                }
                            }
                            return Some(Err(e));
                        },
                        Ok(next_class) => next_class,
                    };
                    let extends = match current {
                        None => true,
                        Some(class) => class == next_class,
                    };
                    if !extends {
                        proof {
                            lemma_run_len_is(s, current->0, count);
                        }
                        break ;
                    }
                    proof {
                        assert(s.take(count + 1) =~= s.take(count).push(c));
                        lemma_utf8_len_push(s.take(count), c);
                        assert(s.take(count + 1) + s.skip(count + 1) =~= s);
                        lemma_utf8_len_concat(s.take(count + 1), s.skip(count + 1));
                        count = count + 1;
                    }
                    current = Some(next_class);
                    width = width + char_utf8_len(c);
                },
            }
        }
        match current {
            None => None,
            Some(char_class) => {
                let (value, rest) = split_prefix(rest, Ghost(count), width);
                let index = self.index;
                proof {
                    assert(s.take(count) + s.skip(count) =~= s);
                    lemma_utf8_len_concat(s.take(count), s.skip(count));
                }
                self.rest = rest;
                self.index = index + width;
                Some(Ok(Token { index, char_class, value }))
            },
        }
    }

    /// The next token that is not whitespace, an error, or `None` at the end
    /// of the text. Whitespace before it is passed over.
    pub fn next_non_whitespace(&mut self) -> (r: Option<ParseResult<Token<'s>>>)
        ensures
            lexed_view(r) == old(self)@.first_significant(),
            final(self)@ == old(self)@.after_first_significant(),
            r matches Some(Ok(token)) ==> token.char_class != CharClass::Whitespace,
    {
        loop
            invariant
                self@ == old(self)@ || (self@ == old(self)@.past_whitespace() && self@
                    != old(self)@),
            decreases self@.remaining.len(),
        {
            let ghost before = self@;
            let result = self.next();
            proof {
                lemma_first_token_is_run(before);
                lemma_next_token_differs(old(self)@);
            }
            match result {
                Some(Ok(token)) => {
                    if token.char_class != CharClass::Whitespace {
                        return Some(Ok(token));
                    }
                },
                other => {
                    return other;
                },
            }
        }
    }
}

/// Splits `text` into all its tokens, or fails on the first character
/// outside the alphabet.
pub fn tokenize<'s>(text: &'s str) -> (r: ParseResult<Vec<Token<'s>>>)
    ensures
        match r {
            Ok(tokens) => start_of(text@).all_tokens() == Ok::<Seq<TokenView>, ParseErrorView>(
                token_views(tokens@),
            ),
            Err(e) => start_of(text@).all_tokens() == Err::<Seq<TokenView>, ParseErrorView>(e@),
        },
        r is Ok <==> in_alphabet(text@),
        r matches Ok(tokens) ==> joined(token_views(tokens@)) == text@ && contiguous(
            token_views(tokens@),
            0,
        ) && maximal_runs(token_views(tokens@)),
{
    let mut tokenizer = Tokenizer::new(text);
    let mut tokens: Vec<Token<'s>> = Vec::new();
    proof {
        lemma_all_tokens_result(start_of(text@));
        lemma_all_tokens_joined(start_of(text@));
        lemma_all_tokens_contiguous(start_of(text@));
        lemma_all_tokens_maximal(start_of(text@));
    }
    loop
        invariant
            start_of(text@).all_tokens() == prepend(token_views(tokens@), tokenizer@.all_tokens()),
            start_of(text@).all_tokens() is Ok <==> in_alphabet(text@),
            start_of(text@).all_tokens() matches Ok(all) ==> joined(all) == text@ && contiguous(
                all,
                0,
            ) && maximal_runs(all),
        decreases tokenizer@.remaining.len(),
    {
        let ghost before = tokenizer@;
        let ghost views = token_views(tokens@);
        proof {
            lemma_first_token_is_run(before);
        }
        match tokenizer.next() {
            None => {
                return Ok(tokens);
            },
            Some(Err(e)) => {
                return Err(e);
            },
            Some(Ok(token)) => {
                proof {
                    assert(token_views(tokens@.push(token)) =~= views.push(token@));
                    if let Ok(rest) = tokenizer@.all_tokens() {
                        assert(views + (seq![token@] + rest) =~= views.push(token@) + rest);
                    }
                }
                tokens.push(token);
            },
        }
    }
}

/// The mathematical values of `tokens`.
pub open spec fn token_views(tokens: Seq<Token<'_>>) -> Seq<TokenView> {
    tokens.map_values(|token: Token<'_>| token@)
}

/// `tokens` before the tokens of `rest`, or the error of `rest`.
pub open spec fn prepend(
    tokens: Seq<TokenView>,
    rest: Result<Seq<TokenView>, ParseErrorView>,
) -> Result<Seq<TokenView>, ParseErrorView> {
    match rest {
        Ok(more) => Ok(tokens + more),
        Err(e) => Err(e),
    }
}

} // verus!
