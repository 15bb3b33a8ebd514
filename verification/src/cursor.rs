//! The tokens of a text, as mathematics: what a tokenizer has to return at
//! each place in a text, and what holds of the tokens it returns.

use vstd::prelude::*;

use crate::char_class::{class_of, CharClass};
use crate::encoding::{lemma_utf8_len_concat, utf8_len};
use crate::parse_error::ParseErrorView;

verus! {

/// The mathematical value of a [`Token`].
pub struct TokenView {
    pub index: nat,
    pub char_class: CharClass,
    pub value: Seq<char>,
}

/// What a tokenizer has still to read, and where in the text that begins.
pub struct Cursor {
    /// The offset in bytes of `remaining` in the text.
    pub position: nat,
    pub remaining: Seq<char>,
}

/// What one request to a tokenizer gives: a token, an error, or nothing at
/// the end of the text.
pub type Lexed = Option<Result<TokenView, ParseErrorView>>;

/// The cursor at the start of `text`.
pub open spec fn start_of(text: Seq<char>) -> Cursor {
    Cursor { position: 0, remaining: text }
}

/// The texts of `tokens`, joined in order.
pub open spec fn joined(tokens: Seq<TokenView>) -> Seq<char>
    decreases tokens.len(),
{
    if tokens.len() == 0 {
        Seq::empty()
    } else {
        tokens[0].value + joined(tokens.drop_first())
    }
}

/// Whether every character of `text` belongs to the alphabet of WKT.
pub open spec fn in_alphabet(text: Seq<char>) -> bool {
    forall|i: int| 0 <= i < text.len() ==> class_of(#[trigger] text[i]) is Some
}

/// The number of characters at the start of `text` that belong to the
/// alphabet: the place of the first that does not, or the length of `text`.
pub open spec fn alphabet_prefix_len(text: Seq<char>) -> nat
    decreases text.len(),
{
    if text.len() > 0 && class_of(text[0]) is Some {
        1 + alphabet_prefix_len(text.drop_first())
    } else {
        0
    }
}

/// Whether each of `tokens` starts where the text before it ends, the first
/// of them at `position`.
pub open spec fn contiguous(tokens: Seq<TokenView>, position: nat) -> bool {
    forall|i: int|
        0 <= i < tokens.len() ==> (#[trigger] tokens[i]).index == position + utf8_len(
            joined(tokens.take(i)),
        )
}

/// Whether each of `tokens` is a run that cannot be extended: not empty, of
/// one class throughout, and of another class than the token after it.
pub open spec fn maximal_runs(tokens: Seq<TokenView>) -> bool {
    &&& forall|i: int|
        0 <= i < tokens.len() ==> (#[trigger] tokens[i]).value.len() > 0
    &&& forall|i: int, j: int|
        0 <= i < tokens.len() && 0 <= j < tokens[i].value.len() ==> class_of(
            #[trigger] tokens[i].value[j],
        ) == Some(tokens[i].char_class)
    &&& forall|i: int, j: int|
        0 <= i && j == i + 1 && j < tokens.len() ==> (#[trigger] tokens[i]).char_class != (
        #[trigger] tokens[j]).char_class
}

/// The number of characters at the start of `s` that have class `class`.
pub open spec fn run_len(s: Seq<char>, class: CharClass) -> nat
    decreases s.len(),
{
    if s.len() > 0 && class_of(s[0]) == Some(class) {
        1 + run_len(s.drop_first(), class)
    } else {
        0
    }
}

impl Cursor {
    /// The cursor past `token`.
    pub open spec fn after(self, token: TokenView) -> Cursor {
        Cursor {
            position: self.position + utf8_len(token.value),
            remaining: self.remaining.skip(token.value.len() as int),
        }
    }

    /// Whether the cursor stands in `text`: what remains is the end of
    /// `text`, and the position is the length in bytes of what comes before
    /// it.
    pub open spec fn lies_in(self, text: Seq<char>) -> bool {
        exists|read: int|
            0 <= read <= text.len() && self.remaining == text.skip(read) && self.position
                == utf8_len(#[trigger] text.take(read))
    }

    /// The first token. The run that starts the remaining text is scanned up
    /// to and including the character that ends it; a character outside the
    /// alphabet among those scanned is an error, and at the end of the text
    /// there is no token.
    pub open spec fn first_token(self) -> Lexed {
        let s = self.remaining;
        if s.len() == 0 {
            None
        } else {
            match class_of(s[0]) {
                None => Some(Err(ParseErrorView::InvalidCharClass(s[0]))),
                Some(class) => {
                    let n = run_len(s, class) as int;
                    if n < s.len() && class_of(s[n]) is None {
                        Some(Err(ParseErrorView::InvalidCharClass(s[n])))
                    } else {
                        Some(
                            Ok(
                                TokenView {
                                    index: self.position,
                                    char_class: class,
                                    value: s.take(n),
                                },
                            ),
                        )
                    }
                },
            }
        }
    }

    /// The cursor after one request: past the token, or unmoved where there
    /// was none.
    pub open spec fn after_first_token(self) -> Cursor {
        match self.first_token() {
            Some(Ok(token)) => self.after(token),
            _ => self,
        }
    }

    /// The cursor past the whitespace that the remaining text starts with,
    /// where a token of whitespace is to be had there.
    pub open spec fn past_whitespace(self) -> Cursor {
        match self.first_token() {
            Some(Ok(token)) => if token.char_class == CharClass::Whitespace {
                self.after(token)
            } else {
                self
            },
            _ => self,
        }
    }

    /// The first token that is not whitespace, an error, or nothing at the
    /// end of the text.
    pub open spec fn first_significant(self) -> Lexed {
        self.past_whitespace().first_token()
    }

    /// The cursor after a request for a token that is not whitespace.
    pub open spec fn after_first_significant(self) -> Cursor {
        self.past_whitespace().after_first_token()
    }

    /// The cursor after `count` requests for a token that is not
    /// whitespace.
    pub open spec fn after_significant(self, count: nat) -> Cursor
        decreases count,
    {
        if count == 0 {
            self
        } else {
            self.after_significant((count - 1) as nat).after_first_significant()
        }
    }

    /// Whether requests for a token that is not whitespace give `tokens`,
    /// one after the other.
    pub open spec fn gives(self, tokens: Seq<TokenView>) -> bool {
        forall|i: int|
            0 <= i < tokens.len() ==> self.after_significant(i as nat).first_significant()
                == Some(Ok::<TokenView, ParseErrorView>(#[trigger] tokens[i]))
    }

    /// All the tokens from here to the end of the text, or the first error.
    pub open spec fn all_tokens(self) -> Result<Seq<TokenView>, ParseErrorView>
        decreases self.remaining.len(),
        via Self::all_tokens_terminates
    {
        match self.first_token() {
            None => Ok(Seq::empty()),
            Some(Err(e)) => Err(e),
            Some(Ok(token)) => match self.after(token).all_tokens() {
                Ok(tokens) => Ok(seq![token] + tokens),
                Err(e) => Err(e),
            },
        }
    }

    #[via_fn]
    proof fn all_tokens_terminates(self) {
        lemma_first_token_is_run(self);
    }
}

/// `n` characters of class `class` followed by the end of `s` or by a
/// character of another class are the run that starts `s`.
pub proof fn lemma_run_len_is(s: Seq<char>, class: CharClass, n: int)
    requires
        0 <= n <= s.len(),
        forall|i: int| 0 <= i < n ==> class_of(#[trigger] s[i]) == Some(class),
        n < s.len() ==> class_of(s[n]) != Some(class),
    ensures
        run_len(s, class) == n,
    decreases n,
{
    if n > 0 {
        let t = s.drop_first();
        lemma_run_len_is(t, class, n - 1);
    }
}

/// The run that starts `s` lies within `s`, holds only characters of its
/// class, and cannot be extended.
pub proof fn lemma_run_len_bounds(s: Seq<char>, class: CharClass)
    ensures
        run_len(s, class) <= s.len(),
        forall|i: int| 0 <= i < run_len(s, class) ==> class_of(#[trigger] s[i]) == Some(class),
        run_len(s, class) < s.len() ==> class_of(s[run_len(s, class) as int]) != Some(class),
    decreases s.len(),
{
    if s.len() > 0 && class_of(s[0]) == Some(class) {
        let t = s.drop_first();
        lemma_run_len_bounds(t, class);
        assert forall|i: int| 0 <= i < run_len(s, class) implies class_of(#[trigger] s[i])
            == Some(class) by {
            if i > 0 {
                assert(s[i] == t[i - 1]);
            }
        }
    }
}

/// A token is the run that starts the remaining text: it begins at the
/// cursor, is not empty, and all its characters have its class.
pub proof fn lemma_first_token_is_run(cursor: Cursor)
    ensures
        cursor.first_token() matches Some(Ok(token)) ==> {
            &&& token.index == cursor.position
            &&& 0 < token.value.len() <= cursor.remaining.len()
            &&& token.value == cursor.remaining.take(token.value.len() as int)
            &&& token.value.len() == run_len(cursor.remaining, token.char_class)
            &&& forall|i: int|
                0 <= i < token.value.len() ==> class_of(#[trigger] token.value[i]) == Some(
                    token.char_class,
                )
        },
{
    if let Some(Ok(token)) = cursor.first_token() {
        lemma_run_len_bounds(cursor.remaining, token.char_class);
    }
}

/// A tokenizer only moves forward, and its position stays the offset in
/// bytes of what remains: a cursor that stands in a text stands in it after
/// a request, no earlier than before, and a token's text is the text at
/// the token's offset.
pub proof fn lemma_cursor_stays_in_text(cursor: Cursor, text: Seq<char>)
    requires
        cursor.lies_in(text),
    ensures
        cursor.after_first_token().lies_in(text),
        cursor.after_first_token().position >= cursor.position,
        cursor.after_first_significant().lies_in(text),
        cursor.after_first_significant().position >= cursor.position,
        cursor.first_token() matches Some(Ok(token)) ==> (Cursor {
            position: token.index,
            remaining: token.value + cursor.after_first_token().remaining,
        }).lies_in(text),
{
    lemma_step_stays_in_text(cursor, text);
    lemma_step_stays_in_text(cursor.past_whitespace(), text);
}

/// One request leaves the cursor in the text.
proof fn lemma_step_stays_in_text(cursor: Cursor, text: Seq<char>)
    requires
        cursor.lies_in(text),
    ensures
        cursor.after_first_token().lies_in(text),
        cursor.after_first_token().position >= cursor.position,
        cursor.first_token() matches Some(Ok(token)) ==> (Cursor {
            position: token.index,
            remaining: token.value + cursor.after_first_token().remaining,
        }).lies_in(text),
{
    if let Some(Ok(token)) = cursor.first_token() {
        lemma_first_token_is_run(cursor);
        let read = choose|read: int|
            0 <= read <= text.len() && cursor.remaining == text.skip(read) && cursor.position
                == utf8_len(#[trigger] text.take(read));
        let n = token.value.len() as int;
        assert(text.take(read + n) =~= text.take(read) + token.value);
        lemma_utf8_len_concat(text.take(read), token.value);
        assert(text.skip(read).skip(n) =~= text.skip(read + n));
        assert(token.value + cursor.after_first_token().remaining =~= cursor.remaining);
    }
}

/// A run cannot be extended, so the token after a token has another class.
pub proof fn lemma_next_token_differs(cursor: Cursor)
    ensures
        cursor.first_token() matches Some(Ok(token)) ==> (cursor.after(
            token,
        ).first_token() matches Some(Ok(next)) ==> next.char_class != token.char_class),
{
    if let Some(Ok(token)) = cursor.first_token() {
        lemma_run_len_bounds(cursor.remaining, token.char_class);
    }
}

/// A request for a token that is not whitespace never gives whitespace.
pub proof fn lemma_first_significant_is_not_whitespace(cursor: Cursor)
    ensures
        cursor.first_significant() matches Some(Ok(token)) ==> token.char_class
            != CharClass::Whitespace,
{
    lemma_next_token_differs(cursor);
}

/// `n` characters of the alphabet followed by the end of `text` or by a
/// character outside it are the part of `text` before the first such
/// character.
pub proof fn lemma_alphabet_prefix_len_is(text: Seq<char>, n: int)
    requires
        0 <= n <= text.len(),
        forall|i: int| 0 <= i < n ==> class_of(#[trigger] text[i]) is Some,
        n < text.len() ==> class_of(text[n]) is None,
    ensures
        alphabet_prefix_len(text) == n,
    decreases n,
{
    if n > 0 {
        let t = text.drop_first();
        lemma_alphabet_prefix_len_is(t, n - 1);
    }
}

/// The characters before the first one outside the alphabet belong to it,
/// and text is within the alphabet when there is no such character.
pub proof fn lemma_alphabet_prefix_len_bounds(text: Seq<char>)
    ensures
        alphabet_prefix_len(text) <= text.len(),
        forall|i: int|
            0 <= i < alphabet_prefix_len(text) ==> class_of(#[trigger] text[i]) is Some,
        alphabet_prefix_len(text) < text.len() ==> class_of(
            text[alphabet_prefix_len(text) as int],
        ) is None,
        in_alphabet(text) <==> alphabet_prefix_len(text) == text.len(),
    decreases text.len(),
{
    if text.len() > 0 && class_of(text[0]) is Some {
        let t = text.drop_first();
        lemma_alphabet_prefix_len_bounds(t);
        assert forall|i: int| 0 <= i < alphabet_prefix_len(text) implies class_of(
            #[trigger] text[i],
        ) is Some by {
            if i > 0 {
                assert(text[i] == t[i - 1]);
            }
        }
    }
}

/// Splitting text into tokens succeeds exactly on text within the alphabet;
/// on other text the error carries the first character outside it.
pub proof fn lemma_all_tokens_result(cursor: Cursor)
    ensures
        cursor.all_tokens() is Ok <==> in_alphabet(cursor.remaining),
        cursor.all_tokens() matches Err(e) ==> e == ParseErrorView::InvalidCharClass(
            cursor.remaining[alphabet_prefix_len(cursor.remaining) as int],
        ),
    decreases cursor.remaining.len(),
{
    let s = cursor.remaining;
    match cursor.first_token() {
        None => {},
        Some(Err(e)) => {
            if class_of(s[0]) is Some {
                let class = class_of(s[0])->0;
                lemma_run_len_bounds(s, class);
                lemma_alphabet_prefix_len_is(s, run_len(s, class) as int);
            }
        },
        Some(Ok(token)) => {
            lemma_first_token_is_run(cursor);
            let n = token.value.len() as int;
            let next = cursor.after(token);
            let t = next.remaining;
            lemma_all_tokens_result(next);
            lemma_alphabet_prefix_len_bounds(t);
            let m = alphabet_prefix_len(t) as int;
            assert forall|i: int| 0 <= i < n + m implies class_of(#[trigger] s[i]) is Some by {
                if i < n {
                    assert(s[i] == token.value[i]);
                } else {
                    assert(s[i] == t[i - n]);
                }
            }
            lemma_alphabet_prefix_len_is(s, n + m);
        },
    }
}

/// The texts of the tokens of a text, joined in order, are that text.
pub proof fn lemma_all_tokens_joined(cursor: Cursor)
    ensures
        cursor.all_tokens() matches Ok(tokens) ==> joined(tokens) == cursor.remaining,
    decreases cursor.remaining.len(),
{
    if let Some(Ok(token)) = cursor.first_token() {
        lemma_first_token_is_run(cursor);
        let next = cursor.after(token);
        lemma_all_tokens_joined(next);
        if let Ok(tokens) = next.all_tokens() {
            let all = seq![token] + tokens;
            assert(all.drop_first() =~= tokens);
        }
    }
}

/// The tokens of a text lie one after the other in it, without gaps and
/// without overlaps.
pub proof fn lemma_all_tokens_contiguous(cursor: Cursor)
    ensures
        cursor.all_tokens() matches Ok(tokens) ==> contiguous(tokens, cursor.position),
    decreases cursor.remaining.len(),
{
    if let Some(Ok(token)) = cursor.first_token() {
        lemma_first_token_is_run(cursor);
        let next = cursor.after(token);
        lemma_all_tokens_contiguous(next);
        if let Ok(tokens) = next.all_tokens() {
            let all = seq![token] + tokens;
            assert forall|i: int| 0 <= i < all.len() implies (#[trigger] all[i]).index
                == cursor.position + utf8_len(joined(all.take(i))) by {
                if i > 0 {
                    assert(all.take(i).drop_first() =~= tokens.take(i - 1));
                    lemma_utf8_len_concat(token.value, joined(tokens.take(i - 1)));
                }
            }
        }
    }
}

/// The tokens of a text are runs that cannot be extended.
pub proof fn lemma_all_tokens_maximal(cursor: Cursor)
    ensures
        cursor.all_tokens() matches Ok(tokens) ==> maximal_runs(tokens),
    decreases cursor.remaining.len(),
{
    if let Some(Ok(token)) = cursor.first_token() {
        lemma_first_token_is_run(cursor);
        lemma_next_token_differs(cursor);
        lemma_all_tokens_maximal(cursor.after(token));
    }
}

/// Text within the alphabet is split into tokens without error; the tokens
/// partition it, and their texts, joined in order, are the text again.
pub proof fn lemma_tokens_rebuild_text(text: Seq<char>)
    requires
        in_alphabet(text),
    ensures
        start_of(text).all_tokens() matches Ok(tokens) && joined(tokens) == text && contiguous(
            tokens,
            0,
        ) && maximal_runs(tokens),
{
    let cursor = start_of(text);
    lemma_all_tokens_result(cursor);
    lemma_all_tokens_joined(cursor);
    lemma_all_tokens_contiguous(cursor);
    lemma_all_tokens_maximal(cursor);
}

} // verus!
