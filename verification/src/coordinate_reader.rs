//! Reads one coordinate group: `EMPTY`, or pairs of numbers in parentheses,
//! the pairs separated by commas.
//!
//! The reader goes by the class of each token. A token is a run of
//! characters of one class, so a run of parentheses or of commas counts as
//! one.

use vstd::prelude::*;

use crate::char_class::CharClass;
use crate::cursor::{lemma_first_token_is_run, Cursor, TokenView};
use crate::keyword::{is_keyword, matches_keyword};
use crate::ordinate::{is_number, Ordinate, OrdinateView};
use crate::parse_error::{ParseError, ParseErrorView, ParseResult};
use crate::tokenizer::{Token, Tokenizer};

verus! {

/// How far a coordinate group has been read.
#[derive(Debug, PartialEq, Eq, Structural, Copy, Clone)]
pub enum CoordinateState {
    /// Nothing has been read.
    Start,
    /// The first number of a pair, or the end of an empty group, comes
    /// next.
    ReadingFirstCooordinate,
    /// The second number of a pair comes next.
    ReadingNextCoordinate,
    /// A pair is complete.
    FinishedCoordinate,
    /// The group is complete.
    Finished,
}

/// The state that `token` leads to from `state`, or `None` where the token
/// cannot stand there. `read_any` tells whether a number has been read.
pub open spec fn next_state(state: CoordinateState, read_any: bool, token: TokenView) -> Option<
    CoordinateState,
> {
    match token.char_class {
        CharClass::LeftParen => if state == CoordinateState::Start {
            Some(CoordinateState::ReadingFirstCooordinate)
        } else {
            None
        },
        CharClass::RightParen => if state == CoordinateState::FinishedCoordinate || (state
            == CoordinateState::ReadingFirstCooordinate && !read_any) {
            Some(CoordinateState::Finished)
        } else {
            None
        },
        CharClass::Character => if state == CoordinateState::Start && is_keyword(
            token.value,
            "empty"@,
        ) {
            Some(CoordinateState::Finished)
        } else {
            None
        },
        CharClass::Digit => if !is_number(token.value) {
            None
        } else if state == CoordinateState::ReadingFirstCooordinate {
            Some(CoordinateState::ReadingNextCoordinate)
        } else if state == CoordinateState::ReadingNextCoordinate {
            Some(CoordinateState::FinishedCoordinate)
        } else {
            None
        },
        CharClass::Comma => if state == CoordinateState::FinishedCoordinate {
            Some(CoordinateState::ReadingFirstCooordinate)
        } else {
            None
        },
        CharClass::Whitespace => None,
    }
}

/// The mathematical value of a [`CoordinateReader`].
pub struct ReaderView {
    pub state: CoordinateState,
    /// The numbers read so far.
    pub coordinates: Seq<OrdinateView>,
    /// What the tokenizer has still to read.
    pub cursor: Cursor,
}

/// A reader after some reading, with the error that stopped it, if any.
pub struct Outcome {
    pub reader: ReaderView,
    pub error: Option<ParseErrorView>,
}

impl ReaderView {
    /// The reader before anything is read.
    pub open spec fn start(cursor: Cursor) -> ReaderView {
        ReaderView { state: CoordinateState::Start, coordinates: Seq::empty(), cursor }
    }

    /// Whether the numbers read so far fit the state: they come in pairs,
    /// and only while the second of a pair is awaited is one left over.
    pub open spec fn paired(self) -> bool {
        match self.state {
            CoordinateState::Start => self.coordinates.len() == 0,
            CoordinateState::ReadingFirstCooordinate => self.coordinates.len() % 2 == 0,
            CoordinateState::ReadingNextCoordinate => self.coordinates.len() % 2 == 1,
            CoordinateState::FinishedCoordinate => self.coordinates.len() % 2 == 0
                && self.coordinates.len() > 0,
            CoordinateState::Finished => self.coordinates.len() % 2 == 0,
        }
    }

    /// The reader after `token`, which has been taken from the tokenizer.
    pub open spec fn accept(self, token: TokenView) -> Outcome {
        let cursor = self.cursor.after_first_significant();
        match next_state(self.state, self.coordinates.len() > 0, token) {
            None => Outcome {
                reader: ReaderView { cursor, ..self },
                error: Some(ParseErrorView::InvalidToken(token.index, token.value)),
            },
            Some(state) => Outcome {
                reader: ReaderView {
                    state,
                    coordinates: if token.char_class == CharClass::Digit {
                        self.coordinates.push(
                            OrdinateView { index: token.index, text: token.value },
                        )
                    } else {
                        self.coordinates
                    },
                    cursor,
                },
                error: None,
            },
        }
    }

    /// One step: the next token that is not whitespace is taken from the
    /// tokenizer and moves the reader on, or is an error. So is the end of
    /// the text, with the offset of that end.
    pub open spec fn step(self) -> Outcome {
        let cursor = self.cursor.after_first_significant();
        match self.cursor.first_significant() {
            None => Outcome {
                reader: ReaderView { cursor, ..self },
                error: Some(ParseErrorView::EmptyCoordinateSequence(cursor.position)),
            },
            Some(Err(e)) => Outcome { reader: ReaderView { cursor, ..self }, error: Some(e) },
            Some(Ok(token)) => self.accept(token),
        }
    }

    /// Steps until the group is complete or a step fails.
    pub open spec fn run(self) -> Outcome
        decreases self.cursor.remaining.len(),
        via Self::run_terminates
    {
        if self.state == CoordinateState::Finished {
            Outcome { reader: self, error: None }
        } else {
            let next = self.step();
            if next.error is Some {
                next
            } else {
                next.reader.run()
            }
        }
    }

    #[via_fn]
    proof fn run_terminates(self) {
        lemma_step_moves_on(self);
    }
}

/// A step that succeeds takes text from the tokenizer.
pub proof fn lemma_step_moves_on(reader: ReaderView)
    ensures
        reader.step().error is None ==> reader.step().reader.cursor.remaining.len()
            < reader.cursor.remaining.len(),
{
    let skipped = reader.cursor.past_whitespace();
    lemma_first_token_is_run(reader.cursor);
    lemma_first_token_is_run(skipped);
}

/// The numbers of a reader come in pairs, whatever it reads.
pub proof fn lemma_step_keeps_pairs(reader: ReaderView)
    requires
        reader.paired(),
    ensures
        reader.step().reader.paired(),
{
}

/// A reader that has run to the end of a group holds whole pairs.
pub proof fn lemma_run_keeps_pairs(reader: ReaderView)
    requires
        reader.paired(),
    ensures
        reader.run().reader.paired(),
        reader.run().error is None ==> reader.run().reader.state == CoordinateState::Finished
            && reader.run().reader.coordinates.len() % 2 == 0,
    decreases reader.cursor.remaining.len(),
{
    if reader.state != CoordinateState::Finished {
        let next = reader.step();
        lemma_step_keeps_pairs(reader);
        if next.error is None {
            lemma_step_moves_on(reader);
            lemma_run_keeps_pairs(next.reader);
        }
    }
}

/// The mathematical value of the result of reading.
pub open spec fn error_view(r: ParseResult<()>) -> Option<ParseErrorView> {
    match r {
        Ok(_) => None,
        Err(e) => Some(e@),
    }
}

/// The mathematical values of `ordinates`.
pub open spec fn ordinate_views(ordinates: Seq<Ordinate<'_>>) -> Seq<OrdinateView> {
    ordinates.map_values(|ordinate: Ordinate<'_>| ordinate@)
}

/// Reads one coordinate group from a tokenizer that it borrows.
pub struct CoordinateReader<'t, 's> {
    coordinates: Vec<Ordinate<'s>>,
    tokenizer: &'t mut Tokenizer<'s>,
    state: CoordinateState,
}

impl<'t, 's> View for CoordinateReader<'t, 's> {
    type V = ReaderView;

    closed spec fn view(&self) -> ReaderView {
        ReaderView {
            state: self.state,
            coordinates: ordinate_views(self.coordinates@),
            cursor: (*self.tokenizer)@,
        }
    }
}

impl<'t, 's> CoordinateReader<'t, 's> {
    /// The tokenizer that the reader borrows.
    pub closed spec fn tokenizer(&self) -> &'t mut Tokenizer<'s> {
        self.tokenizer
    }

    /// A reader that has read nothing. The tokenizer is the reader's until
    /// the reader is dropped.
    pub fn new(tokenizer: &'t mut Tokenizer<'s>) -> (reader: Self)
        ensures
            reader@ == ReaderView::start(old(tokenizer)@),
            *final(tokenizer) == *final(reader.tokenizer()),
    {
        let reader = CoordinateReader {
            coordinates: Vec::new(),
            tokenizer,
            state: CoordinateState::Start,
        };
        assert(ordinate_views(reader.coordinates@) =~= Seq::<OrdinateView>::empty());
        reader
    }

    /// The numbers read so far: first and second of each pair in turn.
    pub fn coordinates(&self) -> (coordinates: &[Ordinate<'s>])
        ensures
            ordinate_views(coordinates@) == self@.coordinates,
    {
        self.coordinates.as_slice()
    }

    /// Ends the reading: gives the numbers read so far, and leaves the
    /// tokenizer to its owner where the reader's cursor stands.
    pub fn into_coordinates(self) -> (coordinates: Vec<Ordinate<'s>>)
        ensures
            ordinate_views(coordinates@) == self@.coordinates,
            (*final(self.tokenizer()))@ == self@.cursor,
    {
        self.coordinates
    }

    /// How far the group has been read.
    pub fn state(&self) -> (state: CoordinateState)
        ensures
            state == self@.state,
    {
        self.state
    }

    /// The next token that is not whitespace. The end of the text is an
    /// error here.
    fn read_token(&mut self) -> (r: ParseResult<Token<'s>>)
        ensures
            final(self)@ == (ReaderView {
                cursor: old(self)@.cursor.after_first_significant(),
                ..old(self)@
            }),
            *final(final(self).tokenizer()) == *final(old(self).tokenizer()),
            match r {
                Ok(token) => old(self)@.cursor.first_significant() == Some(
                    Ok::<TokenView, ParseErrorView>(token@),
                ),
                Err(e) => match old(self)@.cursor.first_significant() {
                    None => e@ == ParseErrorView::EmptyCoordinateSequence(
                        final(self)@.cursor.position,
                    ),
                    Some(Err(error)) => e@ == error,
                    Some(Ok(_)) => false,
                },
            },
    {
        match self.tokenizer.next_non_whitespace() {
            None => Err(ParseError::empty_coordinate_sequence(self.tokenizer.index())),
            Some(Err(e)) => Err(e),
            Some(Ok(token)) => Ok(token),
        }
    }

    /// One step: takes the next token that is not whitespace from the
    /// tokenizer and moves on as the token tells, or fails. A failed step
    /// leaves state and numbers as they were.
    pub fn read(&mut self) -> (r: ParseResult<()>)
        ensures
            final(self)@ == old(self)@.step().reader,
            error_view(r) == old(self)@.step().error,
            *final(final(self).tokenizer()) == *final(old(self).tokenizer()),
    {
        let token = match self.read_token() {
            Ok(token) => token,
            Err(e) => {
                return Err(e);
            },
        };
        match token.char_class {
            CharClass::LeftParen => {
                match self.require_state(CoordinateState::Start, &token) {
                    Ok(_) => {},
                    Err(e) => {
                        return Err(e);
                    },
                }
                self.state = CoordinateState::ReadingFirstCooordinate;
                Ok(())
            },
            CharClass::RightParen => {
                if (self.state == CoordinateState::ReadingFirstCooordinate
                    && self.coordinates.len() == 0) || self.state
                    == CoordinateState::FinishedCoordinate {
                    self.state = CoordinateState::Finished;
                    Ok(())
                } else {
                    Err(ParseError::invalid_token(&token))
                }
            },
            CharClass::Character => {
                match self.require_state(CoordinateState::Start, &token) {
                    Ok(_) => {},
                    Err(e) => {
                        return Err(e);
                    },
                }
                if !matches_keyword(token.value, "empty") {
                    Err(ParseError::invalid_token(&token))
                } else {
                    self.state = CoordinateState::Finished;
                    Ok(())
                }
            },
            CharClass::Digit => {
                if self.state == CoordinateState::ReadingFirstCooordinate || self.state
                    == CoordinateState::ReadingNextCoordinate {
                    match Ordinate::of(&token) {
                        None => Err(ParseError::invalid_token(&token)),
                        Some(ordinate) => {
                            proof {
                                assert(ordinate_views(self.coordinates@.push(ordinate))
                                    =~= ordinate_views(self.coordinates@).push(ordinate@));
                            }
                            self.coordinates.push(ordinate);
                            if self.state == CoordinateState::ReadingFirstCooordinate {
                                self.state = CoordinateState::ReadingNextCoordinate;
                            } else if self.state == CoordinateState::ReadingNextCoordinate {
                                self.state = CoordinateState::FinishedCoordinate;
                            }
                            Ok(())
                        },
                    }
                } else {
                    Err(ParseError::invalid_token(&token))
                }
            },
            CharClass::Comma => {
                match self.require_state(CoordinateState::FinishedCoordinate, &token) {
                    Ok(_) => {},
                    Err(e) => {
                        return Err(e);
                    },
                }
                self.state = CoordinateState::ReadingFirstCooordinate;
                Ok(())
            },
            _ => Err(ParseError::invalid_token(&token)),
        }
    }

    /// Fails with `token` as an invalid token unless the reader is in
    /// `state`.
    pub fn require_state(&self, state: CoordinateState, token: &Token) -> (r: ParseResult<()>)
        ensures
            match r {
                Ok(_) => self@.state == state,
                Err(e) => self@.state != state && e@ == ParseErrorView::InvalidToken(
                    token@.index,
                    token@.value,
                ),
            },
    {
        if self.state != state {
            Err(ParseError::invalid_token(token))
        } else {
            Ok(())
        }
    }

    /// Fails with `token` as an invalid token if the reader is in `state`.
    pub fn require_state_not(&self, state: CoordinateState, token: &Token) -> (r: ParseResult<
        (),
    >)
        ensures
            match r {
                Ok(_) => self@.state != state,
                Err(e) => self@.state == state && e@ == ParseErrorView::InvalidToken(
                    token@.index,
                    token@.value,
                ),
            },
    {
        if self.state == state {
            Err(ParseError::invalid_token(token))
        } else {
            Ok(())
        }
    }

    /// Steps until the group is complete or a step fails.
    pub fn read_all(&mut self) -> (r: ParseResult<()>)
        ensures
            final(self)@ == old(self)@.run().reader,
            error_view(r) == old(self)@.run().error,
            *final(final(self).tokenizer()) == *final(old(self).tokenizer()),
    {
        while self.state != CoordinateState::Finished
            invariant
                self@.run() == old(self)@.run(),
                *final(self.tokenizer()) == *final(old(self).tokenizer()),
            decreases self@.cursor.remaining.len(),
        {
            proof {
                lemma_step_moves_on(self@);
            }
            match self.read() {
                Ok(_) => {},
                Err(e) => {
                    return Err(e);
                },
            }
        }
        Ok(())
    }
}

} // verus!
