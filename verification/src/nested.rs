//! Reads groups that nest: a list of rings, or a list of lists of rings,
//! each list in parentheses and its items separated by commas.
//!
//! A ring is read as a single coordinate group is, and a run of commas is
//! one separator here as it is there. Parentheses nest, so here each
//! parenthesis of a run counts: `((` opens a list and the first ring in it.

use vstd::prelude::*;
use vstd::string::*;

use crate::char_class::CharClass;
use crate::coordinate_reader::{next_state, CoordinateState};
use crate::cursor::{lemma_first_token_is_run, Cursor, TokenView};
use crate::keyword::{is_keyword, matches_keyword};
use crate::ordinate::{
    coordinate_views, polygon_views, ring_views, Coordinate, CoordinateView, Ordinate,
    OrdinateView,
};
use crate::parse_error::{ParseError, ParseErrorView, ParseResult};
use crate::tokenizer::{Token, Tokenizer};

verus! {

/// What can come next while nested groups are read.
#[derive(Debug, PartialEq, Eq, Structural, Copy, Clone)]
pub enum Phase {
    /// Nothing has been read.
    Start,
    /// A list has been opened and holds nothing yet.
    Fresh,
    /// A comma has been read after an item of a list.
    Next,
    /// An item of a list has been closed.
    After,
    /// A ring is open, and has been read as far as the state tells.
    Ring(CoordinateState),
    /// The outermost list has been closed.
    Done,
}

/// The state of reading nested groups.
pub struct NestView {
    /// How deep the groups nest: two for a list of rings, three for a list
    /// of lists of rings.
    pub levels: nat,
    /// The number of parentheses that are open.
    pub depth: nat,
    pub phase: Phase,
    /// The lists of rings that have been closed.
    pub polygons: Seq<Seq<Seq<CoordinateView>>>,
    /// The rings that have been closed in the list that is open.
    pub rings: Seq<Seq<CoordinateView>>,
    /// The pairs that are complete in the ring that is open.
    pub pairs: Seq<CoordinateView>,
    /// The first number of a pair whose second is awaited.
    pub first: Option<OrdinateView>,
}

/// Nested groups after some reading, with the cursor, and the error that
/// stopped the reading, if any.
pub struct NestOutcome {
    pub nest: NestView,
    pub cursor: Cursor,
    pub error: Option<ParseErrorView>,
}

impl NestView {
    /// Before anything is read.
    pub open spec fn start(levels: nat) -> NestView {
        NestView {
            levels,
            depth: 0,
            phase: Phase::Start,
            polygons: Seq::empty(),
            rings: Seq::empty(),
            pairs: Seq::empty(),
            first: None,
        }
    }

    /// Whether everything is in its place: the parentheses that are open
    /// fit the phase, a first number is held only while its second is
    /// awaited, pairs and rings are held apart only while the ring or the
    /// list that they belong to is open, and a list holds nothing when it
    /// has just been opened and something when an item of it has been
    /// closed.
    pub open spec fn tidy(self) -> bool {
        &&& 2 <= self.levels <= 3
        &&& self.first is Some <==> self.phase == Phase::Ring(
            CoordinateState::ReadingNextCoordinate,
        )
        &&& self.phase is Ring || self.pairs.len() == 0
        &&& self.phase == Phase::Done || self.depth + 1 >= self.levels || self.rings.len() == 0
        &&& self.levels == 3 || self.polygons.len() == 0
        &&& match self.phase {
            Phase::Start => self.depth == 0 && self.rings.len() == 0 && self.polygons.len() == 0,
            Phase::Done => self.depth == 0 && (self.levels == 3 ==> self.rings.len() == 0),
            Phase::Fresh => {
                &&& 1 <= self.depth < self.levels
                &&& self.depth + 1 == self.levels ==> self.rings.len() == 0
                &&& self.depth + 2 == self.levels ==> self.polygons.len() == 0
            },
            Phase::Next | Phase::After => {
                &&& 1 <= self.depth < self.levels
                &&& self.depth + 1 == self.levels ==> self.rings.len() > 0
                &&& self.depth + 2 == self.levels ==> self.polygons.len() > 0
            },
            Phase::Ring(state) => {
                &&& self.depth == self.levels
                &&& state != CoordinateState::Start
                &&& state != CoordinateState::Finished
                &&& state == CoordinateState::FinishedCoordinate ==> self.pairs.len() > 0
            },
        }
    }

    /// After an opening parenthesis: a list is opened, or at the innermost
    /// level a ring.
    pub open spec fn open(self) -> Option<NestView> {
        if self.phase == Phase::Start || self.phase == Phase::Fresh || self.phase == Phase::Next {
            if self.depth + 1 == self.levels {
                Some(
                    NestView {
                        depth: self.depth + 1,
                        phase: Phase::Ring(CoordinateState::ReadingFirstCooordinate),
                        ..self
                    },
                )
            } else {
                Some(NestView { depth: self.depth + 1, phase: Phase::Fresh, ..self })
            }
        } else {
            None
        }
    }

    /// After a closing parenthesis, which is one of `token`: the ring that
    /// is open is closed where a coordinate group could end, or else the
    /// list that is open.
    pub open spec fn close(self, token: TokenView) -> Option<NestView> {
        match self.phase {
            Phase::Ring(state) => if next_state(state, self.pairs.len() > 0, token) == Some(
                CoordinateState::Finished,
            ) {
                Some(
                    NestView {
                        depth: (self.depth - 1) as nat,
                        phase: Phase::After,
                        rings: self.rings.push(self.pairs),
                        pairs: Seq::empty(),
                        ..self
                    },
                )
            } else {
                None
            },
            Phase::Fresh | Phase::After => if self.depth <= 1 {
                Some(NestView { depth: 0, phase: Phase::Done, ..self })
            } else {
                Some(
                    NestView {
                        depth: (self.depth - 1) as nat,
                        phase: Phase::After,
                        polygons: self.polygons.push(self.rings),
                        rings: Seq::empty(),
                        ..self
                    },
                )
            },
            _ => None,
        }
    }

    /// After `count` opening parentheses.
    pub open spec fn opens(self, count: nat) -> Option<NestView>
        decreases count,
    {
        if count == 0 {
            Some(self)
        } else {
            match self.open() {
                None => None,
                Some(next) => next.opens((count - 1) as nat),
            }
        }
    }

    /// After `count` closing parentheses, which are those of `token`.
    pub open spec fn closes(self, token: TokenView, count: nat) -> Option<NestView>
        decreases count,
    {
        if count == 0 {
            Some(self)
        } else {
            match self.close(token) {
                None => None,
                Some(next) => next.closes(token, (count - 1) as nat),
            }
        }
    }

    /// After a token of commas: the next pair of a ring, or the next item of
    /// a list.
    pub open spec fn comma(self, token: TokenView) -> Option<NestView> {
        match self.phase {
            Phase::Ring(state) => match next_state(state, self.pairs.len() > 0, token) {
                Some(next) => Some(NestView { phase: Phase::Ring(next), ..self }),
                None => None,
            },
            Phase::After => Some(NestView { phase: Phase::Next, ..self }),
            _ => None,
        }
    }

    /// After a token of digits and points: a number of the ring that is
    /// open.
    pub open spec fn number(self, token: TokenView) -> Option<NestView> {
        let ordinate = OrdinateView { index: token.index, text: token.value };
        match self.phase {
            Phase::Ring(state) => match next_state(state, self.pairs.len() > 0, token) {
                Some(next) => if next == CoordinateState::ReadingNextCoordinate {
                    Some(NestView { phase: Phase::Ring(next), first: Some(ordinate), ..self })
                } else {
                    Some(
                        NestView {
                            phase: Phase::Ring(next),
                            pairs: self.pairs.push(
                                CoordinateView { x: self.first->0, y: ordinate },
                            ),
                            first: None,
                            ..self
                        },
                    )
                },
                None => None,
            },
            _ => None,
        }
    }

    /// After a word: at the start the keyword for nothing, without regard
    /// to case, stands for an empty list.
    pub open spec fn word(self, token: TokenView) -> Option<NestView> {
        if self.phase == Phase::Start && is_keyword(token.value, "empty"@) {
            Some(NestView { phase: Phase::Done, ..self })
        } else {
            None
        }
    }

    /// After `token`, or `None` where the token cannot stand here.
    pub open spec fn accept(self, token: TokenView) -> Option<NestView> {
        match token.char_class {
            CharClass::LeftParen => self.opens(token.value.len()),
            CharClass::RightParen => self.closes(token, token.value.len()),
            CharClass::Comma => self.comma(token),
            CharClass::Digit => self.number(token),
            CharClass::Character => self.word(token),
            CharClass::Whitespace => None,
        }
    }

    /// Reads tokens that are not whitespace from `cursor` on until the
    /// outermost list is closed, or until a token cannot stand where it is,
    /// is in error, or is missing at the end of the text.
    pub open spec fn run(self, cursor: Cursor) -> NestOutcome
        decreases cursor.remaining.len(),
        via Self::run_terminates
    {
        if self.phase == Phase::Done {
            NestOutcome { nest: self, cursor, error: None }
        } else {
            let after = cursor.after_first_significant();
            match cursor.first_significant() {
                None => NestOutcome {
                    nest: self,
                    cursor: after,
                    error: Some(ParseErrorView::EmptyCoordinateSequence(after.position)),
                },
                Some(Err(e)) => NestOutcome { nest: self, cursor: after, error: Some(e) },
                Some(Ok(token)) => match self.accept(token) {
                    None => NestOutcome {
                        nest: self,
                        cursor: after,
                        error: Some(ParseErrorView::InvalidToken(token.index, token.value)),
                    },
                    Some(next) => next.run(after),
                },
            }
        }
    }

    #[via_fn]
    proof fn run_terminates(self, cursor: Cursor) {
        lemma_token_moves_on(cursor);
    }
}

/// A request that gives a token takes text.
pub proof fn lemma_token_moves_on(cursor: Cursor)
    ensures
        cursor.first_significant() matches Some(Ok(_))
            ==> cursor.after_first_significant().remaining.len() < cursor.remaining.len(),
{
    lemma_first_token_is_run(cursor);
    lemma_first_token_is_run(cursor.past_whitespace());
}

/// A parenthesis that is accepted leaves everything in its place.
pub proof fn lemma_parenthesis_keeps_tidy(nest: NestView, token: TokenView)
    requires
        nest.tidy(),
    ensures
        nest.open() matches Some(next) ==> next.tidy() && next.levels == nest.levels,
        nest.close(token) matches Some(next) ==> next.tidy() && next.levels == nest.levels,
{
}

/// Parentheses that are accepted leave everything in its place.
proof fn lemma_parentheses_keep_tidy(nest: NestView, token: TokenView, count: nat)
    requires
        nest.tidy(),
    ensures
        nest.opens(count) matches Some(next) ==> next.tidy() && next.levels == nest.levels,
        nest.closes(token, count) matches Some(next) ==> next.tidy() && next.levels
            == nest.levels,
    decreases count,
{
    if count > 0 {
        lemma_parenthesis_keeps_tidy(nest, token);
        if let Some(next) = nest.open() {
            lemma_parentheses_keep_tidy(next, token, (count - 1) as nat);
        }
        if let Some(next) = nest.close(token) {
            lemma_parentheses_keep_tidy(next, token, (count - 1) as nat);
        }
    }
}

/// A token that is accepted leaves everything in its place.
pub proof fn lemma_accept_keeps_tidy(nest: NestView, token: TokenView)
    requires
        nest.tidy(),
    ensures
        nest.accept(token) matches Some(next) ==> next.tidy() && next.levels == nest.levels,
{
    lemma_parentheses_keep_tidy(nest, token, token.value.len());
}

/// Nothing that was read is left behind: when the outermost list has been
/// closed, every pair is in its ring and every ring in its list. A list of
/// rings is then in `rings`, a list of lists of rings in `polygons`.
pub proof fn lemma_run_keeps_tidy(nest: NestView, cursor: Cursor)
    requires
        nest.tidy(),
    ensures
        nest.run(cursor).nest.tidy(),
        nest.run(cursor).nest.levels == nest.levels,
        nest.run(cursor).error is None ==> {
            let end = nest.run(cursor).nest;
            &&& end.phase == Phase::Done
            &&& end.depth == 0
            &&& end.pairs.len() == 0
            &&& end.first is None
            &&& end.levels == 2 ==> end.polygons.len() == 0
            &&& end.levels == 3 ==> end.rings.len() == 0
        },
    decreases cursor.remaining.len(),
{
    if nest.phase != Phase::Done {
        if let Some(Ok(token)) = cursor.first_significant() {
            if let Some(next) = nest.accept(token) {
                lemma_accept_keeps_tidy(nest, token);
                lemma_token_moves_on(cursor);
                lemma_run_keeps_tidy(next, cursor.after_first_significant());
            }
        }
    }
}

/// The state of reading nested groups, as it is held while reading.
struct Nest<'s> {
    levels: usize,
    depth: usize,
    phase: Phase,
    polygons: Vec<Vec<Vec<Coordinate<'s>>>>,
    rings: Vec<Vec<Coordinate<'s>>>,
    pairs: Vec<Coordinate<'s>>,
    first: Option<Ordinate<'s>>,
}

/// The mathematical value of an ordinate that may be there.
spec fn first_view(first: Option<Ordinate<'_>>) -> Option<OrdinateView> {
    match first {
        Some(ordinate) => Some(ordinate@),
        None => None,
    }
}

/// The mathematical value of a state that may be there.
spec fn nest_view(nest: Option<Nest<'_>>) -> Option<NestView> {
    match nest {
        Some(nest) => Some(nest@),
        None => None,
    }
}

impl<'s> View for Nest<'s> {
    type V = NestView;

    closed spec fn view(&self) -> NestView {
        NestView {
            levels: self.levels as nat,
            depth: self.depth as nat,
            phase: self.phase,
            polygons: polygon_views(self.polygons@),
            rings: ring_views(self.rings@),
            pairs: coordinate_views(self.pairs@),
            first: first_view(self.first),
        }
    }
}

impl<'s> Nest<'s> {
    #[verifier::type_invariant]
    spec fn well_formed(self) -> bool {
        &&& 2 <= self.levels <= 3
        &&& self.first is Some <==> self.phase == Phase::Ring(
            CoordinateState::ReadingNextCoordinate,
        )
        &&& match self.phase {
            Phase::Start | Phase::Done => self.depth == 0,
            Phase::Fresh | Phase::Next | Phase::After => 1 <= self.depth < self.levels,
            Phase::Ring(state) => {
                &&& self.depth == self.levels
                &&& state != CoordinateState::Start
                &&& state != CoordinateState::Finished
            },
        }
    }

    /// The state before anything is read, for groups that nest `levels`
    /// deep.
    fn new(levels: usize) -> (nest: Self)
        requires
            2 <= levels <= 3,
        ensures
            nest@ == NestView::start(levels as nat),
    {
        let nest = Nest {
            levels,
            depth: 0,
            phase: Phase::Start,
            polygons: Vec::new(),
            rings: Vec::new(),
            pairs: Vec::new(),
            first: None,
        };
        assert(polygon_views(nest.polygons@) =~= Seq::empty());
        assert(ring_views(nest.rings@) =~= Seq::empty());
        assert(coordinate_views(nest.pairs@) =~= Seq::empty());
        nest
    }

    /// Whether the outermost list has been closed.
    fn is_done(&self) -> (done: bool)
        ensures
            done == (self@.phase == Phase::Done),
    {
        self.phase == Phase::Done
    }

    fn open(self) -> (r: Option<Self>)
        ensures
            nest_view(r) == self@.open(),
    {
        proof {
            use_type_invariant(&self);
        }
        if self.phase == Phase::Start || self.phase == Phase::Fresh || self.phase == Phase::Next {
            if self.depth + 1 == self.levels {
                Some(
                    Nest {
                        depth: self.depth + 1,
                        phase: Phase::Ring(CoordinateState::ReadingFirstCooordinate),
                        ..self
                    },
                )
            } else {
                Some(Nest { depth: self.depth + 1, phase: Phase::Fresh, ..self })
            }
        } else {
            None
        }
    }

    fn close(self, token: &Token<'s>) -> (r: Option<Self>)
        requires
            token.char_class == CharClass::RightParen,
        ensures
            nest_view(r) == self@.close(token@),
    {
        proof {
            use_type_invariant(&self);
        }
        let Nest { levels, depth, phase, mut polygons, mut rings, pairs, first } = self;
        match phase {
            Phase::Ring(state) => {
                if state == CoordinateState::FinishedCoordinate || (state
                    == CoordinateState::ReadingFirstCooordinate && pairs.len() == 0) {
                    proof {
                        assert(ring_views(rings@.push(pairs)) =~= ring_views(rings@).push(
                            coordinate_views(pairs@),
                        ));
                    }
                    rings.push(pairs);
                    let pairs: Vec<Coordinate<'s>> = Vec::new();
                    proof {
                        assert(coordinate_views(pairs@) =~= Seq::empty());
                    }
                    Some(
                        Nest {
                            levels,
                            depth: depth - 1,
                            phase: Phase::After,
                            polygons,
                            rings,
                            pairs,
                            first,
                        },
                    )
                } else {
                    None
                }
            },
            Phase::Fresh | Phase::After => {
                if depth <= 1 {
                    Some(
                        Nest { levels, depth: 0, phase: Phase::Done, polygons, rings, pairs, first },
                    )
                } else {
                    proof {
                        assert(polygon_views(polygons@.push(rings)) =~= polygon_views(
                            polygons@,
                        ).push(ring_views(rings@)));
                    }
                    polygons.push(rings);
                    let rings: Vec<Vec<Coordinate<'s>>> = Vec::new();
                    proof {
                        assert(ring_views(rings@) =~= Seq::empty());
                    }
                    Some(
                        Nest {
                            levels,
                            depth: depth - 1,
                            phase: Phase::After,
                            polygons,
                            rings,
                            pairs,
                            first,
                        },
                    )
                }
            },
            _ => None,
        }
    }

    fn opens(self, count: usize) -> (r: Option<Self>)
        ensures
            nest_view(r) == self@.opens(count as nat),
    {
        let ghost start = self@;
        let mut nest = self;
        let mut done: usize = 0;
        while done < count
            invariant
                start == self@,
                done <= count,
                nest@.opens((count - done) as nat) == start.opens(count as nat),
            decreases count - done,
        {
            nest = match nest.open() {
                None => {
                    return None;
                },
                Some(next) => next,
            };
            done = done + 1;
        }
        Some(nest)
    }

    fn closes(self, token: &Token<'s>, count: usize) -> (r: Option<Self>)
        requires
            token.char_class == CharClass::RightParen,
        ensures
            nest_view(r) == self@.closes(token@, count as nat),
    {
        let ghost start = self@;
        let mut nest = self;
        let mut done: usize = 0;
        while done < count
            invariant
                start == self@,
                done <= count,
                token.char_class == CharClass::RightParen,
                nest@.closes(token@, (count - done) as nat) == start.closes(token@, count as nat),
            decreases count - done,
        {
            nest = match nest.close(token) {
                None => {
                    return None;
                },
                Some(next) => next,
            };
            done = done + 1;
        }
        Some(nest)
    }

    fn comma(self, token: &Token<'s>) -> (r: Option<Self>)
        requires
            token.char_class == CharClass::Comma,
        ensures
            nest_view(r) == self@.comma(token@),
    {
        proof {
            use_type_invariant(&self);
        }
        match self.phase {
            Phase::Ring(state) => if state == CoordinateState::FinishedCoordinate {
                Some(
                    Nest {
                        phase: Phase::Ring(CoordinateState::ReadingFirstCooordinate),
                        ..self
                    },
                )
            } else {
                None
            },
            Phase::After => Some(Nest { phase: Phase::Next, ..self }),
            _ => None,
        }
    }

    fn number(self, token: &Token<'s>) -> (r: Option<Self>)
        requires
            token.char_class == CharClass::Digit,
        ensures
            nest_view(r) == self@.number(token@),
    {
        proof {
            use_type_invariant(&self);
        }
        let ordinate = match Ordinate::of(token) {
            None => {
                return None;
            },
            Some(ordinate) => ordinate,
        };
        let Nest { levels, depth, phase, polygons, rings, mut pairs, first } = self;
        match phase {
            Phase::Ring(state) => {
                if state == CoordinateState::ReadingFirstCooordinate {
                    Some(
                        Nest {
                            levels,
                            depth,
                            phase: Phase::Ring(CoordinateState::ReadingNextCoordinate),
                            polygons,
                            rings,
                            pairs,
                            first: Some(ordinate),
                        },
                    )
                } else if state == CoordinateState::ReadingNextCoordinate {
                    let x = match first {
                        Some(x) => x,
                        None => {
                            return None;
                        },
                    };
                    let pair = Coordinate { x, y: ordinate };
                    proof {
                        assert(coordinate_views(pairs@.push(pair)) =~= coordinate_views(
                            pairs@,
                        ).push(pair@));
                    }
                    pairs.push(pair);
                    Some(
                        Nest {
                            levels,
                            depth,
                            phase: Phase::Ring(CoordinateState::FinishedCoordinate),
                            polygons,
                            rings,
                            pairs,
                            first: None,
                        },
                    )
                } else {
                    None
                }
            },
            _ => None,
        }
    }

    fn word(self, token: &Token<'s>) -> (r: Option<Self>)
        ensures
            nest_view(r) == self@.word(token@),
    {
        proof {
            use_type_invariant(&self);
        }
        if self.phase == Phase::Start && matches_keyword(token.value, "empty") {
            Some(Nest { phase: Phase::Done, ..self })
        } else {
            None
        }
    }

    fn accept(self, token: &Token<'s>) -> (r: Option<Self>)
        ensures
            nest_view(r) == self@.accept(token@),
    {
        match token.char_class {
            CharClass::LeftParen => self.opens(token.value.unicode_len()),
            CharClass::RightParen => self.closes(token, token.value.unicode_len()),
            CharClass::Comma => self.comma(token),
            CharClass::Digit => self.number(token),
            CharClass::Character => self.word(token),
            CharClass::Whitespace => None,
        }
    }

    /// Reads nested groups from `tokens` until the outermost list is closed
    /// or the reading fails.
    fn read(tokens: &mut Tokenizer<'s>, levels: usize) -> (r: ParseResult<Self>)
        requires
            2 <= levels <= 3,
        ensures
            final(tokens)@ == NestView::start(levels as nat).run(old(tokens)@).cursor,
            match r {
                Ok(nest) => NestView::start(levels as nat).run(old(tokens)@).error is None
                    && nest@ == NestView::start(levels as nat).run(old(tokens)@).nest,
                Err(e) => NestView::start(levels as nat).run(old(tokens)@).error == Some(e@),
            },
    {
        let ghost outcome = NestView::start(levels as nat).run(tokens@);
        let mut nest = Nest::new(levels);
        while !nest.is_done()
            invariant
                outcome == NestView::start(levels as nat).run(old(tokens)@),
                nest@.run(tokens@) == outcome,
            decreases tokens@.remaining.len(),
        {
            proof {
                lemma_token_moves_on(tokens@);
            }
            let token = match tokens.next_non_whitespace() {
                None => {
                    return Err(ParseError::empty_coordinate_sequence(tokens.index()));
                },
                Some(Err(e)) => {
                    return Err(e);
                },
                Some(Ok(token)) => token,
            };
            nest = match nest.accept(&token) {
                None => {
                    return Err(ParseError::invalid_token(&token));
                },
                Some(next) => next,
            };
        }
        Ok(nest)
    }
}

/// The rings that `run` has read, or its error.
pub open spec fn rings_read(outcome: NestOutcome) -> Result<
    Seq<Seq<CoordinateView>>,
    ParseErrorView,
> {
    match outcome.error {
        Some(e) => Err(e),
        None => Ok(outcome.nest.rings),
    }
}

/// The lists of rings that `run` has read, or its error.
pub open spec fn polygons_read(outcome: NestOutcome) -> Result<
    Seq<Seq<Seq<CoordinateView>>>,
    ParseErrorView,
> {
    match outcome.error {
        Some(e) => Err(e),
        None => Ok(outcome.nest.polygons),
    }
}

/// Reads a list of rings: `EMPTY`, or rings in parentheses, separated by
/// commas.
pub fn read_rings<'s>(tokens: &mut Tokenizer<'s>) -> (r: ParseResult<Vec<Vec<Coordinate<'s>>>>)
    ensures
        final(tokens)@ == NestView::start(2).run(old(tokens)@).cursor,
        match r {
            Ok(rings) => rings_read(NestView::start(2).run(old(tokens)@)) == Ok::<
                Seq<Seq<CoordinateView>>,
                ParseErrorView,
            >(ring_views(rings@)),
            Err(e) => rings_read(NestView::start(2).run(old(tokens)@)) == Err::<
                Seq<Seq<CoordinateView>>,
                ParseErrorView,
            >(e@),
        },
{
    match Nest::read(tokens, 2) {
        Ok(nest) => Ok(nest.rings),
        Err(e) => Err(e),
    }
}

/// Reads a list of lists of rings: `EMPTY`, or lists of rings in
/// parentheses, separated by commas.
pub fn read_polygons<'s>(tokens: &mut Tokenizer<'s>) -> (r: ParseResult<
    Vec<Vec<Vec<Coordinate<'s>>>>,
>)
    ensures
        final(tokens)@ == NestView::start(3).run(old(tokens)@).cursor,
        match r {
            Ok(polygons) => polygons_read(NestView::start(3).run(old(tokens)@)) == Ok::<
                Seq<Seq<Seq<CoordinateView>>>,
                ParseErrorView,
            >(polygon_views(polygons@)),
            Err(e) => polygons_read(NestView::start(3).run(old(tokens)@)) == Err::<
                Seq<Seq<Seq<CoordinateView>>>,
                ParseErrorView,
            >(e@),
        },
{
    match Nest::read(tokens, 3) {
        Ok(nest) => Ok(nest.polygons),
        Err(e) => Err(e),
    }
}

} // verus!
