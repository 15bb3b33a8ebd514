//! How nested groups are written, and the proof that what is read from a
//! text is what is written in it: the parentheses, commas and numbers that
//! a reader takes are those of the lists that it yields.

use vstd::prelude::*;

use crate::char_class::CharClass;
use crate::coordinate_reader::CoordinateState;
use crate::cursor::{lemma_first_token_is_run, Cursor, TokenView};
use crate::nested::{
    lemma_accept_keeps_tidy, lemma_parenthesis_keeps_tidy, lemma_run_keeps_tidy,
    lemma_token_moves_on, NestView, Phase,
};
use crate::ordinate::{CoordinateView, OrdinateView};

verus! {

/// What a text of nested groups is made of.
pub enum Symbol {
    Open,
    Close,
    Comma,
    Number(OrdinateView),
}

/// `count` times `symbol`.
pub open spec fn repeated(symbol: Symbol, count: nat) -> Seq<Symbol> {
    Seq::new(count, |i: int| symbol)
}

/// The symbols that `token` stands for: each parenthesis of a run counts, a
/// run of commas is one separator, and a word stands for nothing.
pub open spec fn symbols_of(token: TokenView) -> Seq<Symbol> {
    match token.char_class {
        CharClass::LeftParen => repeated(Symbol::Open, token.value.len()),
        CharClass::RightParen => repeated(Symbol::Close, token.value.len()),
        CharClass::Comma => seq![Symbol::Comma],
        CharClass::Digit => seq![
            Symbol::Number(OrdinateView { index: token.index, text: token.value }),
        ],
        _ => Seq::empty(),
    }
}

/// What stands before an item of a list: nothing before the first, a comma
/// before the others.
pub open spec fn separator(first: bool) -> Seq<Symbol> {
    if first {
        Seq::empty()
    } else {
        seq![Symbol::Comma]
    }
}

/// Pairs of numbers, separated by commas.
pub open spec fn pairs_written(pairs: Seq<CoordinateView>) -> Seq<Symbol>
    decreases pairs.len(),
{
    if pairs.len() == 0 {
        Seq::empty()
    } else {
        pairs_written(pairs.drop_last()) + separator(pairs.len() == 1) + seq![
            Symbol::Number(pairs.last().x),
            Symbol::Number(pairs.last().y),
        ]
    }
}

/// A ring: its pairs in parentheses.
pub open spec fn ring_written(pairs: Seq<CoordinateView>) -> Seq<Symbol> {
    seq![Symbol::Open] + pairs_written(pairs) + seq![Symbol::Close]
}

/// Rings, separated by commas.
pub open spec fn rings_written(rings: Seq<Seq<CoordinateView>>) -> Seq<Symbol>
    decreases rings.len(),
{
    if rings.len() == 0 {
        Seq::empty()
    } else {
        rings_written(rings.drop_last()) + separator(rings.len() == 1) + ring_written(
            rings.last(),
        )
    }
}

/// A list of rings: the rings in parentheses.
pub open spec fn polygon_written(rings: Seq<Seq<CoordinateView>>) -> Seq<Symbol> {
    seq![Symbol::Open] + rings_written(rings) + seq![Symbol::Close]
}

/// Lists of rings, separated by commas.
pub open spec fn polygons_written(polygons: Seq<Seq<Seq<CoordinateView>>>) -> Seq<Symbol>
    decreases polygons.len(),
{
    if polygons.len() == 0 {
        Seq::empty()
    } else {
        polygons_written(polygons.drop_last()) + separator(polygons.len() == 1)
            + polygon_written(polygons.last())
    }
}

/// A list of lists of rings: the lists in parentheses.
pub open spec fn multi_polygon_written(polygons: Seq<Seq<Seq<CoordinateView>>>) -> Seq<Symbol> {
    seq![Symbol::Open] + polygons_written(polygons) + seq![Symbol::Close]
}

impl NestView {
    /// The symbols of the tokens that a run takes from `cursor` on and
    /// accepts.
    pub open spec fn symbols_read(self, cursor: Cursor) -> Seq<Symbol>
        decreases cursor.remaining.len(),
        via Self::symbols_read_terminates
    {
        if self.phase == Phase::Done {
            Seq::empty()
        } else {
            match cursor.first_significant() {
                Some(Ok(token)) => match self.accept(token) {
                    Some(next) => symbols_of(token) + next.symbols_read(
                        cursor.after_first_significant(),
                    ),
                    None => Seq::empty(),
                },
                _ => Seq::empty(),
            }
        }
    }

    #[via_fn]
    proof fn symbols_read_terminates(self, cursor: Cursor) {
        lemma_token_moves_on(cursor);
    }

    /// What has been written of the ring that is open.
    spec fn ring_so_far(self) -> Seq<Symbol> {
        seq![Symbol::Open] + pairs_written(self.pairs) + match self.phase {
            Phase::Ring(CoordinateState::ReadingFirstCooordinate) => separator(
                self.pairs.len() == 0,
            ),
            Phase::Ring(CoordinateState::ReadingNextCoordinate) => separator(
                self.pairs.len() == 0,
            ) + seq![Symbol::Number(self.first->0)],
            _ => Seq::empty(),
        }
    }

    /// What has been written of the list of rings that is open.
    spec fn rings_so_far(self) -> Seq<Symbol> {
        seq![Symbol::Open] + rings_written(self.rings) + if self.phase is Ring {
            separator(self.rings.len() == 0) + self.ring_so_far()
        } else if self.phase == Phase::Next {
            seq![Symbol::Comma]
        } else {
            Seq::empty()
        }
    }

    /// What has been written of the text so far.
    spec fn so_far(self) -> Seq<Symbol> {
        if self.phase == Phase::Start {
            Seq::empty()
        } else if self.phase == Phase::Done {
            if self.levels == 2 {
                polygon_written(self.rings)
            } else {
                multi_polygon_written(self.polygons)
            }
        } else if self.levels == 2 {
            self.rings_so_far()
        } else if self.depth == 1 {
            seq![Symbol::Open] + polygons_written(self.polygons) + if self.phase == Phase::Next {
                seq![Symbol::Comma]
            } else {
                Seq::empty()
            }
        } else {
            seq![Symbol::Open] + polygons_written(self.polygons) + separator(
                self.polygons.len() == 0,
            ) + self.rings_so_far()
        }
    }
}

/// An opening parenthesis that is accepted is written after what was
/// written before.
proof fn lemma_open_is_written(nest: NestView)
    requires
        nest.tidy(),
        nest.open() is Some,
    ensures
        nest.open()->0.so_far() =~= nest.so_far() + seq![Symbol::Open],
{
}

/// A closing parenthesis that is accepted is written after what was
/// written before.
proof fn lemma_close_is_written(nest: NestView, token: TokenView)
    requires
        nest.tidy(),
        nest.close(token) is Some,
    ensures
        nest.close(token)->0.so_far() =~= nest.so_far() + seq![Symbol::Close],
{
    let next = nest.close(token)->0;
    if nest.phase is Ring {
        assert(next.rings.drop_last() =~= nest.rings);
    } else if nest.depth > 1 {
        assert(next.polygons.drop_last() =~= nest.polygons);
    }
}

/// Opening parentheses that are accepted are written one after the other.
proof fn lemma_opens_are_written(nest: NestView, token: TokenView, count: nat)
    requires
        nest.tidy(),
        nest.opens(count) is Some,
    ensures
        nest.opens(count)->0.so_far() =~= nest.so_far() + repeated(Symbol::Open, count),
        count > 0 || nest.phase != Phase::Start ==> nest.opens(count)->0.phase != Phase::Start,
    decreases count,
{
    if count > 0 {
        let next = nest.open()->0;
        lemma_open_is_written(nest);
        lemma_parenthesis_keeps_tidy(nest, token);
        lemma_opens_are_written(next, token, (count - 1) as nat);
        assert(seq![Symbol::Open] + repeated(Symbol::Open, (count - 1) as nat) =~= repeated(
            Symbol::Open,
            count,
        ));
    }
}

/// Closing parentheses that are accepted are written one after the other.
proof fn lemma_closes_are_written(nest: NestView, token: TokenView, count: nat)
    requires
        nest.tidy(),
        nest.closes(token, count) is Some,
    ensures
        nest.closes(token, count)->0.so_far() =~= nest.so_far() + repeated(Symbol::Close, count),
        count > 0 || nest.phase != Phase::Start ==> nest.closes(token, count)->0.phase
            != Phase::Start,
    decreases count,
{
    if count > 0 {
        let next = nest.close(token)->0;
        lemma_close_is_written(nest, token);
        lemma_parenthesis_keeps_tidy(nest, token);
        lemma_closes_are_written(next, token, (count - 1) as nat);
        assert(seq![Symbol::Close] + repeated(Symbol::Close, (count - 1) as nat) =~= repeated(
            Symbol::Close,
            count,
        ));
    }
}

/// A comma that is accepted is written after what was written before.
proof fn lemma_comma_is_written(nest: NestView, token: TokenView)
    requires
        nest.tidy(),
        token.char_class == CharClass::Comma,
        nest.comma(token) is Some,
    ensures
        nest.comma(token)->0.so_far() =~= nest.so_far() + seq![Symbol::Comma],
{
}

/// A number that is accepted is written after what was written of the
/// ring before.
proof fn lemma_number_is_written_in_ring(nest: NestView, token: TokenView)
    requires
        nest.tidy(),
        token.char_class == CharClass::Digit,
        nest.number(token) is Some,
    ensures
        nest.number(token)->0.ring_so_far() =~= nest.ring_so_far() + symbols_of(token),
{
    let next = nest.number(token)->0;
    if next.phase == Phase::Ring(CoordinateState::FinishedCoordinate) {
        assert(next.pairs.drop_last() =~= nest.pairs);
    }
}

/// What is written of a ring is written of the list of rings and of the
/// text: what comes before the ring stays as it is.
proof fn lemma_ring_is_written_last(nest: NestView, next: NestView, symbols: Seq<Symbol>)
    requires
        nest.tidy(),
        nest.phase is Ring,
        next.phase is Ring,
        next.levels == nest.levels,
        next.depth == nest.depth,
        next.rings == nest.rings,
        next.polygons == nest.polygons,
        next.ring_so_far() == nest.ring_so_far() + symbols,
    ensures
        next.so_far() =~= nest.so_far() + symbols,
{
    let rings = seq![Symbol::Open] + rings_written(nest.rings) + separator(nest.rings.len() == 0);
    assert(nest.rings_so_far() =~= rings + nest.ring_so_far());
    assert(next.rings_so_far() =~= rings + nest.ring_so_far() + symbols);
    if nest.levels == 3 {
        let polygons = seq![Symbol::Open] + polygons_written(nest.polygons) + separator(
            nest.polygons.len() == 0,
        );
        assert(nest.so_far() =~= polygons + nest.rings_so_far());
        assert(next.so_far() =~= polygons + nest.rings_so_far() + symbols);
    }
}

/// A number that is accepted is written after what was written before.
proof fn lemma_number_is_written(nest: NestView, token: TokenView)
    requires
        nest.tidy(),
        token.char_class == CharClass::Digit,
        nest.number(token) is Some,
    ensures
        nest.number(token)->0.so_far() =~= nest.so_far() + symbols_of(token),
{
    lemma_number_is_written_in_ring(nest, token);
    lemma_ring_is_written_last(nest, nest.number(token)->0, symbols_of(token));
}

/// A token that is accepted and is no word is written after what was
/// written before, and after it the reading is past its start.
proof fn lemma_token_is_written(nest: NestView, token: TokenView)
    requires
        nest.tidy(),
        nest.accept(token) is Some,
        token.char_class != CharClass::Character,
        token.value.len() > 0,
    ensures
        nest.accept(token)->0.so_far() =~= nest.so_far() + symbols_of(token),
        nest.accept(token)->0.phase != Phase::Start,
{
    match token.char_class {
        CharClass::LeftParen => {
            lemma_opens_are_written(nest, token, token.value.len());
        },
        CharClass::RightParen => {
            lemma_closes_are_written(nest, token, token.value.len());
        },
        CharClass::Comma => {
            lemma_comma_is_written(nest, token);
        },
        CharClass::Digit => {
            lemma_number_is_written(nest, token);
        },
        _ => {},
    }
}

/// What a run takes after the start is written after what was written
/// before, and together they are what the run yields.
proof fn lemma_run_is_written(nest: NestView, cursor: Cursor)
    requires
        nest.tidy(),
        nest.phase != Phase::Start,
        nest.run(cursor).error is None,
    ensures
        nest.so_far() + nest.symbols_read(cursor) =~= nest.run(cursor).nest.so_far(),
    decreases cursor.remaining.len(),
{
    if nest.phase != Phase::Done {
        let token = cursor.first_significant()->0->Ok_0;
        let next = nest.accept(token)->0;
        lemma_token_moves_on(cursor);
        lemma_first_token_is_run(cursor.past_whitespace());
        lemma_accept_keeps_tidy(nest, token);
        lemma_token_is_written(nest, token);
        lemma_run_is_written(next, cursor.after_first_significant());
    }
}

/// The rings that are read from a text are the rings that are written in
/// it: the symbols that the reader takes are those of the list of rings
/// that it yields. The keyword for an empty list is the one other way to
/// write a list without rings.
pub proof fn lemma_rings_read_are_written(cursor: Cursor)
    requires
        NestView::start(2).run(cursor).error is None,
    ensures
        ({
            let read = NestView::start(2).symbols_read(cursor);
            let rings = NestView::start(2).run(cursor).nest.rings;
            read == polygon_written(rings) || (read.len() == 0 && rings.len() == 0)
        }),
{
    lemma_run_keeps_tidy(NestView::start(2), cursor);
    lemma_lists_read_are_written(2, cursor);
}

/// The lists of rings that are read from a text are the lists that are
/// written in it. The keyword for an empty list is the one other way to
/// write a list without lists in it.
pub proof fn lemma_polygons_read_are_written(cursor: Cursor)
    requires
        NestView::start(3).run(cursor).error is None,
    ensures
        ({
            let read = NestView::start(3).symbols_read(cursor);
            let polygons = NestView::start(3).run(cursor).nest.polygons;
            read == multi_polygon_written(polygons) || (read.len() == 0 && polygons.len() == 0)
        }),
{
    lemma_run_keeps_tidy(NestView::start(3), cursor);
    lemma_lists_read_are_written(3, cursor);
}

/// What a run from the start takes is what it yields, written out, unless
/// it takes the keyword for an empty list and yields nothing.
proof fn lemma_lists_read_are_written(levels: nat, cursor: Cursor)
    requires
        2 <= levels <= 3,
        NestView::start(levels).run(cursor).error is None,
    ensures
        ({
            let start = NestView::start(levels);
            let end = start.run(cursor).nest;
            start.symbols_read(cursor) == end.so_far() || (start.symbols_read(cursor).len() == 0
                && end.rings.len() == 0 && end.polygons.len() == 0)
        }),
{
    let start = NestView::start(levels);
    let token = cursor.first_significant()->0->Ok_0;
    let next = start.accept(token)->0;
    let after = cursor.after_first_significant();
    lemma_token_moves_on(cursor);
    lemma_first_token_is_run(cursor.past_whitespace());
    lemma_accept_keeps_tidy(start, token);
    if token.char_class == CharClass::Character {
        assert(next.symbols_read(after) =~= Seq::<Symbol>::empty());
    } else {
        lemma_token_is_written(start, token);
        lemma_run_is_written(next, after);
    }
}

} // verus!
