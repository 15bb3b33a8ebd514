//! The grammar of a coordinate group, and the proof that a reader accepts
//! exactly the groups of this grammar:
//!
//! ```text
//! group = "EMPTY" | "(" ")" | "(" number number { "," number number } ")"
//! ```
//!
//! The grammar speaks of tokens that are not whitespace; the keyword is
//! read without regard to case.

use vstd::prelude::*;

use crate::char_class::CharClass;
use crate::coordinate_reader::{
    lemma_step_moves_on, next_state, CoordinateState, Outcome, ReaderView,
};
use crate::cursor::{Cursor, TokenView};
use crate::keyword::is_keyword;
use crate::ordinate::{is_number, OrdinateView};

verus! {

/// The number that a token of digits and points is.
pub open spec fn as_ordinate(token: TokenView) -> OrdinateView {
    OrdinateView { index: token.index, text: token.value }
}

/// Whether the token at `i`, after the opening parenthesis at 0, is what
/// the grammar has there: a comma at every third place, and at the others
/// the numbers `numbers`, in their order.
pub open spec fn fits(tokens: Seq<TokenView>, i: int, numbers: Seq<OrdinateView>) -> bool {
    if i % 3 == 0 {
        tokens[i].char_class == CharClass::Comma
    } else {
        &&& tokens[i].char_class == CharClass::Digit
        &&& is_number(tokens[i].value)
        &&& 0 <= i - 1 - i / 3 < numbers.len()
        &&& numbers[i - 1 - i / 3] == as_ordinate(tokens[i])
    }
}

/// Whether `tokens` are a coordinate group with the numbers `numbers`.
pub open spec fn is_group(tokens: Seq<TokenView>, numbers: Seq<OrdinateView>) -> bool {
    let count = tokens.len() as int;
    ||| {
        &&& count == 1
        &&& tokens[0].char_class == CharClass::Character
        &&& is_keyword(tokens[0].value, "empty"@)
        &&& numbers.len() == 0
    }
    ||| {
        &&& count == 2 || (count >= 4 && count % 3 == 1)
        &&& tokens[0].char_class == CharClass::LeftParen
        &&& tokens[count - 1].char_class == CharClass::RightParen
        &&& numbers.len() == count - 2 - (count - 2) / 3
        &&& forall|i: int| 1 <= i < count - 1 ==> #[trigger] fits(tokens, i, numbers)
    }
}

/// Whether `tokens` are the start of a group in parentheses that is not
/// closed yet, with the numbers `numbers`.
spec fn is_open_group(tokens: Seq<TokenView>, numbers: Seq<OrdinateView>) -> bool {
    let count = tokens.len() as int;
    &&& count >= 1
    &&& tokens[0].char_class == CharClass::LeftParen
    &&& numbers.len() == count - 1 - (count - 1) / 3
    &&& forall|i: int| 1 <= i < count ==> #[trigger] fits(tokens, i, numbers)
}

/// The state of a reader after `count` tokens of a group in parentheses
/// that is not closed yet.
spec fn state_after(count: int) -> CoordinateState {
    if count == 0 {
        CoordinateState::Start
    } else if count % 3 == 1 {
        CoordinateState::ReadingFirstCooordinate
    } else if count % 3 == 2 {
        CoordinateState::ReadingNextCoordinate
    } else {
        CoordinateState::FinishedCoordinate
    }
}

/// Whether a reader that has read `tokens` can be in `state` with the
/// numbers `numbers`.
spec fn reached(state: CoordinateState, tokens: Seq<TokenView>, numbers: Seq<OrdinateView>) -> bool {
    match state {
        CoordinateState::Finished => is_group(tokens, numbers),
        CoordinateState::Start => tokens.len() == 0 && numbers.len() == 0,
        _ => is_open_group(tokens, numbers) && state == state_after(tokens.len() as int),
    }
}

/// The numbers after `token` has been accepted.
spec fn numbers_with(numbers: Seq<OrdinateView>, token: TokenView) -> Seq<OrdinateView> {
    if token.char_class == CharClass::Digit {
        numbers.push(as_ordinate(token))
    } else {
        numbers
    }
}

/// A token that a reader accepts keeps what it has read within the grammar.
proof fn lemma_accepted_token_fits(
    state: CoordinateState,
    tokens: Seq<TokenView>,
    numbers: Seq<OrdinateView>,
    token: TokenView,
)
    requires
        state != CoordinateState::Finished,
        reached(state, tokens, numbers),
        next_state(state, numbers.len() > 0, token) is Some,
    ensures
        reached(
            next_state(state, numbers.len() > 0, token)->0,
            tokens.push(token),
            numbers_with(numbers, token),
        ),
{
    let longer = tokens.push(token);
    let more = numbers_with(numbers, token);
    assert forall|i: int| 1 <= i < tokens.len() && fits(tokens, i, numbers) implies #[trigger] fits(
        longer,
        i,
        more,
    ) by {}
}

/// A reader accepts each token of a group in its turn.
proof fn lemma_token_of_group_is_accepted(
    state: CoordinateState,
    tokens: Seq<TokenView>,
    numbers: Seq<OrdinateView>,
    i: int,
    read: Seq<OrdinateView>,
)
    requires
        is_group(tokens, numbers),
        0 <= i < tokens.len(),
        state != CoordinateState::Finished,
        reached(state, tokens.take(i), read),
        read.len() <= numbers.len(),
        forall|k: int| 0 <= k < read.len() ==> #[trigger] read[k] == numbers[k],
    ensures
        next_state(state, read.len() > 0, tokens[i]) is Some,
        (next_state(state, read.len() > 0, tokens[i])->0 == CoordinateState::Finished) <==> i + 1
            == tokens.len(),
        numbers_with(read, tokens[i]).len() <= numbers.len(),
        forall|k: int|
            0 <= k < numbers_with(read, tokens[i]).len() ==> #[trigger] numbers_with(
                read,
                tokens[i],
            )[k] == numbers[k],
{
    let count = tokens.len() as int;
    if tokens[0].char_class == CharClass::LeftParen {
        if 1 <= i < count - 1 {
            assert(fits(tokens, i, numbers));
        }
    }
}

impl ReaderView {
    /// The reader after `count` steps.
    pub open spec fn after_steps(self, count: nat) -> ReaderView
        decreases count,
    {
        if count == 0 {
            self
        } else {
            self.after_steps((count - 1) as nat).step().reader
        }
    }

    /// The number of steps that the reader runs for: the steps before the
    /// group is complete or a step fails.
    pub open spec fn steps_run(self) -> nat
        decreases self.cursor.remaining.len(),
        via Self::steps_run_terminates
    {
        if self.state == CoordinateState::Finished || self.step().error is Some {
            0
        } else {
            1 + self.step().reader.steps_run()
        }
    }

    #[via_fn]
    proof fn steps_run_terminates(self) {
        lemma_step_moves_on(self);
    }
}

/// Steps may be counted from the first or from the last.
proof fn lemma_steps_from_the_first(reader: ReaderView, count: nat)
    ensures
        reader.after_steps(count + 1) == reader.step().reader.after_steps(count),
    decreases count,
{
    if count > 0 {
        lemma_steps_from_the_first(reader, (count - 1) as nat);
    } else {
        assert(reader.after_steps(0) == reader);
    }
}

/// A reader runs step by step: none of the steps it runs for fails or
/// finds the group complete, and after them the run is at its end.
proof fn lemma_run_is_steps(reader: ReaderView)
    ensures
        forall|i: nat|
            i < reader.steps_run() ==> (#[trigger] reader.after_steps(i)).state
                != CoordinateState::Finished && reader.after_steps(i).step().error is None,
        reader.run().error is None ==> reader.run().reader == reader.after_steps(
            reader.steps_run(),
        ) && reader.after_steps(reader.steps_run()).state == CoordinateState::Finished,
        reader.run().error is Some ==> reader.after_steps(reader.steps_run()).state
            != CoordinateState::Finished,
    decreases reader.cursor.remaining.len(),
{
    if reader.state != CoordinateState::Finished && reader.step().error is None {
        let next = reader.step().reader;
        lemma_step_moves_on(reader);
        lemma_run_is_steps(next);
        lemma_steps_from_the_first(reader, next.steps_run());
        assert forall|i: nat| i < reader.steps_run() implies (#[trigger] reader.after_steps(
            i,
        )).state != CoordinateState::Finished && reader.after_steps(i).step().error is None by {
            if i > 0 {
                lemma_steps_from_the_first(reader, (i - 1) as nat);
            }
        }
    }
}

/// Steps that neither fail nor find the group complete do not change what
/// a run ends in.
proof fn lemma_steps_are_run(reader: ReaderView, count: nat)
    requires
        forall|i: nat|
            i < count ==> (#[trigger] reader.after_steps(i)).state != CoordinateState::Finished
                && reader.after_steps(i).step().error is None,
    ensures
        reader.run() == reader.after_steps(count).run(),
    decreases count,
{
    if count > 0 {
        lemma_steps_are_run(reader, (count - 1) as nat);
    }
}

/// The tokens that the first `count` steps of a reader take.
spec fn tokens_taken(cursor: Cursor, count: nat) -> Seq<TokenView> {
    Seq::new(
        count,
        |i: int|
            match cursor.after_significant(i as nat).first_significant() {
                Some(Ok(token)) => token,
                _ => arbitrary(),
            },
    )
}

/// What a reader has read after some of the steps it runs for is within
/// the grammar.
proof fn lemma_steps_reach(cursor: Cursor, count: nat)
    requires
        count <= ReaderView::start(cursor).steps_run(),
    ensures
        ReaderView::start(cursor).after_steps(count).cursor == cursor.after_significant(count),
        cursor.gives(tokens_taken(cursor, count)),
        reached(
            ReaderView::start(cursor).after_steps(count).state,
            tokens_taken(cursor, count),
            ReaderView::start(cursor).after_steps(count).coordinates,
        ),
    decreases count,
{
    let reader = ReaderView::start(cursor);
    if count > 0 {
        let before = (count - 1) as nat;
        lemma_steps_reach(cursor, before);
        lemma_run_is_steps(reader);
        let last = reader.after_steps(before);
        let token = last.cursor.first_significant()->0->Ok_0;
        lemma_accepted_token_fits(last.state, tokens_taken(cursor, before), last.coordinates, token);
        assert(tokens_taken(cursor, count) =~= tokens_taken(cursor, before).push(token));
    }
}

/// A reader that runs to the end of a group has read a group of the
/// grammar, and holds its numbers.
pub proof fn lemma_reader_accepts_only_groups(cursor: Cursor)
    requires
        ReaderView::start(cursor).run().error is None,
    ensures
        exists|tokens: Seq<TokenView>| #[trigger]
            cursor.gives(tokens) && is_group(
                tokens,
                ReaderView::start(cursor).run().reader.coordinates,
            ) && ReaderView::start(cursor).run().reader.cursor == cursor.after_significant(
                tokens.len(),
            ),
{
    let reader = ReaderView::start(cursor);
    lemma_run_is_steps(reader);
    lemma_steps_reach(cursor, reader.steps_run());
    let tokens = tokens_taken(cursor, reader.steps_run());
    assert(cursor.gives(tokens));
}

/// A reader accepts every group of the grammar: where the tokens that come
/// are a group, it runs to the end of the group and holds its numbers.
pub proof fn lemma_reader_accepts_every_group(
    cursor: Cursor,
    tokens: Seq<TokenView>,
    numbers: Seq<OrdinateView>,
)
    requires
        cursor.gives(tokens),
        is_group(tokens, numbers),
    ensures
        ReaderView::start(cursor).run() == (Outcome {
            reader: ReaderView {
                state: CoordinateState::Finished,
                coordinates: numbers,
                cursor: cursor.after_significant(tokens.len()),
            },
            error: None,
        }),
{
    let reader = ReaderView::start(cursor);
    lemma_group_is_read(cursor, tokens, numbers, tokens.len());
    lemma_steps_are_run(reader, tokens.len());
    let end = reader.after_steps(tokens.len());
    assert(end.coordinates =~= numbers);
}

/// The first `count` tokens of a group are read one by one without error.
proof fn lemma_group_is_read(
    cursor: Cursor,
    tokens: Seq<TokenView>,
    numbers: Seq<OrdinateView>,
    count: nat,
)
    requires
        cursor.gives(tokens),
        is_group(tokens, numbers),
        count <= tokens.len(),
    ensures
        forall|i: nat|
            i < count ==> (#[trigger] ReaderView::start(cursor).after_steps(i)).state
                != CoordinateState::Finished && ReaderView::start(cursor).after_steps(
                i,
            ).step().error is None,
        ReaderView::start(cursor).after_steps(count).cursor == cursor.after_significant(count),
        reached(
            ReaderView::start(cursor).after_steps(count).state,
            tokens.take(count as int),
            ReaderView::start(cursor).after_steps(count).coordinates,
        ),
        (ReaderView::start(cursor).after_steps(count).state == CoordinateState::Finished)
            <==> count == tokens.len(),
        ReaderView::start(cursor).after_steps(count).coordinates.len() <= numbers.len(),
        forall|k: int|
            0 <= k < ReaderView::start(cursor).after_steps(count).coordinates.len()
                ==> #[trigger] ReaderView::start(cursor).after_steps(count).coordinates[k]
                == numbers[k],
    decreases count,
{
    let reader = ReaderView::start(cursor);
    if count > 0 {
        let before = (count - 1) as nat;
        lemma_group_is_read(cursor, tokens, numbers, before);
        let last = reader.after_steps(before);
        let token = tokens[before as int];
        lemma_token_of_group_is_accepted(
            last.state,
            tokens,
            numbers,
            before as int,
            last.coordinates,
        );
        lemma_accepted_token_fits(
            last.state,
            tokens.take(before as int),
            last.coordinates,
            token,
        );
        assert(tokens.take(count as int) =~= tokens.take(before as int).push(token));
    }
}

} // verus!
