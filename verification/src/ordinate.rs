//! The numbers of a coordinate. A number is kept as it is written in the
//! text: a run of decimal digits with at most one decimal point.

use vstd::prelude::*;
use vstd::string::*;
use vstd::std_specs::iter::IteratorSpec;

use crate::char_class::is_decimal_digit;
use crate::tokenizer::Token;

verus! {

/// Whether `text` is a decimal number: digits and at most one decimal
/// point, with a digit among them. The point may come first or last.
pub open spec fn is_number(text: Seq<char>) -> bool {
    &&& forall|i: int|
        0 <= i < text.len() ==> is_decimal_digit(#[trigger] text[i]) || text[i] == '.'
    &&& exists|i: int| 0 <= i < text.len() && is_decimal_digit(#[trigger] text[i])
    &&& forall|i: int, j: int|
        0 <= i < j < text.len() ==> !(#[trigger] text[i] == '.' && #[trigger] text[j] == '.')
}

/// One number of a coordinate, as it is written in the text, with the
/// offset in bytes at which it is written.
#[derive(Debug, PartialEq, Eq, Clone, Copy)]
pub struct Ordinate<'s> {
    index: usize,
    text: &'s str,
}

/// The mathematical value of an [`Ordinate`].
pub struct OrdinateView {
    pub index: nat,
    pub text: Seq<char>,
}

impl<'s> View for Ordinate<'s> {
    type V = OrdinateView;

    closed spec fn view(&self) -> OrdinateView {
        OrdinateView { index: self.index as nat, text: self.text@ }
    }
}

impl<'s> Ordinate<'s> {
    #[verifier::type_invariant]
    spec fn well_formed(self) -> bool {
        is_number(self.text@)
    }

    /// The number that `token` is, or `None` where its text is none.
    pub fn of(token: &Token<'s>) -> (r: Option<Self>)
        ensures
            r is Some <==> is_number(token@.value),
            r matches Some(ordinate) ==> ordinate@ == (OrdinateView {
                index: token@.index,
                text: token@.value,
            }),
    {
        let text = token.value;
        let index = token.index;
        let ghost s = text@;
        let mut chars = text.chars();
        let mut digits = false;
        let mut points = false;
        let ghost mut count: int = 0;
        let ghost mut digit_at: int = 0;
        let ghost mut point_at: int = 0;
        loop
            invariant
                0 <= count <= s.len(),
                chars.remaining() == s.skip(count),
                forall|i: int|
                    0 <= i < count ==> is_decimal_digit(#[trigger] s[i]) || s[i] == '.',
                digits ==> 0 <= digit_at < count && is_decimal_digit(s[digit_at]),
                !digits ==> forall|i: int| 0 <= i < count ==> !is_decimal_digit(#[trigger] s[i]),
                points ==> 0 <= point_at < count && s[point_at] == '.',
                points ==> forall|i: int| 0 <= i < count && i != point_at ==> #[trigger] s[i] != '.',
                !points ==> forall|i: int| 0 <= i < count ==> #[trigger] s[i] != '.',
                s == text@,
                text@ == token@.value,
                index == token@.index,
            decreases s.len() - count,
        {
            match chars.next() {
                None => {
                    if digits {
                        return Some(Ordinate { index, text });
                    } else {
                        return None;
                    }
                },
                Some(c) => {
                    if c == '.' {
                        if points {
                            return None;
                        }
                        points = true;
                        proof {
                            point_at = count;
                        }
                    } else if c >= '0' && c <= '9' {
                        digits = true;
                        proof {
                            digit_at = count;
                        }
                    } else {
                        return None;
                    }
                    proof {
                        count = count + 1;
                    }
                },
            }
        }
    }

    /// The number as it is written.
    pub fn as_str(&self) -> (text: &'s str)
        ensures
            text@ == self@.text,
            is_number(text@),
    {
        proof {
            use_type_invariant(self);
        }
        self.text
    }

    /// The offset in bytes at which the number is written.
    pub fn index(&self) -> (index: usize)
        ensures
            index == self@.index,
    {
        self.index
    }
}

/// A pair of numbers: the place of one point.
#[derive(Debug, PartialEq, Eq, Clone, Copy)]
pub struct Coordinate<'s> {
    pub x: Ordinate<'s>,
    pub y: Ordinate<'s>,
}

/// The mathematical value of a [`Coordinate`].
pub struct CoordinateView {
    pub x: OrdinateView,
    pub y: OrdinateView,
}

impl<'s> View for Coordinate<'s> {
    type V = CoordinateView;

    open spec fn view(&self) -> CoordinateView {
        CoordinateView { x: self.x@, y: self.y@ }
    }
}

/// The mathematical values of `coordinates`.
pub open spec fn coordinate_views(coordinates: Seq<Coordinate<'_>>) -> Seq<CoordinateView> {
    coordinates.map_values(|coordinate: Coordinate<'_>| coordinate@)
}

/// The mathematical values of `rings`.
pub open spec fn ring_views(rings: Seq<Vec<Coordinate<'_>>>) -> Seq<Seq<CoordinateView>> {
    rings.map_values(|ring: Vec<Coordinate<'_>>| coordinate_views(ring@))
}

/// The mathematical values of `polygons`.
pub open spec fn polygon_views(polygons: Seq<Vec<Vec<Coordinate<'_>>>>) -> Seq<
    Seq<Seq<CoordinateView>>,
> {
    polygons.map_values(|polygon: Vec<Vec<Coordinate<'_>>>| ring_views(polygon@))
}

} // verus!
