//! The number that is being typed: a decimal value, and what of its numeral
//! the value cannot hold: a decimal point with nothing behind it, and zeros
//! typed behind the last digit of the fraction.

use vstd::prelude::*;
use vstd::string::StringExecFns;
use crate::decimal::{
    lemma_parsed_shows, lemma_parsed_zero, lemma_shown_digits, parsed, shown_fraction, shown_integer, Decimal,
    DecimalView, MAGNITUDE_LIMIT,
};
use crate::text::{
    all_digits, canonical_digits, decimal_numeral, ends_in_point, fraction_digits,
    fraction_part, fraction_shape, integer_numeral, integer_part, is_negative, is_plain_decimal,
    lemma_all_digits_joined, lemma_numeral_parts, lemma_point_index_bounds,
    lemma_strip_trailing_zeros, magnitude, point_index, strip_trailing_zeros, trailing_zeros,
    zeros,
};

verus! {

/// The mathematical content of a [`NumericValue`].
pub struct EntryView {
    /// The number.
    pub value: DecimalView,
    /// Whether the decimal point was typed last.
    pub comma: bool,
    /// How many zeros were typed behind the last digit of the fraction that
    /// is not zero or, where there is none, behind the decimal point.
    pub zeros: nat,
}

impl EntryView {
    /// Zero, as no input has touched it.
    pub open spec fn zero() -> EntryView {
        EntryView { value: DecimalView::zero(), comma: false, zeros: 0 }
    }

    /// `value`, with nothing typed behind it.
    pub open spec fn plain(value: DecimalView) -> EntryView {
        EntryView { value, comma: false, zeros: 0 }
    }

    /// Whether the value has digits behind the decimal point.
    pub open spec fn is_float(self) -> bool {
        self.value.has_fraction()
    }

    /// What the entry shows behind the decimal point: the fraction of the
    /// value followed by the zeros typed behind it; nothing, but with the
    /// point, if only the point was typed; and neither without any of these.
    pub open spec fn fraction(self) -> Option<Seq<char>> {
        if self.is_float() || self.comma || self.zeros > 0 {
            Some(fraction_digits(shown_fraction(self.value)) + zeros(self.zeros))
        } else {
            None
        }
    }

    /// The minus sign or none, the digits before the point, and the point
    /// with the digits behind it or neither, of which the text is made.
    pub open spec fn parts(self) -> (bool, Seq<char>, Option<Seq<char>>) {
        (is_negative(self.value.significand), shown_integer(self.value), self.fraction())
    }

    /// What the entry shows.
    pub open spec fn text(self) -> Seq<char> {
        decimal_numeral(self.parts().0, self.parts().1, self.parts().2)
    }

    pub open spec fn canonical(self) -> bool {
        self.value.canonical()
    }

    pub open spec fn well_formed(self) -> bool {
        self.value.well_formed()
    }

    /// The entry that a numeral is read as: the number that it denotes,
    /// with the zeros that end its fraction, and with the mark of the point
    /// if the numeral ends in one.
    pub open spec fn reading(s: Seq<char>) -> EntryView {
        EntryView { value: parsed(s), comma: ends_in_point(s), zeros: trailing_zeros(s) }
    }

    /// What the entry shows is a plain decimal numeral.
    pub proof fn lemma_text_parts(self)
        requires
            self.canonical(),
        ensures
            canonical_digits(self.parts().1),
            all_digits(fraction_digits(self.parts().2)),
            is_plain_decimal(self.text()),
    {
        lemma_shown_digits(self.value);
        let (negative, integer, fraction) = self.parts();
        lemma_all_digits_joined(fraction_digits(shown_fraction(self.value)), zeros(self.zeros));
        lemma_numeral_parts(negative, integer, fraction);
    }

    /// Digits written behind what the entry shows go behind the last digit
    /// of the numeral: into the fraction if there is a point, else into the
    /// integer part.
    pub proof fn lemma_text_with_digits(self, digits: Seq<char>)
        requires
            self.canonical(),
            all_digits(digits),
        ensures
            self.text() + digits == decimal_numeral(
                self.parts().0,
                if self.parts().2 is Some {
                    self.parts().1
                } else {
                    self.parts().1 + digits
                },
                if self.parts().2 is Some {
                    Some(self.parts().2.unwrap() + digits)
                } else {
                    None
                },
            ),
            is_plain_decimal(self.text() + digits),
    {
        self.lemma_text_parts();
        let (negative, integer, fraction) = self.parts();
        let integer2 = if fraction is Some {
            integer
        } else {
            integer + digits
        };
        let fraction2 = if fraction is Some {
            Some(fraction.unwrap() + digits)
        } else {
            None
        };
        lemma_all_digits_joined(integer, digits);
        lemma_all_digits_joined(fraction_digits(fraction), digits);
        assert(self.text() + digits =~= decimal_numeral(negative, integer2, fraction2));
        lemma_numeral_parts(negative, integer2, fraction2);
    }

    /// A numeral is read as an entry that shows it again: without the
    /// leading zeros of its integer part, and without the sign if it
    /// denotes zero, but with every digit behind the point.
    pub proof fn lemma_reading_parts(
        negative: bool,
        integer: Seq<char>,
        fraction: Option<Seq<char>>,
    )
        requires
            all_digits(integer),
            all_digits(fraction_digits(fraction)),
            integer.len() + fraction_digits(fraction).len() > 0,
        ensures
            ({
                let e = Self::reading(decimal_numeral(negative, integer, fraction));
                &&& e.canonical()
                &&& e.parts() == (
                    negative && !e.value.is_zero(),
                    integer_numeral(integer),
                    fraction,
                )
            }),
    {
        let s = decimal_numeral(negative, integer, fraction);
        let e = Self::reading(s);
        let f = fraction_digits(fraction);
        lemma_numeral_parts(negative, integer, fraction);
        lemma_parsed_shows(negative, integer, fraction);
        lemma_strip_trailing_zeros(f);
        lemma_shown_digits(e.value);
        let kept = strip_trailing_zeros(f);
        assert(fraction_part(magnitude(s)) == f);
        assert(e.zeros == f.len() - kept.len());
        assert(fraction_digits(shown_fraction(e.value)) == kept);
        assert(e.is_float() <==> kept.len() > 0);
        lemma_point_index_bounds(magnitude(s));
        match fraction {
            Some(_) => {
                assert(point_index(magnitude(s)) == integer.len());
                assert(e.comma <==> f.len() == 0);
                assert(e.fraction() is Some);
                assert(e.fraction().unwrap() =~= f);
            },
            None => {
                assert(magnitude(s) =~= integer);
                assert(integer_part(magnitude(s)).len() == point_index(magnitude(s)));
                assert(!e.comma);
                assert(e.fraction() is None);
            },
        }
    }
}

/// The numeral `0` is read as zero, as no input has touched it.
pub proof fn lemma_reading_zero()
    ensures
        EntryView::reading(seq!['0']) == EntryView::zero(),
{
    let s = seq!['0'];
    lemma_parsed_zero();
    lemma_numeral_parts(false, s, None);
    assert(decimal_numeral(false, s, None) =~= s);
    lemma_point_index_bounds(magnitude(s));
    assert(fraction_part(magnitude(s)) =~= Seq::<char>::empty());
}

/// A decimal value together with what was typed behind it.
#[derive(Debug, PartialEq)]
pub struct NumericValue {
    value: Decimal,
    comma: bool,
    zeros: usize,
}

impl View for NumericValue {
    type V = EntryView;

    closed spec fn view(&self) -> EntryView {
        EntryView { value: self.value@, comma: self.comma, zeros: self.zeros as nat }
    }
}

impl Clone for NumericValue {
    fn clone(&self) -> (r: Self)
        ensures
            r@ == self@,
    {
        NumericValue { value: self.value.clone(), comma: self.comma, zeros: self.zeros }
    }
}

impl Default for NumericValue {
    fn default() -> (r: Self)
        ensures
            r@ == EntryView::zero(),
    {
        NumericValue { value: Decimal::zero(), comma: false, zeros: 0 }
    }
}

impl NumericValue {
    /// An entry of `value` with nothing typed behind it.
    pub fn new(value: Decimal) -> (r: Self)
        ensures
            r@ == EntryView::plain(value@),
    {
        NumericValue { value, comma: false, zeros: 0 }
    }

    /// An entry of `value` with the decimal point typed behind it.
    pub fn new_with_comma(value: Decimal) -> (r: Self)
        ensures
            r@ == (EntryView { value: value@, comma: true, zeros: 0 }),
    {
        NumericValue { value, comma: true, zeros: 0 }
    }

    /// Reads a plain decimal numeral of at most [`MAGNITUDE_LIMIT`]
    /// characters as an entry; anything else is refused.
    pub fn read(text: &str) -> (r: Option<Self>)
        ensures
            r is Some <==> is_plain_decimal(text@) && text@.len() <= MAGNITUDE_LIMIT,
            r is Some ==> r.unwrap()@ == EntryView::reading(text@),
    {
        match Decimal::parse(text) {
            Some(value) => {
                let (comma, zeros) = fraction_shape(text);
                Some(NumericValue { value, comma, zeros })
            },
            None => None,
        }
    }

    /// Whether the value has digits behind the decimal point.
    pub fn is_float(&self) -> (r: bool)
        ensures
            r == self@.is_float(),
    {
        self.value.has_fraction()
    }

    /// The decimal value.
    pub fn val(&self) -> (r: &Decimal)
        ensures
            r@ == self@.value,
    {
        &self.value
    }

    /// Whether the decimal point was typed last.
    pub fn has_comma(&self) -> (r: bool)
        ensures
            r == self@.comma,
    {
        self.comma
    }

    /// How many zeros were typed behind the fraction.
    pub fn trailing_zeros(&self) -> (r: usize)
        ensures
            r == self@.zeros,
    {
        self.zeros
    }

    /// The same entry with the decimal point typed behind it.
    pub fn with_comma(&self) -> (r: Self)
        ensures
            r@ == (EntryView { comma: true, ..self@ }),
    {
        NumericValue { value: self.value.clone(), comma: true, zeros: self.zeros }
    }

    /// Whether this is zero as no input has touched it.
    pub fn is_default(&self) -> (r: bool)
        ensures
            r == (self@ == EntryView::zero()),
            self@.well_formed(),
    {
        let zero = self.value.is_zero();
        zero && !self.comma && self.zeros == 0
    }

    /// What the entry shows.
    pub fn to_text(&self) -> (r: String)
        ensures
            r@ == self@.text(),
            self@.well_formed(),
    {
        let mut text = self.value.to_text();
        proof {
            lemma_shown_digits(self@.value);
            reveal_strlit(".");
        }
        if !self.is_float() && (self.comma || self.zeros > 0) {
            text.append(".");
        }
        let ghost pointed = text@;
        assert(pointed + zeros(self.zeros as nat) =~= self@.text());
        let mut i: usize = 0;
        while i < self.zeros
            invariant
                i <= self.zeros,
                text@ == pointed + zeros(i as nat),
                pointed + zeros(self.zeros as nat) == self@.text(),
            decreases self.zeros - i,
        {
            let ghost before = text@;
            text.append("0");
            i += 1;
            proof {
                reveal_strlit("0");
                assert(before + "0"@ =~= pointed + zeros(i as nat));
            }
        }
        text
    }
}

} // verus!
