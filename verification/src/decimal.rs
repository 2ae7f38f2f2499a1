//! Exact decimal numbers as plain values.

use vstd::prelude::*;
use vstd::string::StrSliceExecFns;
use crate::text::{
    all_digits, canonical_digits, canonical_integer, chars_of, decimal_numeral,
    fraction_digits, fraction_part, integer_numeral, integer_part, is_digit, is_digit_char,
    is_negative, is_plain_decimal, lemma_all_digits_joined, lemma_numeral_parts,
    lemma_point_found, lemma_point_index_bounds, lemma_strip_leading_zeros,
    lemma_strip_leading_zeros_joined, lemma_strip_trailing_zeros,
    lemma_strip_trailing_zeros_joined, magnitude, plain_digits, point_index,
    strip_leading_zeros, strip_trailing_zeros, zeros,
};
use crate::backend::{
    add_decimals, decimal_difference, decimal_product, decimal_quotient, decimal_sum,
    divide_decimals, format_decimal, multiply_decimals, parse_decimal, subtract_decimals,
};

verus! {

/// The largest number of characters in a significand, and the largest
/// exponent in either direction, that a [`Decimal`] holds. Sums of a few
/// such quantities fit the machine's signed word on every target.
pub const MAGNITUDE_LIMIT: usize = 0x0FFF_FFFF;

/// [`MAGNITUDE_LIMIT`] as an exponent.
pub const EXPONENT_LIMIT: isize = 0x0FFF_FFFF;

/// A decimal number: the numeral of an integer, times ten to the `exponent`.
pub struct DecimalView {
    pub significand: Seq<char>,
    pub exponent: int,
}

impl DecimalView {
    /// The number zero.
    pub open spec fn zero() -> DecimalView {
        DecimalView { significand: seq!['0'], exponent: 0 }
    }

    /// Every number has one representation: the significand of zero is `0`
    /// with exponent zero, and no other significand ends in the digit zero.
    pub open spec fn normalized(self) -> bool {
        if magnitude(self.significand) == seq!['0'] {
            self.exponent == 0
        } else {
            magnitude(self.significand).last() != '0'
        }
    }

    /// The size bounds of [`MAGNITUDE_LIMIT`].
    pub open spec fn within_limits(self) -> bool {
        &&& self.significand.len() <= MAGNITUDE_LIMIT
        &&& -(MAGNITUDE_LIMIT as int) <= self.exponent <= MAGNITUDE_LIMIT as int
    }

    /// The significand is the numeral of an integer, and the number is
    /// represented in the one way in which it can be.
    pub open spec fn canonical(self) -> bool {
        &&& canonical_integer(self.significand)
        &&& self.normalized()
    }

    /// What holds of every [`Decimal`].
    pub open spec fn well_formed(self) -> bool {
        &&& self.canonical()
        &&& self.within_limits()
    }

    pub open spec fn is_zero(self) -> bool {
        self.significand == seq!['0']
    }

    /// Whether the number is not an integer.
    pub open spec fn has_fraction(self) -> bool {
        self.exponent < 0
    }
}

/// A decimal number in transit: the two plain values that stand for it,
/// with nothing promised of them.
#[derive(Debug, PartialEq)]
pub struct Numeral {
    pub significand: String,
    pub exponent: isize,
}

impl View for Numeral {
    type V = DecimalView;

    open spec fn view(&self) -> DecimalView {
        DecimalView { significand: self.significand@, exponent: self.exponent as int }
    }
}

/// The number that a plain decimal numeral denotes.
pub open spec fn parsed(s: Seq<char>) -> DecimalView {
    let lead = strip_leading_zeros(plain_digits(s));
    let digits = strip_trailing_zeros(lead);
    if digits.len() == 0 {
        DecimalView::zero()
    } else {
        DecimalView {
            significand: if is_negative(s) {
                seq!['-'] + digits
            } else {
                digits
            },
            exponent: (lead.len() - digits.len()) - fraction_part(magnitude(s)).len(),
        }
    }
}

/// The digits that a number shows before the decimal point: those of the
/// significand, followed by zeros if the exponent is positive; or all but the
/// last `-exponent` of them; or a single zero if there are no more than that.
pub open spec fn shown_integer(v: DecimalView) -> Seq<char> {
    let m = magnitude(v.significand);
    if v.exponent >= 0 {
        m + zeros(v.exponent as nat)
    } else if m.len() > -v.exponent {
        m.take(m.len() + v.exponent)
    } else {
        seq!['0']
    }
}

/// The digits that a number shows behind the decimal point: none, and no
/// point, if the exponent is not negative; else `-exponent` digits, which are
/// the last digits of the significand, with zeros before them if it has fewer.
pub open spec fn shown_fraction(v: DecimalView) -> Option<Seq<char>> {
    let m = magnitude(v.significand);
    if v.exponent >= 0 {
        None
    } else if m.len() > -v.exponent {
        Some(m.skip(m.len() + v.exponent))
    } else {
        Some(zeros((-v.exponent - m.len()) as nat) + m)
    }
}

/// The numeral of a number in positional notation.
pub open spec fn display_text(v: DecimalView) -> Seq<char> {
    decimal_numeral(is_negative(v.significand), shown_integer(v), shown_fraction(v))
}

/// What a canonical number shows is made of digits: at least one before
/// the point, and behind it, if there is a point, `-exponent` digits of which
/// the last is not zero.
pub proof fn lemma_shown_digits(v: DecimalView)
    requires
        v.canonical(),
    ensures
        canonical_digits(shown_integer(v)),
        all_digits(fraction_digits(shown_fraction(v))),
        shown_fraction(v) is Some <==> v.exponent < 0,
        shown_fraction(v) is Some ==> shown_fraction(v).unwrap().len() == -v.exponent
            && shown_fraction(v).unwrap().last() != '0',
        is_plain_decimal(display_text(v)),
{
    let i = shown_integer(v);
    let f = fraction_digits(shown_fraction(v));
    assert forall|k: int| 0 <= k < i.len() implies is_digit(#[trigger] i[k]) by {}
    assert forall|k: int| 0 <= k < f.len() implies is_digit(#[trigger] f[k]) by {}
    lemma_numeral_parts(is_negative(v.significand), i, shown_fraction(v));
}

/// The sum of two numbers at a precision of `precision` significant digits.
pub open spec fn sum_of(a: DecimalView, b: DecimalView, precision: nat) -> DecimalView {
    let r = decimal_sum(a.significand, a.exponent, b.significand, b.exponent, precision);
    DecimalView { significand: r.0, exponent: r.1 }
}

/// The difference of two numbers at a precision of `precision` significant digits.
pub open spec fn difference_of(a: DecimalView, b: DecimalView, precision: nat) -> DecimalView {
    let r = decimal_difference(a.significand, a.exponent, b.significand, b.exponent, precision);
    DecimalView { significand: r.0, exponent: r.1 }
}

/// The product of two numbers at a precision of `precision` significant digits.
pub open spec fn product_of(a: DecimalView, b: DecimalView, precision: nat) -> DecimalView {
    let r = decimal_product(a.significand, a.exponent, b.significand, b.exponent, precision);
    DecimalView { significand: r.0, exponent: r.1 }
}

/// The quotient of two numbers at a precision of `precision` significant digits.
pub open spec fn quotient_of(a: DecimalView, b: DecimalView, precision: nat) -> DecimalView {
    let r = decimal_quotient(a.significand, a.exponent, b.significand, b.exponent, precision);
    DecimalView { significand: r.0, exponent: r.1 }
}

/// What a plain decimal numeral denotes is canonical.
pub proof fn lemma_parsed_canonical(s: Seq<char>)
    requires
        is_plain_decimal(s),
    ensures
        parsed(s).canonical(),
        parsed(s).significand.len() <= s.len(),
        -s.len() <= parsed(s).exponent <= s.len(),
        magnitude(parsed(s).significand) == integer_numeral(
            strip_trailing_zeros(strip_leading_zeros(plain_digits(s))),
        ),
        is_negative(parsed(s).significand) <==> is_negative(s) && !parsed(s).is_zero(),
{
    let body = magnitude(s);
    lemma_point_index_bounds(body);
    let all = plain_digits(s);
    lemma_all_digits_joined(integer_part(body), fraction_part(body));
    let lead = strip_leading_zeros(all);
    let digits = strip_trailing_zeros(lead);
    lemma_strip_leading_zeros(all);
    lemma_strip_trailing_zeros(lead);
    lemma_all_digits_joined(zeros((all.len() - lead.len()) as nat), lead);
    lemma_all_digits_joined(digits, zeros((lead.len() - digits.len()) as nat));
    if digits.len() > 0 && is_negative(s) {
        assert(parsed(s).significand.skip(1) =~= digits);
    }
}

/// What a plain decimal numeral denotes is well formed, if the numeral is no
/// longer than [`MAGNITUDE_LIMIT`].
pub proof fn lemma_parsed_well_formed(s: Seq<char>)
    requires
        is_plain_decimal(s),
        s.len() <= MAGNITUDE_LIMIT,
    ensures
        parsed(s).well_formed(),
{
    lemma_parsed_canonical(s);
}

/// A text that does not begin with a zero keeps something when its
/// trailing zeros are stripped.
proof fn lemma_strip_trailing_zeros_keeps(s: Seq<char>)
    requires
        s.len() > 0,
        s[0] != '0',
    ensures
        strip_trailing_zeros(s).len() > 0,
{
    lemma_strip_trailing_zeros(s);
}

/// What the number read from a numeral shows: the numeral without its
/// leading and trailing zeros, with a single zero before the point if nothing
/// else is there, and with neither a point if nothing is behind it nor a
/// sign if it is zero.
pub proof fn lemma_parsed_shows(negative: bool, integer: Seq<char>, fraction: Option<Seq<char>>)
    requires
        all_digits(integer),
        all_digits(fraction_digits(fraction)),
        integer.len() + fraction_digits(fraction).len() > 0,
    ensures
        ({
            let v = parsed(decimal_numeral(negative, integer, fraction));
            let f = strip_trailing_zeros(fraction_digits(fraction));
            &&& v.canonical()
            &&& shown_integer(v) == integer_numeral(integer)
            &&& shown_fraction(v) == if f.len() > 0 {
                Some(f)
            } else {
                None
            }
            &&& v.is_zero() <==> strip_leading_zeros(integer).len() == 0 && f.len() == 0
            &&& is_negative(v.significand) <==> negative && !v.is_zero()
        }),
{
    let fd = fraction_digits(fraction);
    lemma_numeral_parts(negative, integer, fraction);
    lemma_parsed_canonical(decimal_numeral(negative, integer, fraction));
    let i1 = strip_leading_zeros(integer);
    let f1 = strip_trailing_zeros(fd);
    let lead = strip_leading_zeros(integer + fd);
    lemma_strip_leading_zeros_joined(integer, fd);
    lemma_strip_leading_zeros(integer);
    lemma_strip_leading_zeros(fd);
    lemma_strip_trailing_zeros(fd);
    lemma_strip_trailing_zeros(lead);
    if i1.len() > 0 {
        lemma_strip_trailing_zeros_joined(i1, fd);
        if f1.len() == 0 {
            lemma_strip_trailing_zeros(i1);
            lemma_strip_trailing_zeros_keeps(i1);
        }
    } else {
        let g = strip_leading_zeros(fd);
        if g.len() == 0 {
            // Nothing but zeros stands behind the point.
            if f1.len() > 0 {
                assert(f1.last() == fd[f1.len() - 1]);
            }
        } else {
            let z = (fd.len() - g.len()) as nat;
            lemma_strip_trailing_zeros_joined(zeros(z), g);
            lemma_strip_trailing_zeros_keeps(g);
        }
    }
}

/// The numeral `0` denotes zero.
pub proof fn lemma_parsed_zero()
    ensures
        parsed(seq!['0']) == DecimalView::zero(),
{
    let s = seq!['0'];
    lemma_numeral_parts(false, s, None);
    reveal_with_fuel(strip_leading_zeros, 2);
}

/// An exact decimal number of any size within [`MAGNITUDE_LIMIT`].
#[derive(Debug, PartialEq)]
pub struct Decimal {
    numeral: Numeral,
}

impl View for Decimal {
    type V = DecimalView;

    closed spec fn view(&self) -> DecimalView {
        self.numeral@
    }
}

impl Clone for Decimal {
    fn clone(&self) -> (r: Self)
        ensures
            r@ == self@,
    {
        proof {
            use_type_invariant(self);
        }
        Decimal {
            numeral: Numeral {
                significand: self.numeral.significand.clone(),
                exponent: self.numeral.exponent,
            },
        }
    }
}

impl Decimal {
    #[verifier::type_invariant]
    spec fn type_invariant(self) -> bool {
        self@.well_formed()
    }

    /// The number that the two plain values of `n` stand for, if they are
    /// well formed.
    pub fn from_numeral(n: Numeral) -> (r: Option<Decimal>)
        ensures
            r is Some <==> n@.well_formed(),
            r is Some ==> r.unwrap()@ == n@,
    {
        if is_well_formed(&n) {
            Some(Decimal { numeral: n })
        } else {
            None
        }
    }

    /// The number zero.
    pub fn zero() -> (r: Decimal)
        ensures
            r@ == DecimalView::zero(),
    {
        let significand = String::from_str("0");
        proof {
            reveal_strlit("0");
            assert(significand@ =~= seq!['0']);
        }
        Decimal { numeral: Numeral { significand, exponent: 0 } }
    }

    /// Reads a plain decimal numeral of at most [`MAGNITUDE_LIMIT`]
    /// characters; anything else is refused.
    pub fn parse(text: &str) -> (r: Option<Decimal>)
        ensures
            r is Some <==> is_plain_decimal(text@) && text@.len() <= MAGNITUDE_LIMIT,
            r is Some ==> r.unwrap()@ == parsed(text@),
    {
        if text.unicode_len() > MAGNITUDE_LIMIT || !is_plain(text) {
            return None;
        }
        match parse_decimal(text) {
            Some(n) => {
                proof {
                    lemma_parsed_well_formed(text@);
                }
                Some(Decimal { numeral: n })
            },
            None => None,
        }
    }

    /// The numeral of this number in positional notation.
    pub fn to_text(&self) -> (r: String)
        ensures
            r@ == display_text(self@),
            self@.well_formed(),
    {
        proof {
            use_type_invariant(self);
        }
        format_decimal(&self.numeral)
    }

    pub fn is_zero(&self) -> (r: bool)
        ensures
            r == self@.is_zero(),
            self@.well_formed(),
            r ==> self@ == DecimalView::zero(),
    {
        proof {
            use_type_invariant(self);
            reveal_strlit("0");
        }
        let s = self.numeral.significand.as_str();
        s.unicode_len() == 1 && s.get_char(0) == '0'
    }

    /// Whether the number is not an integer.
    pub fn has_fraction(&self) -> (r: bool)
        ensures
            r == self@.has_fraction(),
    {
        self.numeral.exponent < 0
    }

    /// The sum `self + other` at a precision of `precision` significant
    /// digits; `None` if no `Decimal` can hold it.
    pub fn sum(&self, other: &Decimal, precision: usize) -> (r: Option<Decimal>)
        requires
            0 < precision <= MAGNITUDE_LIMIT,
        ensures
            r is Some <==> sum_of(self@, other@, precision as nat).well_formed(),
            r is Some ==> r.unwrap()@ == sum_of(self@, other@, precision as nat),
    {
        proof {
            use_type_invariant(self);
            use_type_invariant(other);
        }
        Decimal::from_numeral(add_decimals(&self.numeral, &other.numeral, precision))
    }

    /// The difference `self - other` at a precision of `precision`
    /// significant digits; `None` if no `Decimal` can hold it.
    pub fn difference(&self, other: &Decimal, precision: usize) -> (r: Option<Decimal>)
        requires
            0 < precision <= MAGNITUDE_LIMIT,
        ensures
            r is Some <==> difference_of(self@, other@, precision as nat).well_formed(),
            r is Some ==> r.unwrap()@ == difference_of(self@, other@, precision as nat),
    {
        proof {
            use_type_invariant(self);
            use_type_invariant(other);
        }
        Decimal::from_numeral(subtract_decimals(&self.numeral, &other.numeral, precision))
    }

    /// The product `self * other` at a precision of `precision` significant
    /// digits; `None` if no `Decimal` can hold it.
    pub fn product(&self, other: &Decimal, precision: usize) -> (r: Option<Decimal>)
        requires
            0 < precision <= MAGNITUDE_LIMIT,
        ensures
            r is Some <==> product_of(self@, other@, precision as nat).well_formed(),
            r is Some ==> r.unwrap()@ == product_of(self@, other@, precision as nat),
    {
        proof {
            use_type_invariant(self);
            use_type_invariant(other);
        }
        Decimal::from_numeral(multiply_decimals(&self.numeral, &other.numeral, precision))
    }

    /// The quotient `self / other` at a precision of `precision` significant
    /// digits; `None` if no `Decimal` can hold it.
    pub fn quotient(&self, other: &Decimal, precision: usize) -> (r: Option<Decimal>)
        requires
            0 < precision <= MAGNITUDE_LIMIT,
            !other@.is_zero(),
        ensures
            r is Some <==> quotient_of(self@, other@, precision as nat).well_formed(),
            r is Some ==> r.unwrap()@ == quotient_of(self@, other@, precision as nat),
    {
        proof {
            use_type_invariant(self);
            use_type_invariant(other);
        }
        Decimal::from_numeral(divide_decimals(&self.numeral, &other.numeral, precision))
    }
}

/// Whether the two plain values of `n` are well formed.
pub fn is_well_formed(n: &Numeral) -> (r: bool)
    ensures
        r == n@.well_formed(),
{
    let s = chars_of(n.significand.as_str());
    let len = s.len();
    if len == 0 || len > MAGNITUDE_LIMIT || n.exponent < -EXPONENT_LIMIT || n.exponent
        > EXPONENT_LIMIT {
        return false;
    }
    let start: usize = if s[0] == '-' {
        1
    } else {
        0
    };
    let ghost m = magnitude(s@);
    if len == start {
        return false;
    }
    let first = s[start];
    let last = s[len - 1];
    assert(m[0] == first && m.last() == last);
    if first == '0' {
        // The numeral of zero, and of nothing else, begins with the digit zero.
        proof {
            if len - start == 1 {
                assert(m =~= seq!['0']);
            }
        }
        return len - start == 1 && start == 0 && n.exponent == 0;
    }
    if last == '0' {
        return false;
    }
    let mut i: usize = start;
    while i < len
        invariant
            start <= i <= len,
            len == s@.len(),
            m == s@.skip(start as int),
            m == magnitude(n@.significand),
            forall|k: int| 0 <= k < i - start ==> is_digit(#[trigger] m[k]),
        decreases len - i,
    {
        let c = s[i];
        assert(m[i - start] == c);
        if !is_digit_char(c) {
            return false;
        }
        i += 1;
    }
    true
}

/// Whether `text` is a plain decimal numeral.
pub fn is_plain(text: &str) -> (r: bool)
    ensures
        r == is_plain_decimal(text@),
{
    let chars = chars_of(text);
    let n = chars.len();
    let start: usize = if n > 0 && chars[0] == '-' {
        1
    } else {
        0
    };
    let ghost body = magnitude(text@);
    // The digits before the decimal point.
    let mut i: usize = start;
    while i < n && is_digit_char(chars[i])
        invariant
            start <= i <= n,
            n == text@.len(),
            chars@ == text@,
            body == text@.skip(start as int),
            forall|k: int| 0 <= k < i - start ==> is_digit(#[trigger] body[k]),
        decreases n - i,
    {
        i += 1;
    }
    if i == n {
        proof {
            lemma_point_found(body, body.len() as int);
        }
        return n > start;
    }
    if chars[i] != '.' {
        proof {
            lemma_point_index_bounds(body);
            if point_index(body) >= i - start {
                assert(integer_part(body)[i - start] == body[i - start]);
            }
        }
        return false;
    }
    proof {
        lemma_point_found(body, i - start);
    }
    // The digits behind it.
    let point = i;
    let ghost fraction = fraction_part(body);
    i += 1;
    while i < n
        invariant
            point < i <= n,
            n == text@.len(),
            chars@ == text@,
            fraction == text@.skip(point + 1),
            fraction == fraction_part(magnitude(text@)),
            forall|k: int| 0 <= k < i - point - 1 ==> is_digit(#[trigger] fraction[k]),
        decreases n - i,
    {
        assert(fraction[i - point - 1] == text@[i as int]);
        if !is_digit_char(chars[i]) {
            return false;
        }
        i += 1;
    }
    n - start > 1
}

} // verus!
