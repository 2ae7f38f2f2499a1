//! Digit strings: the vocabulary in which decimal numerals are described.
//!
//! Everything here is about sequences of characters; no integer arithmetic on
//! the numbers that the digits denote is needed anywhere in this crate.

use vstd::prelude::*;
use vstd::std_specs::iter::IteratorSpec;
use vstd::string::StringExecFns;

verus! {

/// Whether `c` is one of the ten decimal digits.
pub open spec fn is_digit(c: char) -> bool {
    '0' <= c && c <= '9'
}

/// Whether every character of `s` is a decimal digit.
pub open spec fn all_digits(s: Seq<char>) -> bool {
    forall|i: int| 0 <= i < s.len() ==> is_digit(#[trigger] s[i])
}

/// `n` copies of the digit zero.
pub open spec fn zeros(n: nat) -> Seq<char> {
    Seq::new(n, |i: int| '0')
}

/// `s` without its leading zeros.
pub open spec fn strip_leading_zeros(s: Seq<char>) -> Seq<char>
    decreases s.len(),
{
    if s.len() > 0 && s[0] == '0' {
        strip_leading_zeros(s.skip(1))
    } else {
        s
    }
}

/// `s` without its trailing zeros.
pub open spec fn strip_trailing_zeros(s: Seq<char>) -> Seq<char>
    decreases s.len(),
{
    if s.len() > 0 && s.last() == '0' {
        strip_trailing_zeros(s.drop_last())
    } else {
        s
    }
}

/// The decimal digit that stands for `d`, for `d` below ten.
pub open spec fn digit_char(d: nat) -> char {
    if d == 0 {
        '0'
    } else if d == 1 {
        '1'
    } else if d == 2 {
        '2'
    } else if d == 3 {
        '3'
    } else if d == 4 {
        '4'
    } else if d == 5 {
        '5'
    } else if d == 6 {
        '6'
    } else if d == 7 {
        '7'
    } else if d == 8 {
        '8'
    } else {
        '9'
    }
}

/// The decimal numeral of `n`, without leading zeros.
pub open spec fn nat_text(n: nat) -> Seq<char>
    decreases n,
{
    if n < 10 {
        seq![digit_char(n)]
    } else {
        nat_text(n / 10).push(digit_char(n % 10))
    }
}

/// Whether `s` starts with a minus sign.
pub open spec fn is_negative(s: Seq<char>) -> bool {
    s.len() > 0 && s[0] == '-'
}

/// `s` without its minus sign, if it has one.
pub open spec fn magnitude(s: Seq<char>) -> Seq<char> {
    if is_negative(s) {
        s.skip(1)
    } else {
        s
    }
}

/// A numeral of a natural number as it is written in full: at least one
/// digit, and no leading zero but in the numeral `0` itself.
pub open spec fn canonical_digits(m: Seq<char>) -> bool {
    &&& m.len() > 0
    &&& all_digits(m)
    &&& m.len() > 1 ==> m[0] != '0'
}

/// A numeral of an integer: a canonical numeral of its magnitude, with a
/// minus sign in front if it is below zero. Zero has no sign.
pub open spec fn canonical_integer(s: Seq<char>) -> bool {
    &&& canonical_digits(magnitude(s))
    &&& is_negative(s) ==> magnitude(s) != seq!['0']
}

/// The place of the first decimal point in `s`, or the length of `s` if it
/// has none.
pub open spec fn point_index(s: Seq<char>) -> int
    decreases s.len(),
{
    if s.len() == 0 || s[0] == '.' {
        0
    } else {
        1 + point_index(s.skip(1))
    }
}

/// What stands before the first decimal point of `s`.
pub open spec fn integer_part(s: Seq<char>) -> Seq<char> {
    s.take(point_index(s))
}

/// What stands behind the first decimal point of `s`; empty if there is none.
pub open spec fn fraction_part(s: Seq<char>) -> Seq<char> {
    if point_index(s) < s.len() {
        s.skip(point_index(s) + 1)
    } else {
        Seq::empty()
    }
}

/// A plain decimal numeral: an optional minus sign, then digits with at most
/// one decimal point among them, before them or behind them, and at least one
/// digit in all. `12`, `-0.5`, `3.` and `.25` are plain; `+1`, `1e5`, `1_000`,
/// `.` and the empty text are not.
pub open spec fn is_plain_decimal(s: Seq<char>) -> bool {
    let body = magnitude(s);
    &&& all_digits(integer_part(body))
    &&& all_digits(fraction_part(body))
    &&& integer_part(body).len() + fraction_part(body).len() > 0
}

/// The digits of a plain decimal numeral, the decimal point left out.
pub open spec fn plain_digits(s: Seq<char>) -> Seq<char> {
    integer_part(magnitude(s)) + fraction_part(magnitude(s))
}

/// The first decimal point is where [`point_index`] says, and nothing
/// before it is one.
pub proof fn lemma_point_index_bounds(s: Seq<char>)
    ensures
        0 <= point_index(s) <= s.len(),
        point_index(s) < s.len() ==> s[point_index(s)] == '.',
        forall|i: int| 0 <= i < point_index(s) ==> #[trigger] s[i] != '.',
    decreases s.len(),
{
    if s.len() == 0 || s[0] == '.' {
    } else {
        lemma_point_index_bounds(s.skip(1));
        assert forall|i: int| 0 <= i < point_index(s) implies #[trigger] s[i] != '.' by {
            if i > 0 {
                assert(s[i] == s.skip(1)[i - 1]);
            }
        }
    }
}

/// Characterises the first decimal point: it is at `p` if `p` holds one and
/// nothing before `p` does.
pub proof fn lemma_point_index_is(s: Seq<char>, p: int)
    requires
        0 <= p <= s.len(),
        p < s.len() ==> s[p] == '.',
        forall|i: int| 0 <= i < p ==> #[trigger] s[i] != '.',
    ensures
        point_index(s) == p,
    decreases s.len(),
{
    if s.len() == 0 || s[0] == '.' {
    } else {
        let t = s.skip(1);
        assert forall|i: int| 0 <= i < p - 1 implies #[trigger] t[i] != '.' by {
            assert(t[i] == s[i + 1]);
        }
        lemma_point_index_is(t, p - 1);
    }
}

/// The first decimal point of `body` is at `p` (or there is none, and `p` is
/// its length) if everything before `p` is a digit.
pub proof fn lemma_point_found(body: Seq<char>, p: int)
    requires
        0 <= p <= body.len(),
        p < body.len() ==> body[p] == '.',
        forall|k: int| 0 <= k < p ==> is_digit(#[trigger] body[k]),
    ensures
        point_index(body) == p,
        integer_part(body) == body.take(p),
        all_digits(integer_part(body)),
{
    assert forall|k: int| 0 <= k < p implies #[trigger] body[k] != '.' by {}
    lemma_point_index_is(body, p);
}

/// A decimal numeral put together from its parts: a minus sign or none, the
/// digits before the decimal point, and the point with the digits behind it
/// or neither.
pub open spec fn decimal_numeral(
    negative: bool,
    integer: Seq<char>,
    fraction: Option<Seq<char>>,
) -> Seq<char> {
    let sign: Seq<char> = if negative {
        seq!['-']
    } else {
        Seq::empty()
    };
    match fraction {
        Some(f) => sign + integer + seq!['.'] + f,
        None => sign + integer,
    }
}

/// The digits behind the point, if there are any.
pub open spec fn fraction_digits(fraction: Option<Seq<char>>) -> Seq<char> {
    match fraction {
        Some(f) => f,
        None => Seq::empty(),
    }
}

/// A numeral put together from digits falls apart into the same parts.
pub proof fn lemma_numeral_parts(negative: bool, integer: Seq<char>, fraction: Option<Seq<char>>)
    requires
        all_digits(integer),
        all_digits(fraction_digits(fraction)),
    ensures
        is_negative(decimal_numeral(negative, integer, fraction)) == negative,
        magnitude(decimal_numeral(negative, integer, fraction)) == decimal_numeral(
            false,
            integer,
            fraction,
        ),
        integer_part(magnitude(decimal_numeral(negative, integer, fraction))) == integer,
        fraction_part(magnitude(decimal_numeral(negative, integer, fraction))) == fraction_digits(
            fraction,
        ),
        plain_digits(decimal_numeral(negative, integer, fraction)) == integer + fraction_digits(
            fraction,
        ),
        is_plain_decimal(decimal_numeral(negative, integer, fraction)) <==> integer.len()
            + fraction_digits(fraction).len() > 0,
{
    let s = decimal_numeral(negative, integer, fraction);
    let body = decimal_numeral(false, integer, fraction);
    if !negative && s.len() > 0 {
        if integer.len() > 0 {
            assert(s[0] == integer[0]);
            assert(is_digit(integer[0]));
        } else {
            assert(s[0] == '.');
        }
    }
    assert(magnitude(s) =~= body);
    assert forall|k: int| 0 <= k < integer.len() implies is_digit(#[trigger] body[k]) by {
        assert(body[k] == integer[k]);
    }
    lemma_point_found(body, integer.len() as int);
    assert(integer_part(body) =~= integer);
    assert(fraction_part(body) =~= fraction_digits(fraction));
}

/// The numeral of a natural number is made of digits.
pub proof fn lemma_nat_text_digits(n: nat)
    ensures
        all_digits(nat_text(n)),
        nat_text(n).len() > 0,
    decreases n,
{
    if n >= 10 {
        lemma_nat_text_digits(n / 10);
    }
}

/// Ten to the `k`.
pub open spec fn power_of_ten(k: nat) -> nat
    decreases k,
{
    if k == 0 {
        1
    } else {
        10 * power_of_ten((k - 1) as nat)
    }
}

/// A number below ten to the `k` has a numeral of at most `k` digits.
pub proof fn lemma_nat_text_len(n: nat, k: nat)
    requires
        k > 0,
        n < power_of_ten(k),
    ensures
        nat_text(n).len() <= k,
    decreases k,
{
    if n >= 10 {
        assert(k > 1) by {
            reveal_with_fuel(power_of_ten, 2);
        }
        lemma_nat_text_len(n / 10, (k - 1) as nat);
    }
}

/// The numeral of a machine word has at most twenty digits.
pub proof fn lemma_word_text_len(n: usize)
    ensures
        nat_text(n as nat).len() <= 20,
{
    assert(power_of_ten(20) == 100_000_000_000_000_000_000) by {
        reveal_with_fuel(power_of_ten, 21);
    }
    lemma_nat_text_len(n as nat, 20);
}

/// The numeral of the natural number that the digits `s` denote: `s` without
/// its leading zeros, or `0` if nothing else is in it.
pub open spec fn integer_numeral(s: Seq<char>) -> Seq<char> {
    if strip_leading_zeros(s).len() == 0 {
        seq!['0']
    } else {
        strip_leading_zeros(s)
    }
}

/// A numeral written in full is the numeral of the number that it denotes.
pub proof fn lemma_integer_numeral_canonical(s: Seq<char>)
    requires
        canonical_digits(s),
    ensures
        integer_numeral(s) == s,
{
    if s[0] == '0' {
        reveal_with_fuel(strip_leading_zeros, 2);
    }
}

/// Leading zeros are stripped from the first of two joined texts, and from
/// the second only if nothing of the first is left.
pub proof fn lemma_strip_leading_zeros_joined(a: Seq<char>, b: Seq<char>)
    ensures
        strip_leading_zeros(a + b) == if strip_leading_zeros(a).len() > 0 {
            strip_leading_zeros(a) + b
        } else {
            strip_leading_zeros(b)
        },
    decreases a.len(),
{
    if a.len() > 0 && a[0] == '0' {
        assert((a + b).skip(1) =~= a.skip(1) + b);
        lemma_strip_leading_zeros_joined(a.skip(1), b);
    }
}

/// Trailing zeros are stripped from the second of two joined texts, and from
/// the first only if nothing of the second is left.
pub proof fn lemma_strip_trailing_zeros_joined(a: Seq<char>, b: Seq<char>)
    ensures
        strip_trailing_zeros(a + b) == if strip_trailing_zeros(b).len() > 0 {
            a + strip_trailing_zeros(b)
        } else {
            strip_trailing_zeros(a)
        },
    decreases b.len(),
{
    if b.len() > 0 && b.last() == '0' {
        assert((a + b).drop_last() =~= a + b.drop_last());
        lemma_strip_trailing_zeros_joined(a, b.drop_last());
    }
}

/// What is stripped from the front of a text is zeros, and what is left does
/// not begin with one.
pub proof fn lemma_strip_leading_zeros(s: Seq<char>)
    ensures
        strip_leading_zeros(s).len() <= s.len(),
        s == zeros((s.len() - strip_leading_zeros(s).len()) as nat) + strip_leading_zeros(s),
        strip_leading_zeros(s).len() > 0 ==> strip_leading_zeros(s)[0] != '0',
    decreases s.len(),
{
    if s.len() > 0 && s[0] == '0' {
        let t = s.skip(1);
        lemma_strip_leading_zeros(t);
        let r = strip_leading_zeros(t);
        assert(s =~= zeros((s.len() - r.len()) as nat) + r) by {
            assert forall|k: int| 0 <= k < s.len() implies s[k] == (zeros(
                (s.len() - r.len()) as nat,
            ) + r)[k] by {
                if k > 0 {
                    assert(s[k] == t[k - 1]);
                }
            }
        }
    }
}

/// What is stripped from the end of a text is zeros, and what is left does
/// not end in one.
pub proof fn lemma_strip_trailing_zeros(s: Seq<char>)
    ensures
        strip_trailing_zeros(s).len() <= s.len(),
        s == strip_trailing_zeros(s) + zeros((s.len() - strip_trailing_zeros(s).len()) as nat),
        strip_trailing_zeros(s).len() > 0 ==> strip_trailing_zeros(s).last() != '0',
    decreases s.len(),
{
    if s.len() > 0 && s.last() == '0' {
        let t = s.drop_last();
        lemma_strip_trailing_zeros(t);
        let r = strip_trailing_zeros(t);
        assert(s =~= r + zeros((s.len() - r.len()) as nat)) by {
            assert forall|k: int| 0 <= k < s.len() implies s[k] == (r + zeros(
                (s.len() - r.len()) as nat,
            ))[k] by {
                if k < s.len() - 1 {
                    assert(s[k] == t[k]);
                }
            }
        }
    }
}

/// Joined texts are made of digits if and only if both are.
pub proof fn lemma_all_digits_joined(a: Seq<char>, b: Seq<char>)
    ensures
        all_digits(a + b) <==> all_digits(a) && all_digits(b),
{
    if all_digits(a + b) {
        assert forall|k: int| 0 <= k < a.len() implies is_digit(#[trigger] a[k]) by {
            assert(a[k] == (a + b)[k]);
        }
        assert forall|k: int| 0 <= k < b.len() implies is_digit(#[trigger] b[k]) by {
            assert(b[k] == (a + b)[k + a.len()]);
        }
    }
    if all_digits(a) && all_digits(b) {
        assert forall|k: int| 0 <= k < (a + b).len() implies is_digit(#[trigger] (a + b)[k]) by {}
    }
}

/// The number that a decimal digit stands for.
pub open spec fn digit_value(c: char) -> nat {
    if c == '1' {
        1
    } else if c == '2' {
        2
    } else if c == '3' {
        3
    } else if c == '4' {
        4
    } else if c == '5' {
        5
    } else if c == '6' {
        6
    } else if c == '7' {
        7
    } else if c == '8' {
        8
    } else if c == '9' {
        9
    } else {
        0
    }
}

/// The natural number that the digits `s` denote.
pub open spec fn numeral_value(s: Seq<char>) -> nat
    decreases s.len(),
{
    if s.len() == 0 {
        0
    } else {
        10 * numeral_value(s.drop_last()) + digit_value(s.last())
    }
}

/// A digit behind a numeral makes ten times the number, and the digit more.
pub proof fn lemma_numeral_value_push(s: Seq<char>, c: char)
    ensures
        numeral_value(s.push(c)) == 10 * numeral_value(s) + digit_value(c),
{
    assert(s.push(c).drop_last() =~= s);
}

/// Each number below ten is what its digit stands for.
pub proof fn lemma_digit_char_value(d: nat)
    requires
        d <= 9,
    ensures
        is_digit(digit_char(d)),
        digit_value(digit_char(d)) == d,
        nat_text(d) == seq![digit_char(d)],
{
}

/// Zeros before a numeral do not change the number that it denotes.
pub proof fn lemma_zeros_before_numeral(k: nat, s: Seq<char>)
    ensures
        numeral_value(zeros(k) + s) == numeral_value(s),
    decreases s.len(), k,
{
    if s.len() > 0 {
        assert((zeros(k) + s).drop_last() =~= zeros(k) + s.drop_last());
        assert((zeros(k) + s).last() == s.last());
        lemma_zeros_before_numeral(k, s.drop_last());
    } else if k > 0 {
        assert(zeros(k) + s =~= zeros(k));
        assert(zeros(k).drop_last() =~= zeros((k - 1) as nat));
        assert(zeros((k - 1) as nat) + s =~= zeros((k - 1) as nat));
        lemma_zeros_before_numeral((k - 1) as nat, s);
    } else {
        assert(zeros(k) + s =~= s);
    }
}

/// The numeral of a number written in full denotes that number.
pub proof fn lemma_integer_numeral_value(s: Seq<char>)
    ensures
        numeral_value(integer_numeral(s)) == numeral_value(s),
{
    let r = strip_leading_zeros(s);
    lemma_strip_leading_zeros(s);
    lemma_zeros_before_numeral((s.len() - r.len()) as nat, r);
    if r.len() == 0 {
        assert(seq!['0'].drop_last() =~= Seq::<char>::empty());
        reveal_with_fuel(numeral_value, 2);
    }
}

/// The trailing zeros of `s` are those from `k` on, if they are zeros and
/// no zero stands before them.
pub proof fn lemma_strip_trailing_zeros_is(s: Seq<char>, k: int)
    requires
        0 <= k <= s.len(),
        forall|i: int| k <= i < s.len() ==> #[trigger] s[i] == '0',
        k > 0 ==> s[k - 1] != '0',
    ensures
        strip_trailing_zeros(s) == s.take(k),
    decreases s.len(),
{
    if k < s.len() {
        let t = s.drop_last();
        lemma_strip_trailing_zeros_is(t, k);
        assert(t.take(k) =~= s.take(k));
    } else {
        assert(s.take(k) =~= s);
    }
}

/// How many zeros end what stands behind the first decimal point of `s`, a
/// minus sign before `s` left aside.
pub open spec fn trailing_zeros(s: Seq<char>) -> nat {
    let f = fraction_part(magnitude(s));
    (f.len() - strip_trailing_zeros(f).len()) as nat
}

/// Whether `s` ends in a decimal point, its first.
pub open spec fn ends_in_point(s: Seq<char>) -> bool {
    point_index(magnitude(s)) < magnitude(s).len() && fraction_part(magnitude(s)).len() == 0
}

/// The characters of `s`.
pub fn chars_of(s: &str) -> (v: Vec<char>)
    ensures
        v@ == s@,
{
    broadcast use vstd::string::group_string_axioms;

    let mut it = s.chars();
    let mut v: Vec<char> = Vec::new();
    loop
        invariant
            v@ + it.remaining() == s@,
            it.obeys_prophetic_iter_laws(),
            it.decrease() is Some,
        decreases it.decrease()->0,
    {
        match it.next() {
            Some(c) => v.push(c),
            None => return v,
        }
    }
}

/// Whether `c` is a decimal digit.
pub fn is_digit_char(c: char) -> (r: bool)
    ensures
        r == is_digit(c),
{
    '0' <= c && c <= '9'
}

/// The numeral of a single digit.
fn digit_text(d: usize) -> (r: &'static str)
    requires
        d < 10,
    ensures
        r@ == seq![digit_char(d as nat)],
{
    proof {
        reveal_strlit("0");
        reveal_strlit("1");
        reveal_strlit("2");
        reveal_strlit("3");
        reveal_strlit("4");
        reveal_strlit("5");
        reveal_strlit("6");
        reveal_strlit("7");
        reveal_strlit("8");
        reveal_strlit("9");
    }
    if d == 0 {
        "0"
    } else if d == 1 {
        "1"
    } else if d == 2 {
        "2"
    } else if d == 3 {
        "3"
    } else if d == 4 {
        "4"
    } else if d == 5 {
        "5"
    } else if d == 6 {
        "6"
    } else if d == 7 {
        "7"
    } else if d == 8 {
        "8"
    } else {
        "9"
    }
}

/// The decimal numeral of `n`.
pub fn number_text(n: usize) -> (r: String)
    ensures
        r@ == nat_text(n as nat),
    decreases n,
{
    let last = digit_text(n % 10);
    if n < 10 {
        String::from_str(last)
    } else {
        number_text(n / 10).concat(last)
    }
}


/// Whether `text` ends in its first decimal point, and how many zeros end
/// what stands behind that point.
pub fn fraction_shape(text: &str) -> (r: (bool, usize))
    ensures
        r.0 == ends_in_point(text@),
        r.1 == trailing_zeros(text@),
{
    let chars = chars_of(text);
    let n = chars.len();
    let start: usize = if n > 0 && chars[0] == '-' {
        1
    } else {
        0
    };
    let ghost body = magnitude(text@);
    assert(body =~= text@.skip(start as int));
    let mut point: usize = start;
    while point < n && chars[point] != '.'
        invariant
            start <= point <= n,
            n == text@.len(),
            chars@ == text@,
            body == text@.skip(start as int),
            forall|k: int| 0 <= k < point - start ==> #[trigger] body[k] != '.',
        decreases n - point,
    {
        point += 1;
    }
    proof {
        lemma_point_index_is(body, point - start);
        lemma_strip_trailing_zeros(fraction_part(body));
    }
    if point == n {
        return (false, 0);
    }
    let ghost f = fraction_part(body);
    assert(f =~= text@.skip(point + 1));
    let mut kept: usize = n;
    while kept > point + 1 && chars[kept - 1] == '0'
        invariant
            point + 1 <= kept <= n,
            n == text@.len(),
            chars@ == text@,
            f == text@.skip(point + 1),
            forall|k: int| kept - point - 1 <= k < f.len() ==> #[trigger] f[k] == '0',
        decreases kept,
    {
        kept -= 1;
    }
    proof {
        lemma_strip_trailing_zeros_is(f, kept - point - 1);
    }
    (point + 1 == n, n - kept)
}

} // verus!
