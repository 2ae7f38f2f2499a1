//! What holds of the calculator whatever is typed.

use vstd::prelude::*;
use crate::calculation::{
    combined, expression_text, folded, step, CalculationView, OperandView, Operation, ValueView,
};
use crate::decimal::{lemma_shown_digits, parsed, DecimalView, MAGNITUDE_LIMIT};
use crate::event::Event;
use crate::numeric_value::{lemma_reading_zero, EntryView};
use crate::text::{
    all_digits, decimal_numeral, digit_char, fraction_part, integer_numeral, integer_part,
    is_digit, is_negative, is_plain_decimal, lemma_all_digits_joined,
    lemma_integer_numeral_canonical, lemma_numeral_parts, lemma_point_index_bounds,
    lemma_digit_char_value, lemma_integer_numeral_value, lemma_numeral_value_push,
    lemma_strip_leading_zeros, lemma_strip_leading_zeros_joined, magnitude, nat_text,
    numeral_value, point_index, strip_leading_zeros, zeros,
};

verus! {

/// The calculation after the inputs `events`, one after another.
pub open spec fn after_events(c: CalculationView, events: Seq<Event>) -> CalculationView
    decreases events.len(),
{
    if events.len() == 0 {
        c
    } else {
        after_events(c, events.drop_last()).on_event(events.last())
    }
}

/// Whether `evt` is the input of a single digit.
pub open spec fn is_digit_key(evt: Event) -> bool {
    evt matches Event::Number(d) && d <= 9
}

/// The digits that a sequence of digit inputs spells.
pub open spec fn spelled(events: Seq<Event>) -> Seq<char> {
    Seq::new(
        events.len(),
        |i: int|
            match events[i] {
                Event::Number(d) => digit_char(d as nat),
                _ => '0',
            },
    )
}

/// A calculation of one operand, a number with no operation, and nothing
/// evaluated.
pub open spec fn single(e: EntryView) -> CalculationView {
    CalculationView {
        past_operands: Seq::empty(),
        operands: seq![OperandView { operation: None, value: ValueView::Number(e) }],
    }
}

/// A chain of one operand shows that operand.
proof fn lemma_single_text(operand: OperandView)
    ensures
        expression_text(seq![operand]) == operand.text(),
{
    let s = seq![operand];
    assert(s.drop_last() =~= Seq::empty());
    assert(expression_text(s.drop_last()) =~= Seq::empty());
    assert(Seq::<char>::empty() + operand.text() =~= operand.text());
}

/// A calculation of one number with nothing to lose is the fresh one.
proof fn lemma_single_continued(e: EntryView)
    ensures
        single(e).continued() == single(e),
        single(e).is_empty() <==> e == EntryView::zero(),
{
    let x = single(e);
    if x.is_empty() {
        assert(x.operands[0].value == ValueView::Number(EntryView::zero()));
        assert(x.operands =~= CalculationView::initial().operands);
    }
    if e == EntryView::zero() {
        assert(x.operands[0].value == ValueView::Number(EntryView::zero()));
    }
}

/// Digits alone are read as the number that they denote, with nothing
/// behind it, which shows the digits without their leading zeros.
proof fn lemma_digits_read(digits: Seq<char>)
    requires
        all_digits(digits),
    ensures
        EntryView::reading(digits) == EntryView::plain(parsed(digits)),
        EntryView::reading(digits).text() == integer_numeral(digits),
        EntryView::reading(digits).canonical(),
{
    let e = EntryView::reading(digits);
    lemma_numeral_parts(false, digits, None);
    assert(decimal_numeral(false, digits, None) =~= digits);
    let body = magnitude(digits);
    lemma_point_index_bounds(body);
    assert(integer_part(body).len() == point_index(body));
    assert(fraction_part(body) =~= Seq::<char>::empty());
    if digits.len() > 0 {
        EntryView::lemma_reading_parts(false, digits, None);
        assert(e.text() =~= integer_numeral(digits));
    } else {
        assert(digits + Seq::<char>::empty() =~= digits);
        assert(parsed(digits) == DecimalView::zero());
        assert(e == EntryView::zero());
        assert(magnitude(seq!['0']) == seq!['0']);
        assert(e.text() =~= seq!['0']);
    }
}

/// A digit typed behind the numeral of a natural number gives the number
/// that all the digits typed spell.
proof fn lemma_digit_behind_numeral(digits: Seq<char>, d: char)
    requires
        all_digits(digits),
        is_digit(d),
    ensures
        EntryView::reading(integer_numeral(digits) + seq![d]) == EntryView::reading(
            digits.push(d),
        ),
{
    let shown = integer_numeral(digits);
    let one = seq![d];
    let a = shown + one;
    let b = digits.push(d);
    assert(b =~= digits + one);
    lemma_strip_leading_zeros(digits);
    lemma_all_digits_joined(
        zeros((digits.len() - strip_leading_zeros(digits).len()) as nat),
        strip_leading_zeros(digits),
    );
    assert(all_digits(shown));
    lemma_all_digits_joined(shown, one);
    lemma_all_digits_joined(digits, one);
    lemma_digits_read(a);
    lemma_digits_read(b);
    lemma_numeral_parts(false, a, None);
    lemma_numeral_parts(false, b, None);
    assert(decimal_numeral(false, a, None) =~= a);
    assert(decimal_numeral(false, b, None) =~= b);
    assert(a + Seq::<char>::empty() =~= a);
    assert(b + Seq::<char>::empty() =~= b);
    lemma_strip_leading_zeros_joined(shown, one);
    lemma_strip_leading_zeros_joined(digits, one);
    assert(strip_leading_zeros(shown) == strip_leading_zeros(digits)) by {
        if strip_leading_zeros(digits).len() == 0 {
            assert(seq!['0'].skip(1) =~= Seq::<char>::empty());
            reveal_with_fuel(strip_leading_zeros, 2);
        } else {
            lemma_strip_leading_zeros(shown);
        }
    }
    assert(strip_leading_zeros(a) == strip_leading_zeros(b));
    assert(parsed(a) == parsed(b));
}

/// Digits typed when nothing is pending show the number that they spell:
/// the digits without leading zeros, or a single `0`, which denotes the same
/// number as the digits.
pub proof fn law_digits_show_their_number(c: CalculationView, keys: Seq<Event>)
    requires
        c.is_empty(),
        keys.len() > 0,
        forall|i: int| 0 <= i < keys.len() ==> is_digit_key(#[trigger] keys[i]),
    ensures
        after_events(c, keys).current_text() == integer_numeral(spelled(keys)),
        numeral_value(after_events(c, keys).current_text()) == numeral_value(spelled(keys)),
        after_events(c, keys).past_text() == Seq::<char>::empty(),
        after_events(c, keys) == single(EntryView::plain(parsed(spelled(keys)))),
    decreases keys.len(),
{
    lemma_integer_numeral_value(spelled(keys));
    let before = keys.drop_last();
    let digits = spelled(before);
    let d = spelled(keys).last();
    assert(spelled(keys) =~= digits.push(d));
    assert(is_digit_key(keys.last()));
    let num = keys.last()->Number_0;
    assert(nat_text(num as nat) =~= seq![d]);
    assert forall|i: int| 0 <= i < digits.len() implies is_digit(#[trigger] digits[i]) by {
        assert(is_digit_key(before[i]));
    }
    lemma_digits_read(digits);
    lemma_digit_behind_numeral(digits, d);
    lemma_all_digits_joined(digits, seq![d]);
    assert(digits.push(d) =~= digits + seq![d]);
    lemma_digits_read(digits.push(d));
    let entry = EntryView::reading(digits);
    let x = after_events(c, before);
    // What typing continues is the one operand typed so far.
    assert(x.continued() == single(entry)) by {
        if before.len() == 0 {
            assert(single(entry).operands =~= CalculationView::initial().operands);
        } else {
            law_digits_show_their_number(c, before);
            lemma_single_continued(entry);
        }
    }
    let result = EntryView::reading(digits.push(d));
    assert(single(entry).append_number(num as nat).operands =~= single(result).operands);
    lemma_single_text(single(result).operands[0]);
    assert(expression_text(Seq::<OperandView>::empty()) =~= Seq::<char>::empty());
}

/// An entry with no decimal point shows the digits of a whole number.
proof fn lemma_whole_number_text(e: EntryView)
    requires
        typed_entry(e),
        e.fraction() is None,
    ensures
        e.text() == e.parts().1,
        all_digits(e.text()),
{
    e.lemma_text_parts();
    assert(e.text() =~= e.parts().1);
}

/// A digit `d` typed behind a whole number `n` that is not below zero
/// gives the whole number `10 n + d`: the numeral of `n` with the digit
/// behind it, and without a zero before it.
pub proof fn law_digit_behind_whole_number(e: EntryView, d: nat)
    requires
        typed_entry(e),
        e.fraction() is None,
        d <= 9,
    ensures
        single(e).append_number(d) == single(EntryView::reading(e.text() + nat_text(d))),
        EntryView::reading(e.text() + nat_text(d)) == EntryView::plain(
            parsed(e.text() + nat_text(d)),
        ),
        EntryView::reading(e.text() + nat_text(d)).fraction() is None,
        EntryView::reading(e.text() + nat_text(d)).text() == integer_numeral(
            e.text().push(digit_char(d)),
        ),
        numeral_value(EntryView::reading(e.text() + nat_text(d)).text()) == 10 * numeral_value(
            e.text(),
        ) + d,
{
    let c = digit_char(d);
    let typed = e.text().push(c);
    let r = EntryView::reading(typed);
    lemma_digit_char_value(d);
    lemma_whole_number_text(e);
    assert(e.text() + nat_text(d) =~= typed);
    assert(all_digits(typed)) by {
        lemma_all_digits_joined(e.text(), seq![c]);
        assert(typed =~= e.text() + seq![c]);
    }
    lemma_digits_read(typed);
    assert(r.fraction() is None) by {
        EntryView::lemma_reading_parts(false, typed, None);
        assert(decimal_numeral(false, typed, None) =~= typed);
    }
    assert(numeral_value(r.text()) == 10 * numeral_value(e.text()) + d) by {
        lemma_integer_numeral_value(typed);
        lemma_numeral_value_push(e.text(), c);
    }
    assert(single(e).append_number(d) == single(r)) by {
        assert(single(e).append_number(d).operands =~= single(r).operands);
    }
}

/// The decimal point typed twice is the decimal point typed once: the mark
/// is set, and the value and the zeros behind it stay what they were.
pub proof fn law_decimal_point_idempotent(c: CalculationView)
    requires
        c.accepts_comma(),
    ensures
        c.add_comma().accepts_comma(),
        c.add_comma().add_comma() == c.add_comma(),
        c.add_comma().operands.last().value == ValueView::Number(
            if c.starts_operand() {
                EntryView { value: DecimalView::zero(), comma: true, zeros: 0 }
            } else {
                EntryView { comma: true, ..c.operands.last().value->Number_0 }
            },
        ),
{
    let once = c.add_comma();
    assert(!once.starts_operand());
    assert(once.operands.drop_last() =~= if c.starts_operand() {
        c.operands
    } else {
        c.operands.drop_last()
    });
    assert(once.add_comma().operands =~= once.operands);
}

/// The decimal point typed twice when nothing is pending leaves one operand,
/// zero with the mark set, which shows `0.`.
pub proof fn law_decimal_point_twice_from_idle(c: CalculationView)
    requires
        c.is_empty(),
    ensures
        c.on_event(Event::Comma).on_event(Event::Comma) == single(
            EntryView { value: DecimalView::zero(), comma: true, zeros: 0 },
        ),
        c.on_event(Event::Comma).on_event(Event::Comma).current_text() == seq!['0', '.'],
{
    let marked = EntryView { value: DecimalView::zero(), comma: true, zeros: 0 };
    let once = c.on_event(Event::Comma);
    assert(once.operands =~= single(marked).operands);
    lemma_single_continued(marked);
    law_decimal_point_idempotent(CalculationView::initial());
    lemma_single_text(single(marked).operands[0]);
    assert(magnitude(seq!['0']) == seq!['0']);
    assert(marked.text() =~= seq!['0', '.']);
}

/// A chain is evaluated from the left: its value is the value of the chain
/// without its last operand, met by that operand under the operation
/// carried over to it. No operation is applied before one to its left. The
/// value of a single number is that number.
pub proof fn law_fold_from_the_left(operands: Seq<OperandView>)
    requires
        operands.len() > 0,
    ensures
        folded(operands) == match folded(operands.drop_last()) {
            Some((acc, carried)) => step(acc, carried, operands.last()),
            None => None,
        },
        operands.len() == 1 && operands[0].value is Number ==> folded(operands) == Some(
            (operands[0].value, operands[0].operation),
        ),
{
    if operands.len() == 1 {
        assert(operands.drop_last() =~= Seq::empty());
        assert(folded(operands.drop_last()) == Some(
            (ValueView::Number(EntryView::zero()), None::<Operation>),
        ));
    }
}

/// A chain of three numbers is evaluated from left to right, whatever the
/// operations are: the first two are combined, and the result with the
/// third.
pub proof fn law_left_to_right(
    a: EntryView,
    first: Operation,
    b: EntryView,
    second: Operation,
    c: EntryView,
    last: Option<Operation>,
)
    ensures
        folded(
            seq![
                OperandView { operation: Some(first), value: ValueView::Number(a) },
                OperandView { operation: Some(second), value: ValueView::Number(b) },
                OperandView { operation: last, value: ValueView::Number(c) },
            ],
        ) == match combined(a.value, first, b.value) {
            Some(ValueView::Number(ab)) => match combined(ab.value, second, c.value) {
                Some(abc) => Some((abc, last)),
                None => None,
            },
            Some(ValueView::Undefined) => Some((ValueView::Undefined, None)),
            None => None,
        },
{
    let x = OperandView { operation: Some(first), value: ValueView::Number(a) };
    let y = OperandView { operation: Some(second), value: ValueView::Number(b) };
    let z = OperandView { operation: last, value: ValueView::Number(c) };
    let three = seq![x, y, z];
    assert(three.drop_last() =~= seq![x, y]);
    assert(seq![x, y].drop_last() =~= seq![x]);
    law_fold_from_the_left(seq![x]);
    law_fold_from_the_left(seq![x, y]);
    law_fold_from_the_left(three);
}

/// Once the value of a chain is `Undefined`, it stays `Undefined` whatever
/// follows.
pub proof fn law_undefined_stays(operands: Seq<OperandView>, n: int)
    requires
        0 <= n <= operands.len(),
        folded(operands.take(n)) matches Some((value, _)) && value is Undefined,
    ensures
        folded(operands) matches Some((value, _)) && value is Undefined,
    decreases operands.len(),
{
    if n < operands.len() {
        assert(operands.drop_last().take(n) =~= operands.take(n));
        law_undefined_stays(operands.drop_last(), n);
    } else {
        assert(operands.take(n) =~= operands);
    }
}

/// A division by zero makes the value of the chain `Undefined`, whatever
/// follows it.
pub proof fn law_division_by_zero_is_undefined(operands: Seq<OperandView>, i: int)
    requires
        0 <= i < operands.len(),
        folded(operands.take(i)) matches Some((ValueView::Number(_), Some(Operation::Division))),
        operands[i].value matches ValueView::Number(e) && e.value.is_zero(),
    ensures
        folded(operands) matches Some((value, _)) && value is Undefined,
{
    assert(operands.take(i + 1).drop_last() =~= operands.take(i));
    law_undefined_stays(operands, i + 1);
}

/// After a chain of two operands or more is evaluated, what was typed is
/// shown as the evaluated chain, and the only operand is the value of the
/// whole chain, with no operation.
pub proof fn law_evaluation_commits(c: CalculationView)
    requires
        c.operands.len() >= 2,
        c.can_calculate(),
    ensures
        c.calculate().past_text() == c.current_text(),
        c.calculate().past_operands == c.operands,
        c.calculate().operands == seq![
            OperandView { operation: None, value: folded(c.operands).unwrap().0 },
        ],
        c.calculate().is_empty(),
{
}

/// An operation chosen after an evaluation forgets the evaluated chain and
/// starts a chain from the result.
pub proof fn law_operation_continues_result(c: CalculationView, op: Operation)
    requires
        c.operands.len() >= 2,
        c.can_calculate(),
        op != Operation::Equals,
    ensures
        c.calculate().append_operation(op).past_text() == Seq::<char>::empty(),
        c.calculate().append_operation(op).operands == seq![
            OperandView { operation: Some(op), value: folded(c.operands).unwrap().0 },
        ],
{
    let evaluated = c.calculate();
    assert(evaluated.operands.drop_last() =~= Seq::empty());
    assert(evaluated.append_operation(op).operands =~= seq![
        OperandView { operation: Some(op), value: folded(c.operands).unwrap().0 },
    ]);
}

/// Taking back never empties a chain: it takes at most one operand, and
/// never the only one. The fresh calculation stays as it is.
pub proof fn law_removal_keeps_an_operand(c: CalculationView)
    requires
        c.operands.len() >= 1,
    ensures
        1 <= c.remove_last().operands.len() <= c.operands.len(),
        c.operands.len() - c.remove_last().operands.len() <= 1,
        c.remove_last().past_operands == c.past_operands,
        c.operands == seq![OperandView::zero()] ==> c.remove_last() == c,
{
}

impl CalculationView {
    /// Every operand but the last has an operation, and an `Undefined` value
    /// stands alone.
    pub open spec fn chained(self) -> bool {
        &&& forall|i: int|
            0 <= i < self.operands.len() - 1 ==> (#[trigger] self.operands[i]).operation is Some
        &&& forall|i: int|
            0 <= i < self.operands.len() && (#[trigger] self.operands[i]).value is Undefined
                ==> self.operands.len() == 1
    }
}

/// No input breaks the chain: afterwards, too, every operand but the last
/// has an operation, and an `Undefined` value stands alone.
pub proof fn law_inputs_keep_the_chain(c: CalculationView, evt: Event)
    requires
        c.chained(),
        c.accepts(evt),
    ensures
        c.on_event(evt).chained(),
{
    let start = c.continued();
    assert(start.chained());
}

/// Nor does what an input does by itself: typing, where it is accepted,
/// choosing an operation, taking back and evaluating each leave a chain in
/// which every operand but the last has an operation and an `Undefined`
/// value stands alone.
pub proof fn law_operations_keep_the_chain(c: CalculationView, num: nat, op: Operation)
    requires
        c.chained(),
    ensures
        c.accepts_number(num) ==> c.append_number(num).chained(),
        c.accepts_comma() ==> c.add_comma().chained(),
        c.append_operation(op).chained(),
        c.remove_last().chained(),
        c.calculate().chained(),
{
}

/// A result just evaluated leaves nothing of the user's to lose, and every
/// input that changes the chain takes the evaluated chain from the display.
pub proof fn law_inputs_forget_the_evaluated_chain(c: CalculationView, evt: Event)
    requires
        evt is Number || evt is Comma || evt is Clear || (evt matches Event::Operation(op) && op
            != Operation::Equals),
    ensures
        c.past_operands.len() > 0 ==> c.is_empty(),
        c.on_event(evt).past_operands.len() == 0,
        c.on_event(evt).past_text() == Seq::<char>::empty(),
{
}

/// Whether `e` is an entry as typing leaves it: canonical, and not below
/// zero.
pub open spec fn typed_entry(e: EntryView) -> bool {
    e.canonical() && !is_negative(e.value.significand)
}

/// The number of inputs that an entry is worth: the characters that it
/// shows, but for a lone zero before the point.
pub open spec fn weight(e: EntryView) -> nat {
    let integer = e.parts().1;
    let before: nat = if integer == seq!['0'] {
        0
    } else {
        integer.len()
    };
    match e.parts().2 {
        Some(f) => before + 1 + f.len(),
        None => before,
    }
}

/// Only the zero that no input has touched is worth no input.
proof fn lemma_weightless(e: EntryView)
    requires
        typed_entry(e),
    ensures
        weight(e) == 0 <==> e == EntryView::zero(),
{
    lemma_shown_digits(e.value);
    let m = magnitude(e.value.significand);
    if e == EntryView::zero() {
        assert(magnitude(seq!['0']) == seq!['0']);
        assert(seq!['0'] + zeros(0) =~= seq!['0']);
    }
    if weight(e) == 0 {
        assert(e.fraction() is None);
        assert(e.value.exponent >= 0);
        assert(m + zeros(e.value.exponent as nat) == seq!['0']);
        assert(m.len() == 1 && e.value.exponent == 0);
        assert(m[0] == (m + zeros(e.value.exponent as nat))[0]);
        assert(m =~= seq!['0']);
    }
}

/// A digit typed into an entry adds at most one to what it is worth.
proof fn lemma_digit_typed(e: EntryView, d: char)
    requires
        typed_entry(e),
        is_digit(d),
    ensures
        typed_entry(EntryView::reading(e.text() + seq![d])),
        weight(EntryView::reading(e.text() + seq![d])) <= weight(e) + 1,
{
    let one = seq![d];
    e.lemma_text_parts();
    e.lemma_text_with_digits(one);
    let integer = e.parts().1;
    match e.parts().2 {
        Some(f) => {
            lemma_all_digits_joined(f, one);
            EntryView::lemma_reading_parts(false, integer, Some(f + one));
            lemma_integer_numeral_canonical(integer);
        },
        None => {
            lemma_all_digits_joined(integer, one);
            EntryView::lemma_reading_parts(false, integer + one, None);
            lemma_strip_leading_zeros_joined(integer, one);
            if integer[0] == '0' {
                assert(integer =~= seq!['0']);
                assert(integer.skip(1) =~= Seq::<char>::empty());
                assert(one.skip(1) =~= Seq::<char>::empty());
                reveal_with_fuel(strip_leading_zeros, 2);
            } else {
                lemma_integer_numeral_canonical(integer);
            }
        },
    }
}

/// The decimal point typed into an entry adds at most one to what it is
/// worth.
proof fn lemma_point_typed(e: EntryView)
    requires
        typed_entry(e),
    ensures
        typed_entry(EntryView { comma: true, ..e }),
        weight(EntryView { comma: true, ..e }) <= weight(e) + 1,
{
    lemma_shown_digits(e.value);
}

/// Taking a character from an entry that an input has touched takes one
/// from what it is worth, or all of it.
proof fn lemma_character_removed(e: EntryView)
    requires
        typed_entry(e),
        e != EntryView::zero(),
    ensures
        typed_entry(CalculationView::trimmed(e)),
        weight(CalculationView::trimmed(e)) < weight(e),
        CalculationView::shortened(e).len() == 0 || is_plain_decimal(
            CalculationView::shortened(e),
        ),
        CalculationView::shortened(e).len() <= weight(e),
{
    let r = CalculationView::trimmed(e);
    let rest = CalculationView::shortened(e);
    e.lemma_text_parts();
    lemma_weightless(e);
    let integer = e.parts().1;
    lemma_integer_numeral_canonical(integer);
    match e.parts().2 {
        Some(f) => {
            if f.len() > 0 {
                let g = f.drop_last();
                assert(rest =~= decimal_numeral(false, integer, Some(g)));
                lemma_numeral_parts(false, integer, Some(g));
                EntryView::lemma_reading_parts(false, integer, Some(g));
            } else {
                assert(rest =~= decimal_numeral(false, integer, None));
                lemma_numeral_parts(false, integer, None);
                EntryView::lemma_reading_parts(false, integer, None);
            }
        },
        None => {
            assert(e.text() =~= integer);
            if integer.len() == 1 {
                lemma_reading_zero();
                lemma_weightless(r);
            } else {
                let shorter = integer.drop_last();
                assert(rest =~= decimal_numeral(false, shorter, None));
                assert(shorter[0] == integer[0]);
                lemma_integer_numeral_canonical(shorter);
                lemma_numeral_parts(false, shorter, None);
                EntryView::lemma_reading_parts(false, shorter, None);
            }
        },
    }
}

/// Whether `evt` types a digit or the decimal point.
pub open spec fn is_entry_key(evt: Event) -> bool {
    is_digit_key(evt) || evt is Comma
}

/// The calculation after the digits and decimal points `keys` were typed
/// into it, one after another.
pub open spec fn entered(c: CalculationView, keys: Seq<Event>) -> CalculationView
    decreases keys.len(),
{
    if keys.len() == 0 {
        c
    } else {
        let before = entered(c, keys.drop_last());
        match keys.last() {
            Event::Number(num) => before.append_number(num as nat),
            Event::Comma => before.add_comma(),
            _ => before,
        }
    }
}

/// The calculation after the last input was taken back `n` times.
pub open spec fn erased(c: CalculationView, n: nat) -> CalculationView
    decreases n,
{
    if n == 0 {
        c
    } else {
        erased(c.remove_last(), (n - 1) as nat)
    }
}

/// Digits and decimal points typed into a fresh calculation leave one
/// operand, worth no more than the number of inputs.
proof fn lemma_entry_typed(keys: Seq<Event>) -> (e: EntryView)
    requires
        forall|i: int| 0 <= i < keys.len() ==> is_entry_key(#[trigger] keys[i]),
    ensures
        entered(CalculationView::initial(), keys) == single(e),
        after_events(CalculationView::initial(), keys) == single(e),
        typed_entry(e),
        weight(e) <= keys.len(),
    decreases keys.len(),
{
    if keys.len() == 0 {
        let e = EntryView::zero();
        assert(magnitude(seq!['0']) == seq!['0']);
        lemma_weightless(e);
        assert(CalculationView::initial().operands =~= single(e).operands);
        e
    } else {
        let before = lemma_entry_typed(keys.drop_last());
        let x = single(before);
        lemma_single_continued(before);
        assert(is_entry_key(keys.last()));
        match keys.last() {
            Event::Number(num) => {
                let d = digit_char(num as nat);
                assert(nat_text(num as nat) =~= seq![d]);
                lemma_digit_typed(before, d);
                let e = EntryView::reading(before.text() + seq![d]);
                assert(x.append_number(num as nat).operands =~= single(e).operands);
                e
            },
            _ => {
                lemma_point_typed(before);
                let e = EntryView { comma: true, ..before };
                assert(x.add_comma().operands =~= single(e).operands);
                e
            },
        }
    }
}

/// Taking back from a lone operand leaves a lone operand that is worth as
/// much less as was taken back, or nothing.
proof fn lemma_entry_taken_back(e: EntryView, n: nat) -> (r: EntryView)
    requires
        typed_entry(e),
    ensures
        erased(single(e), n) == single(r),
        typed_entry(r),
        weight(r) <= weight(e),
        weight(e) <= n ==> r == EntryView::zero(),
    decreases n,
{
    let x = single(e);
    lemma_weightless(e);
    if n == 0 {
        e
    } else if e == EntryView::zero() {
        assert(x.remove_last() == x);
        lemma_entry_taken_back(e, (n - 1) as nat)
    } else {
        lemma_character_removed(e);
        let t = CalculationView::trimmed(e);
        assert(x.remove_last().operands =~= single(t).operands);
        lemma_entry_taken_back(t, (n - 1) as nat)
    }
}

/// A lone operand that typing left takes every digit, the decimal point,
/// and every taking back, while there is room for two characters more.
proof fn lemma_typed_entry_accepts(e: EntryView, evt: Event)
    requires
        typed_entry(e),
        weight(e) + 2 <= MAGNITUDE_LIMIT,
        is_entry_key(evt) || evt is Clear,
    ensures
        single(e).accepts(evt),
        evt is Clear ==> single(e).accepts_removal(),
{
    e.lemma_text_parts();
    lemma_single_continued(e);
    match evt {
        Event::Number(num) => {
            assert(nat_text(num as nat) =~= seq![digit_char(num as nat)]);
        },
        Event::Clear => {
            if e != EntryView::zero() {
                lemma_character_removed(e);
            }
        },
        _ => {},
    }
}

/// Whatever digits and decimal points are typed into a fresh calculation,
/// taking back as many inputs as were typed leaves the fresh calculation:
/// one operand, the zero that no input has touched. It makes no difference
/// whether the inputs are typed as they are or handled as events.
pub proof fn law_entry_round_trip(keys: Seq<Event>)
    requires
        forall|i: int| 0 <= i < keys.len() ==> is_entry_key(#[trigger] keys[i]),
    ensures
        erased(entered(CalculationView::initial(), keys), keys.len())
            == CalculationView::initial(),
        after_events(CalculationView::initial(), keys) == entered(
            CalculationView::initial(),
            keys,
        ),
{
    let e = lemma_entry_typed(keys);
    let r = lemma_entry_taken_back(e, keys.len());
    assert(single(r).operands =~= CalculationView::initial().operands);
}

/// Digits, decimal points and takings back are never refused on what was
/// typed into a fresh calculation, whatever was taken back since, as long
/// as no more was typed than a numeral can hold.
pub proof fn law_typing_is_accepted(keys: Seq<Event>, n: nat, evt: Event)
    requires
        forall|i: int| 0 <= i < keys.len() ==> is_entry_key(#[trigger] keys[i]),
        keys.len() + 2 <= MAGNITUDE_LIMIT,
        is_entry_key(evt) || evt is Clear,
    ensures
        erased(entered(CalculationView::initial(), keys), n).accepts(evt),
        evt is Clear ==> erased(entered(CalculationView::initial(), keys), n).accepts_removal(),
        evt matches Event::Number(num) ==> erased(
            entered(CalculationView::initial(), keys),
            n,
        ).accepts_number(num as nat),
        evt is Comma ==> erased(entered(CalculationView::initial(), keys), n).accepts_comma(),
{
    let typed = lemma_entry_typed(keys);
    let left = lemma_entry_taken_back(typed, n);
    lemma_typed_entry_accepts(left, evt);
    lemma_single_continued(left);
}

} // verus!
