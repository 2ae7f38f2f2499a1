use calculator::calculation::{
    calculate, combine, try_calculate, Calculation, Operand, OperandValue, Operation,
};
use calculator::decimal::{Decimal, Numeral};
use calculator::event::Event;
use calculator::numeric_value::NumericValue;

fn dec(text: &str) -> Decimal {
    Decimal::parse(text).unwrap()
}

fn number(text: &str) -> OperandValue {
    OperandValue::Number(NumericValue::new(dec(text)))
}

fn number_with_comma(text: &str) -> OperandValue {
    OperandValue::Number(NumericValue::new_with_comma(dec(text)))
}

fn typed(text: &str) -> OperandValue {
    OperandValue::Number(NumericValue::read(text).unwrap())
}

fn single(value: OperandValue) -> Calculation {
    Calculation::new(vec![], vec![Operand::new(None, value)])
}

fn press(calculation: &mut Calculation, events: &[Event]) {
    for event in events {
        assert!(calculation.accepts(event));
        calculation.on_event(event);
    }
}

#[test]
fn digits_show_the_number_they_spell() {
    let mut calculation = Calculation::default();
    assert_eq!(calculation.current_operation_string(), "0");
    for (digit, shown) in [(0, "0"), (0, "0"), (1, "1"), (2, "12"), (0, "120"), (5, "1205")] {
        calculation.append_number(digit);
        assert_eq!(calculation.current_operation_string(), shown);
    }
    assert_eq!(calculation, single(number("1205")));
    assert_eq!(calculation.past_operations_string(), "");
}

#[test]
fn digits_typed_after_a_result_start_afresh() {
    let mut calculation = Calculation::default();
    press(
        &mut calculation,
        &[
            Event::Number(2),
            Event::Operation(Operation::Addition),
            Event::Number(3),
            Event::Operation(Operation::Equals),
        ],
    );
    assert_eq!(calculation.current_operation_string(), "5");
    assert!(calculation.is_empty());
    press(&mut calculation, &[Event::Number(0), Event::Number(7), Event::Number(0)]);
    assert_eq!(calculation.current_operation_string(), "70");
    assert_eq!(calculation.past_operations_string(), "");
    assert_eq!(calculation, single(number("70")));
}

#[test]
fn chain_is_evaluated_from_left_to_right() {
    let mut calculation = Calculation::default();
    calculation.append_number(2);
    calculation.append_operation(Operation::Addition);
    calculation.append_number(3);
    calculation.append_operation(Operation::Multiplication);
    calculation.append_number(4);
    assert_eq!(calculation.current_operation_string(), "2+3⨉4");
    calculation.calculate();
    assert_eq!(calculation.operands(), &vec![Operand::new(None, number("20"))]);
    assert_eq!(calculation.current_operation_string(), "20");
    assert_eq!(calculation.past_operations_string(), "2+3⨉4");
}

#[test]
fn division_by_zero_is_undefined() {
    let mut calculation = Calculation::default();
    calculation.append_number(5);
    calculation.append_operation(Operation::Division);
    calculation.append_number(0);
    assert_eq!(calculation.current_operation_string(), "5÷0");
    assert!(calculation.evaluate());
    assert_eq!(calculation.operands(), &vec![Operand::new(None, OperandValue::Undefined)]);
    assert_eq!(calculation.current_operation_string(), "Undefined");
    assert_eq!(calculation.past_operations_string(), "5÷0");
    assert!(calculation.is_empty());
}

#[test]
fn nothing_is_combined_after_a_division_by_zero() {
    let operands = vec![
        Operand::new(Some(Operation::Division), number("5")),
        Operand::new(Some(Operation::Addition), number("0")),
        Operand::new(Some(Operation::Multiplication), number("3")),
        Operand::new(None, number("4")),
    ];
    assert_eq!(calculate(&operands), (OperandValue::Undefined, None));
}

#[test]
fn undefined_operand_poisons_the_chain() {
    let operands = vec![
        Operand::new(Some(Operation::Addition), number("5")),
        Operand::new(Some(Operation::Addition), OperandValue::Undefined),
        Operand::new(None, number("4")),
    ];
    assert_eq!(calculate(&operands), (OperandValue::Undefined, None));
    let operands = vec![
        Operand::new(Some(Operation::Addition), OperandValue::Undefined),
        Operand::new(None, number("4")),
    ];
    assert_eq!(calculate(&operands), (OperandValue::Undefined, None));
}

#[test]
fn operand_without_operation_restarts_the_chain() {
    let operands = vec![
        Operand::new(Some(Operation::Addition), number("5")),
        Operand::new(None, number("6")),
        Operand::new(Some(Operation::Subtraction), number_with_comma("7")),
        Operand::new(Some(Operation::Division), number("2")),
    ];
    assert_eq!(calculate(&operands), (number("5"), Some(Operation::Division)));
    let operands = vec![Operand::new(Some(Operation::Addition), number_with_comma("7"))];
    assert_eq!(calculate(&operands), (number_with_comma("7"), Some(Operation::Addition)));
    assert_eq!(calculate(&vec![]), (number("0"), None));
}

#[test]
fn stored_equals_cannot_be_evaluated() {
    let operands = vec![
        Operand::new(Some(Operation::Equals), number("5")),
        Operand::new(None, number("6")),
    ];
    assert_eq!(try_calculate(&operands), None);
    let mut calculation = Calculation::new(vec![], operands);
    let before = calculation.clone();
    assert!(!calculation.evaluate());
    assert_eq!(calculation, before);
    // An `Undefined` accumulator is not combined with anything.
    let operands = vec![
        Operand::new(Some(Operation::Equals), OperandValue::Undefined),
        Operand::new(None, number("6")),
    ];
    assert_eq!(try_calculate(&operands), Some((OperandValue::Undefined, None)));
}

#[test]
fn combine_applies_each_operation() {
    let a = dec("7");
    let b = dec("2");
    assert_eq!(combine(&a, Operation::Addition, &b), Some(number("9")));
    assert_eq!(combine(&a, Operation::Subtraction, &b), Some(number("5")));
    assert_eq!(combine(&a, Operation::Multiplication, &b), Some(number("14")));
    assert_eq!(combine(&a, Operation::Division, &b), Some(number("3.5")));
    assert_eq!(combine(&a, Operation::Division, &dec("0")), Some(OperandValue::Undefined));
    assert_eq!(combine(&a, Operation::Equals, &b), None);
    assert_eq!(
        combine(&dec("1"), Operation::Division, &dec("3")),
        Some(number("0.333333333333333333333333333333"))
    );
    assert_eq!(
        combine(&dec("123456789012345678901234567890"), Operation::Multiplication, &dec("10.5")),
        Some(number("1296296284629629628462962962850"))
    );
}

#[test]
fn results_outside_the_size_bounds_are_refused() {
    let huge = |exponent: isize| {
        Decimal::from_numeral(Numeral { significand: "1".to_string(), exponent }).unwrap()
    };
    assert_eq!(
        combine(&huge(0x0FFF_FFF0), Operation::Multiplication, &dec("10000000000000000")),
        None
    );
    assert_eq!(
        combine(&huge(0x0FFF_FFF0), Operation::Multiplication, &dec("1000")),
        Some(OperandValue::Number(NumericValue::new(huge(0x0FFF_FFF3))))
    );
    assert_eq!(combine(&huge(-0x0FFF_FFF0), Operation::Division, &huge(16)), None);
    let huge = huge(0x0FFF_FFF0);
    let mut calculation = Calculation::new(
        vec![],
        vec![
            Operand::new(
                Some(Operation::Multiplication),
                OperandValue::Number(NumericValue::new(huge)),
            ),
            Operand::new(None, number("10000000000000000")),
        ],
    );
    let before = calculation.clone();
    assert!(!calculation.evaluate());
    assert_eq!(calculation, before);
}

#[test]
fn evaluation_with_one_operand_changes_nothing() {
    let mut calculation = single(number("5"));
    assert!(calculation.evaluate());
    assert_eq!(calculation, single(number("5")));
    let mut calculation = Calculation::new(vec![], vec![]);
    assert!(calculation.evaluate());
    assert_eq!(calculation, Calculation::new(vec![], vec![]));
}

#[test]
fn backspace_stops_at_a_single_zero() {
    let mut calculation = Calculation::default();
    calculation.append_number(1);
    calculation.append_number(5);
    calculation.append_number(5);
    for shown in ["15", "1", "0", "0", "0"] {
        assert!(calculation.accepts_removal());
        calculation.remove_last();
        assert_eq!(calculation.current_operation_string(), shown);
        assert_eq!(calculation.operands().len(), 1);
    }
    assert_eq!(calculation, Calculation::default());
}

#[test]
fn decimal_point_twice_is_decimal_point_once() {
    let mut calculation = Calculation::default();
    calculation.add_comma();
    assert_eq!(calculation, single(number_with_comma("0")));
    assert_eq!(calculation.current_operation_string(), "0.");
    calculation.add_comma();
    assert_eq!(calculation, single(number_with_comma("0")));
    assert_eq!(calculation.current_operation_string(), "0.");
}

#[test]
fn decimal_point_keeps_the_value() {
    let mut calculation = single(number("12.5"));
    calculation.add_comma();
    assert_eq!(calculation, single(number_with_comma("12.5")));
    assert_eq!(calculation.current_operation_string(), "12.5");
    calculation.append_number(3);
    assert_eq!(calculation, single(number("12.53")));
}

#[test]
fn decimal_point_after_an_operation_starts_an_operand() {
    let mut calculation = Calculation::default();
    calculation.append_number(5);
    calculation.append_operation(Operation::Subtraction);
    calculation.add_comma();
    assert_eq!(calculation.current_operation_string(), "5-0.");
    calculation.append_number(2);
    calculation.append_number(5);
    assert_eq!(calculation.current_operation_string(), "5-0.25");
    calculation.calculate();
    assert_eq!(calculation.current_operation_string(), "4.75");
    let mut calculation = Calculation::new(vec![], vec![]);
    calculation.add_comma();
    assert_eq!(calculation, single(number_with_comma("0")));
}

#[test]
fn typing_and_taking_back_returns_to_zero() {
    let keys = [
        Event::Number(1),
        Event::Number(0),
        Event::Comma,
        Event::Number(0),
        Event::Number(5),
        Event::Comma,
        Event::Number(0),
        Event::Number(7),
    ];
    let mut calculation = Calculation::default();
    press(&mut calculation, &keys);
    assert_eq!(calculation.current_operation_string(), "10.0507");
    assert_eq!(calculation, single(number("10.0507")));
    for _ in 0..keys.len() {
        assert!(calculation.accepts_removal());
        calculation.remove_last();
    }
    assert_eq!(calculation, Calculation::default());

    let keys = [Event::Comma, Event::Number(0), Event::Number(5), Event::Number(0)];
    let mut calculation = Calculation::default();
    press(&mut calculation, &keys);
    assert_eq!(calculation.current_operation_string(), "0.050");
    press(&mut calculation, &[Event::Clear, Event::Clear, Event::Clear, Event::Clear]);
    assert_eq!(calculation, Calculation::default());
}

#[test]
fn taking_back_digits_behind_the_point() {
    let mut calculation = single(number("1.05"));
    calculation.remove_last();
    assert_eq!(calculation, single(typed("1.0")));
    assert_eq!(calculation.current_operation_string(), "1.0");
    calculation.remove_last();
    assert_eq!(calculation, single(number_with_comma("1")));
    assert_eq!(calculation.current_operation_string(), "1.");
    calculation.remove_last();
    assert_eq!(calculation, single(number("1")));
    let mut calculation = single(number("0.5"));
    calculation.remove_last();
    assert_eq!(calculation, single(number_with_comma("0")));
    calculation.remove_last();
    assert_eq!(calculation, single(number("0")));
    let mut calculation = single(number("-0.5"));
    calculation.remove_last();
    assert_eq!(calculation, single(number_with_comma("0")));
    let mut calculation = single(number("-12"));
    calculation.remove_last();
    assert_eq!(calculation, single(number("-1")));
    assert!(!calculation.accepts_removal());
    assert!(!calculation.accepts(&Event::Clear));
}

#[test]
fn taking_back_in_a_chain() {
    let mut calculation = Calculation::default();
    press(
        &mut calculation,
        &[
            Event::Number(5),
            Event::Operation(Operation::Addition),
            Event::Comma,
            Event::Number(5),
        ],
    );
    for shown in ["5+0.", "5+0", "5+", "5", "0", "0"] {
        press(&mut calculation, &[Event::Clear]);
        assert_eq!(calculation.current_operation_string(), shown);
    }
    let mut calculation = Calculation::default();
    press(
        &mut calculation,
        &[Event::Number(5), Event::Operation(Operation::Addition), Event::Number(3)],
    );
    press(&mut calculation, &[Event::Clear]);
    assert_eq!(calculation.current_operation_string(), "5+");
}

#[test]
fn taking_back_undefined_gives_zero() {
    let mut calculation = single(OperandValue::Undefined);
    calculation.remove_last();
    assert_eq!(calculation, Calculation::default());
    let mut calculation = Calculation::new(vec![], vec![]);
    calculation.remove_last();
    assert_eq!(calculation, Calculation::new(vec![], vec![]));
}

#[test]
fn undefined_takes_no_digits() {
    let calculation = single(OperandValue::Undefined);
    assert!(calculation.is_empty());
    assert!(!calculation.accepts_number(5));
    assert!(!calculation.accepts_comma());
    // Nothing is lost, so typing starts afresh.
    assert!(calculation.accepts(&Event::Number(5)));
    assert!(calculation.accepts(&Event::Comma));
    let mut calculation = Calculation::new(
        vec![],
        vec![Operand::new(Some(Operation::Addition), OperandValue::Undefined)],
    );
    assert!(!calculation.is_empty());
    assert!(!calculation.accepts_number(5));
    assert!(!calculation.accepts_comma());
    assert!(!calculation.accepts(&Event::Number(5)));
    assert!(!calculation.accepts(&Event::Comma));
    assert_eq!(calculation.current_operation_string(), "Undefined+");
    // The way out is to take the operation back, and then the value.
    press(&mut calculation, &[Event::Clear]);
    assert_eq!(calculation, single(OperandValue::Undefined));
    press(&mut calculation, &[Event::Clear]);
    assert_eq!(calculation, Calculation::default());
    let mut calculation = Calculation::new(
        vec![],
        vec![
            Operand::new(Some(Operation::Addition), OperandValue::Undefined),
            Operand::new(None, number("5")),
        ],
    );
    calculation.calculate();
    assert_eq!(calculation.current_operation_string(), "Undefined");
}

#[test]
fn evaluation_keeps_what_was_typed() {
    let mut calculation = Calculation::default();
    press(
        &mut calculation,
        &[
            Event::Number(7),
            Event::Comma,
            Event::Number(5),
            Event::Operation(Operation::Subtraction),
            Event::Number(1),
            Event::Number(0),
            Event::Operation(Operation::Division),
            Event::Number(4),
        ],
    );
    let typed = calculation.current_operation_string();
    assert_eq!(typed, "7.5-10÷4");
    press(&mut calculation, &[Event::Operation(Operation::Equals)]);
    assert_eq!(calculation.past_operations_string(), typed);
    assert_eq!(calculation.operands(), &vec![Operand::new(None, number("-0.625"))]);
    assert_eq!(calculation.current_operation_string(), "-0.625");
}

#[test]
fn operation_after_evaluation_continues_from_the_result() {
    let mut calculation = Calculation::default();
    press(
        &mut calculation,
        &[
            Event::Number(6),
            Event::Operation(Operation::Multiplication),
            Event::Number(7),
            Event::Operation(Operation::Equals),
            Event::Operation(Operation::Subtraction),
        ],
    );
    assert_eq!(calculation.past_operations_string(), "");
    assert_eq!(
        calculation,
        Calculation::new(vec![], vec![Operand::new(Some(Operation::Subtraction), number("42"))])
    );
    press(&mut calculation, &[Event::Number(2), Event::Operation(Operation::Equals)]);
    assert_eq!(calculation.current_operation_string(), "40");
    assert_eq!(calculation.past_operations_string(), "42-2");
}

#[test]
fn clear_after_a_result_starts_afresh() {
    let mut calculation = Calculation::default();
    press(
        &mut calculation,
        &[
            Event::Number(6),
            Event::Operation(Operation::Multiplication),
            Event::Number(7),
            Event::Operation(Operation::Equals),
            Event::Clear,
        ],
    );
    assert_eq!(calculation, Calculation::default());
}

#[test]
fn idle_inputs_do_nothing() {
    let mut calculation = single(number("5"));
    press(&mut calculation, &[Event::PlusMinus, Event::Percent, Event::Noop]);
    assert_eq!(calculation, single(number("5")));
}

#[test]
fn operations_show_their_signs() {
    assert_eq!(Operation::Addition.to_text(), "+");
    assert_eq!(Operation::Subtraction.to_text(), "-");
    assert_eq!(Operation::Multiplication.to_text(), "⨉");
    assert_eq!(Operation::Division.to_text(), "÷");
    assert_eq!(Operation::Equals.to_text(), "＝");
    assert_eq!(OperandValue::Undefined.to_text(), "Undefined");
    assert_eq!(number_with_comma("3").to_text(), "3.");
    assert_eq!(number_with_comma("3.5").to_text(), "3.5");
    assert_eq!(Operand::new(Some(Operation::Division), number("-3")).to_text(), "-3÷");
}

#[test]
fn numbers_of_several_digits_are_written_out() {
    let mut calculation = single(number("5"));
    calculation.append_number(10);
    assert_eq!(calculation, single(number("510")));
    let mut calculation = single(number_with_comma("5"));
    calculation.append_number(120);
    assert_eq!(calculation, single(typed("5.120")));
    assert_eq!(calculation.current_operation_string(), "5.120");
    let mut calculation = single(number("-2"));
    calculation.append_number(7);
    assert_eq!(calculation, single(number("-27")));
    let mut calculation = single(number("-0.5"));
    calculation.append_number(5);
    assert_eq!(calculation, single(number("-0.55")));
}

#[test]
fn numeric_value_reports_its_parts() {
    let value = NumericValue::new(dec("2.50"));
    assert_eq!(value.val(), &dec("2.5"));
    assert!(value.is_float());
    assert!(!value.has_comma());
    assert!(!value.is_default());
    assert_eq!(value.to_text(), "2.5");
    let value = NumericValue::new_with_comma(dec("0"));
    assert!(!value.is_float());
    assert!(value.has_comma());
    assert!(!value.is_default());
    assert!(NumericValue::default().is_default());
    assert_eq!(NumericValue::default(), NumericValue::new(dec("0")));
    assert_eq!(Operand::default(), Operand::new(None, number("0")));
    let operand = Operand::new(Some(Operation::Addition), number("1"));
    assert_eq!(operand.operation(), Some(Operation::Addition));
    assert_eq!(operand.value(), &number("1"));
    let calculation = Calculation::new(vec![operand.clone()], vec![Operand::default()]);
    assert_eq!(calculation.past_operands(), &vec![operand]);
    assert_eq!(calculation.clone(), calculation);
}

#[test]
fn zeros_typed_behind_the_point_are_kept() {
    let mut calculation = Calculation::default();
    calculation.append_number(3);
    calculation.add_comma();
    calculation.append_number(0);
    assert_eq!(calculation.current_operation_string(), "3.0");
    assert_eq!(calculation, single(typed("3.0")));
    assert!(!calculation.is_empty());
    calculation.append_number(5);
    assert_eq!(calculation.current_operation_string(), "3.05");
    assert_eq!(calculation, single(number("3.05")));

    for (keys, shown) in [
        (vec![Event::Comma, Event::Number(0), Event::Number(5)], "0.05"),
        (
            vec![Event::Number(0), Event::Comma, Event::Number(0), Event::Number(5)],
            "0.05",
        ),
        (
            vec![Event::Number(1), Event::Comma, Event::Number(0), Event::Number(5)],
            "1.05",
        ),
        (
            vec![
                Event::Number(1),
                Event::Number(0),
                Event::Comma,
                Event::Number(0),
                Event::Number(1),
            ],
            "10.01",
        ),
        (
            vec![Event::Number(2), Event::Comma, Event::Number(5), Event::Number(0)],
            "2.50",
        ),
        (
            vec![Event::Number(2), Event::Comma, Event::Number(0), Event::Number(0)],
            "2.00",
        ),
    ] {
        let mut calculation = Calculation::default();
        press(&mut calculation, &keys);
        assert_eq!(calculation.current_operation_string(), shown);
        assert_eq!(calculation, single(typed(shown)));
        for _ in 0..keys.len() {
            press(&mut calculation, &[Event::Clear]);
        }
        assert_eq!(calculation, Calculation::default());
    }
}

#[test]
fn zeros_behind_the_point_do_not_change_the_value() {
    let mut calculation = Calculation::default();
    press(
        &mut calculation,
        &[
            Event::Number(2),
            Event::Comma,
            Event::Number(5),
            Event::Number(0),
            Event::Operation(Operation::Multiplication),
            Event::Number(2),
            Event::Comma,
            Event::Number(0),
        ],
    );
    assert_eq!(calculation.current_operation_string(), "2.50⨉2.0");
    press(&mut calculation, &[Event::Operation(Operation::Equals)]);
    assert_eq!(calculation.current_operation_string(), "5");
    assert_eq!(calculation.past_operations_string(), "2.50⨉2.0");
    assert_eq!(calculation.operands(), &vec![Operand::new(None, number("5"))]);
}

#[test]
fn entries_are_read_with_what_stands_behind_the_point() {
    let entry = NumericValue::read("3.0").unwrap();
    assert_eq!(entry.val(), &dec("3"));
    assert!(!entry.is_float());
    assert!(!entry.has_comma());
    assert_eq!(entry.trailing_zeros(), 1);
    assert_eq!(entry.to_text(), "3.0");
    let entry = NumericValue::read("3.").unwrap();
    assert_eq!(entry, NumericValue::new_with_comma(dec("3")));
    assert_eq!(entry.trailing_zeros(), 0);
    assert_eq!(entry.to_text(), "3.");
    let entry = NumericValue::read("-03.0500").unwrap();
    assert_eq!(entry.val(), &dec("-3.05"));
    assert_eq!(entry.trailing_zeros(), 2);
    assert_eq!(entry.to_text(), "-3.0500");
    let entry = NumericValue::read("-0.00").unwrap();
    assert!(entry.val().is_zero());
    assert_eq!(entry.trailing_zeros(), 2);
    assert_eq!(entry.to_text(), "0.00");
    assert_eq!(NumericValue::read("12").unwrap(), NumericValue::new(dec("12")));
    assert_eq!(NumericValue::read("1.25").unwrap(), NumericValue::new(dec("1.25")));
    assert_eq!(
        NumericValue::new(dec("1.5")).with_comma(),
        NumericValue::new_with_comma(dec("1.5"))
    );
    assert_eq!(NumericValue::read("3.0").unwrap().with_comma().to_text(), "3.0");
    for text in ["", ".", "-", "1.2.3", "1e5", "+1", "3.0 "] {
        assert_eq!(NumericValue::read(text), None);
    }
}

#[test]
fn idle_only_without_an_operation() {
    let with_operation = |value| {
        Calculation::new(vec![], vec![Operand::new(Some(Operation::Addition), value)])
    };
    assert!(!with_operation(OperandValue::Undefined).is_empty());
    assert!(!with_operation(number("0")).is_empty());
    assert!(single(OperandValue::Undefined).is_empty());
    assert!(single(number("0")).is_empty());
    assert!(!single(number_with_comma("0")).is_empty());
    assert!(!single(typed("0.0")).is_empty());
    assert!(Calculation::new(vec![], vec![]).is_empty());
    assert!(
        Calculation::new(vec![Operand::default()], vec![Operand::new(None, number("7"))])
            .is_empty()
    );
}
