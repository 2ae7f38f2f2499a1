use calculator::decimal::{Decimal, Numeral};

fn dec(text: &str) -> Decimal {
    Decimal::parse(text).unwrap()
}

fn numeral(significand: &str, exponent: isize) -> Decimal {
    Decimal::from_numeral(Numeral { significand: significand.to_string(), exponent }).unwrap()
}

#[test]
fn parse_reads_plain_numerals() {
    assert_eq!(dec("0"), numeral("0", 0));
    assert_eq!(dec("12"), numeral("12", 0));
    assert_eq!(dec("1200"), numeral("12", 2));
    assert_eq!(dec("0012"), numeral("12", 0));
    assert_eq!(dec("12.34"), numeral("1234", -2));
    assert_eq!(dec("12.340"), numeral("1234", -2));
    assert_eq!(dec("0.05"), numeral("5", -2));
    assert_eq!(dec(".25"), numeral("25", -2));
    assert_eq!(dec("3."), numeral("3", 0));
    assert_eq!(dec("3.0"), numeral("3", 0));
    assert_eq!(dec("30.00"), numeral("3", 1));
    assert_eq!(dec("-7"), numeral("-7", 0));
    assert_eq!(dec("-0.5"), numeral("-5", -1));
    assert_eq!(dec("-0"), numeral("0", 0));
    assert_eq!(dec("-0."), numeral("0", 0));
    assert_eq!(dec("0.0"), numeral("0", 0));
    assert_eq!(dec("-.5"), numeral("-5", -1));
    assert_eq!(dec("000.000"), numeral("0", 0));
    assert_eq!(dec("1000000000000000000000000000000000000001"), numeral("1000000000000000000000000000000000000001", 0));
}

#[test]
fn parse_refuses_everything_else() {
    for text in [
        "", "-", ".", "-.", "+1", "1e5", "1E5", "1@5", "1_000", "1.2.3", "1..2", "--1", "1-", "0x10",
        " 1", "1 ", "a", "１", "inf", "1.-2", "-.-",
    ] {
        assert!(Decimal::parse(text).is_none(), "{text:?}");
    }
}

#[test]
fn text_is_positional() {
    assert_eq!(numeral("0", 0).to_text(), "0");
    assert_eq!(numeral("12", 0).to_text(), "12");
    assert_eq!(numeral("12", 3).to_text(), "12000");
    assert_eq!(numeral("1234", -2).to_text(), "12.34");
    assert_eq!(numeral("1234", -4).to_text(), "0.1234");
    assert_eq!(numeral("1234", -6).to_text(), "0.001234");
    assert_eq!(numeral("-5", -1).to_text(), "-0.5");
    assert_eq!(numeral("-5", 1).to_text(), "-50");
    assert_eq!(numeral("-125", -1).to_text(), "-12.5");
}

#[test]
fn text_of_what_was_parsed() {
    for (text, shown) in [
        ("007", "7"),
        ("7.50", "7.5"),
        ("7.", "7"),
        (".5", "0.5"),
        ("-0.0", "0"),
        ("100", "100"),
        ("0.10", "0.1"),
    ] {
        assert_eq!(dec(text).to_text(), shown);
    }
}

#[test]
fn numerals_that_are_not_well_formed_are_refused() {
    for (significand, exponent) in [
        ("", 0),
        ("-", 0),
        ("-0", 0),
        ("0", 1),
        ("0", -1),
        ("00", 0),
        ("012", 0),
        ("120", 0),
        ("-120", 0),
        ("1a", 0),
        ("+1", 0),
        ("1", 0x1000_0000),
        ("1", -0x1000_0000),
    ] {
        let n = Numeral { significand: significand.to_string(), exponent };
        assert!(Decimal::from_numeral(n).is_none(), "{significand:?} {exponent}");
    }
    assert!(Decimal::from_numeral(Numeral { significand: "1".to_string(), exponent: 0x0FFF_FFFF }).is_some());
    assert!(Decimal::from_numeral(Numeral { significand: "-1".to_string(), exponent: -0x0FFF_FFFF }).is_some());
}

#[test]
fn zero_is_zero() {
    assert!(Decimal::zero().is_zero());
    assert!(dec("0.00").is_zero());
    assert!(!dec("0.01").is_zero());
    assert!(!dec("10").is_zero());
    assert_eq!(Decimal::zero(), dec("0"));
}

#[test]
fn has_fraction_tells_integers_apart() {
    assert!(!dec("5").has_fraction());
    assert!(!dec("5.0").has_fraction());
    assert!(!dec("500").has_fraction());
    assert!(dec("5.5").has_fraction());
    assert!(dec("-0.001").has_fraction());
}

#[test]
fn arithmetic_is_exact_where_thirty_digits_suffice() {
    assert_eq!(dec("5").sum(&dec("7"), 30).unwrap(), dec("12"));
    assert_eq!(dec("0.1").sum(&dec("0.2"), 30).unwrap(), dec("0.3"));
    assert_eq!(dec("5").difference(&dec("7.5"), 30).unwrap(), dec("-2.5"));
    assert_eq!(dec("1.5").product(&dec("-4"), 30).unwrap(), dec("-6"));
    assert_eq!(dec("1").quotient(&dec("8"), 30).unwrap(), dec("0.125"));
    assert_eq!(dec("0").quotient(&dec("8"), 30).unwrap(), dec("0"));
    assert_eq!(dec("5").sum(&dec("0"), 30).unwrap(), dec("5"));
    assert_eq!(dec("999999999999999999999999999999").sum(&dec("1"), 30).unwrap(), dec("1000000000000000000000000000000"));
}

#[test]
fn arithmetic_rounds_to_the_precision() {
    assert_eq!(dec("1").quotient(&dec("3"), 30).unwrap(), dec("0.333333333333333333333333333333"));
    assert_eq!(dec("2").quotient(&dec("3"), 30).unwrap(), dec("0.666666666666666666666666666667"));
    assert_eq!(dec("2").quotient(&dec("3"), 3).unwrap(), dec("0.667"));
    assert_eq!(dec("1.234").product(&dec("6.789"), 2).unwrap(), dec("8.4"));
    assert_eq!(dec("1.234").sum(&dec("6.789"), 2).unwrap(), dec("8.0"));
    assert_eq!(dec("1.25").sum(&dec("0"), 2).unwrap(), dec("1.3"));
    assert_eq!(dec("-1.25").sum(&dec("0"), 2).unwrap(), dec("-1.3"));
    assert_eq!(dec("1.00").difference(&dec("0.99950001"), 3).unwrap(), dec("0.0005"));
    // An inexact difference keeps one digit more than the precision.
    assert_eq!(dec("101").difference(&dec("0.2"), 3).unwrap(), dec("100.8"));
}

/// Every text of at most `len` characters over `alphabet`.
fn texts(alphabet: &[char], len: usize) -> Vec<String> {
    let mut all = vec![String::new()];
    let mut last = vec![String::new()];
    for _ in 0..len {
        let mut next = Vec::new();
        for text in &last {
            for c in alphabet {
                let mut longer = text.clone();
                longer.push(*c);
                next.push(longer);
            }
        }
        all.extend(next.iter().cloned());
        last = next;
    }
    all
}

/// The significand and the exponent of the number that `text` denotes, if
/// `text` is a plain decimal numeral.
fn denoted(text: &str) -> Option<(String, isize)> {
    let (negative, body) = match text.strip_prefix('-') {
        Some(body) => (true, body),
        None => (false, text),
    };
    let (integer, fraction) = match body.find('.') {
        Some(point) => (&body[..point], &body[point + 1..]),
        None => (body, ""),
    };
    let digits = |s: &str| s.chars().all(|c| c.is_ascii_digit());
    if !digits(integer) || !digits(fraction) || integer.len() + fraction.len() == 0 {
        return None;
    }
    let all = format!("{integer}{fraction}");
    let lead = all.trim_start_matches('0');
    let kept = lead.trim_end_matches('0');
    if kept.is_empty() {
        return Some(("0".to_string(), 0));
    }
    let sign = if negative { "-" } else { "" };
    Some((
        format!("{sign}{kept}"),
        (lead.len() - kept.len()) as isize - fraction.len() as isize,
    ))
}

/// The numeral of the number with the given significand and exponent.
fn shown(significand: &str, exponent: isize) -> String {
    let (sign, digits) = match significand.strip_prefix('-') {
        Some(digits) => ("-", digits),
        None => ("", significand),
    };
    if exponent >= 0 {
        format!("{sign}{digits}{}", "0".repeat(exponent as usize))
    } else if digits.len() > exponent.unsigned_abs() {
        let point = digits.len() - exponent.unsigned_abs();
        format!("{sign}{}.{}", &digits[..point], &digits[point..])
    } else {
        format!("{sign}0.{}{digits}", "0".repeat(exponent.unsigned_abs() - digits.len()))
    }
}

#[test]
fn parse_and_text_agree_with_their_description_on_short_texts() {
    let mut plain = 0;
    for text in texts(&['0', '1', '5', '.', '-', '+', 'e', '_'], 5) {
        let parsed = Decimal::parse(&text);
        match denoted(&text) {
            Some((significand, exponent)) => {
                plain += 1;
                let expected = Decimal::from_numeral(Numeral {
                    significand: significand.clone(),
                    exponent,
                });
                assert!(expected.is_some(), "{text:?}");
                assert_eq!(parsed, expected, "{text:?}");
                assert_eq!(parsed.unwrap().to_text(), shown(&significand, exponent), "{text:?}");
            }
            None => assert_eq!(parsed, None, "{text:?}"),
        }
    }
    assert_eq!(plain, 1170);
}

#[test]
fn text_agrees_with_its_description_on_small_numbers() {
    for significand in ["0", "7", "-7", "12", "-12", "105", "9001", "-123456789"] {
        for exponent in -12..=12 {
            if significand == "0" && exponent != 0 {
                continue;
            }
            let number = numeral(significand, exponent);
            let text = number.to_text();
            assert_eq!(text, shown(significand, exponent));
            assert_eq!(Decimal::parse(&text).unwrap(), number);
        }
    }
}
