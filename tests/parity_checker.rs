use parity_paradigms::number_text::{parse_number, InputError};
use parity_paradigms::parity::{check_parity, classify, Parity};

#[test]
fn positive_even_is_even() {
    assert_eq!(check_parity("4"), Ok(Parity::Even));
}

#[test]
fn positive_odd_is_odd() {
    assert_eq!(check_parity("7"), Ok(Parity::Odd));
}

#[test]
fn zero_is_even() {
    assert_eq!(check_parity("0"), Ok(Parity::Even));
}

#[test]
fn negative_odd_is_odd() {
    assert_eq!(check_parity("-3"), Ok(Parity::Odd));
}

#[test]
fn negative_even_is_even() {
    assert_eq!(check_parity("-4"), Ok(Parity::Even));
}

#[test]
fn surrounding_whitespace_is_trimmed() {
    assert_eq!(parse_number("  10  "), Ok(10));
    assert_eq!(check_parity("  10  "), Ok(Parity::Even));
}

#[test]
fn line_terminator_is_trimmed() {
    assert_eq!(parse_number("15\n"), Ok(15));
    assert_eq!(parse_number("\t-8\r\n"), Ok(-8));
    assert_eq!(parse_number("\u{3000}12\u{a0}"), Ok(12));
}

#[test]
fn letters_are_a_parse_failure() {
    assert_eq!(check_parity("abc"), Err(InputError::ParseFailure));
}

#[test]
fn empty_line_is_a_parse_failure() {
    assert_eq!(check_parity(""), Err(InputError::ParseFailure));
    assert_eq!(check_parity("\n"), Err(InputError::ParseFailure));
    assert_eq!(check_parity("   "), Err(InputError::ParseFailure));
}

#[test]
fn sign_alone_is_a_parse_failure() {
    assert_eq!(parse_number("-"), Err(InputError::ParseFailure));
    assert_eq!(parse_number("+"), Err(InputError::ParseFailure));
    assert_eq!(parse_number("+-5"), Err(InputError::ParseFailure));
}

#[test]
fn inner_space_is_a_parse_failure() {
    assert_eq!(parse_number("1 2"), Err(InputError::ParseFailure));
    assert_eq!(parse_number("12a"), Err(InputError::ParseFailure));
}

#[test]
fn plus_sign_is_a_parse_failure() {
    assert_eq!(parse_number("+42"), Err(InputError::ParseFailure));
    assert_eq!(check_parity("+5"), Err(InputError::ParseFailure));
}

#[test]
fn minus_zero_and_leading_zeros_are_accepted() {
    assert_eq!(parse_number("-0"), Ok(0));
    assert_eq!(parse_number("007"), Ok(7));
    assert_eq!(parse_number("-007"), Ok(-7));
}

#[test]
fn range_limits_are_accepted() {
    assert_eq!(parse_number("2147483647"), Ok(i32::MAX));
    assert_eq!(parse_number("-2147483648"), Ok(i32::MIN));
    assert_eq!(check_parity("-2147483648"), Ok(Parity::Even));
    assert_eq!(check_parity("2147483647"), Ok(Parity::Odd));
}

#[test]
fn out_of_range_is_a_parse_failure() {
    assert_eq!(parse_number("2147483648"), Err(InputError::ParseFailure));
    assert_eq!(parse_number("-2147483649"), Err(InputError::ParseFailure));
    assert_eq!(parse_number("99999999999999999999"), Err(InputError::ParseFailure));
}

#[test]
fn parsing_agrees_with_std_on_unsigned_and_minus_literals() {
    for text in ["0", "-1", " 12 ", "1_0", "abc", "", "-", "2147483648", "-2147483648"] {
        let expected = text.trim().parse::<i32>().ok();
        assert_eq!(parse_number(text).ok(), expected, "{:?}", text);
    }
    assert_eq!(parse_number("+3"), Err(InputError::ParseFailure));
}

#[test]
fn classify_follows_remainder() {
    assert_eq!(classify(10), Parity::Even);
    assert_eq!(classify(-7), Parity::Odd);
    assert_eq!(classify(i32::MIN), Parity::Even);
}

#[test]
fn labels_and_messages() {
    assert_eq!(Parity::Even.label(), "Even");
    assert_eq!(Parity::Odd.label(), "Odd");
    assert_eq!(InputError::ReadFailure.message(), "Failed to read line");
    assert_eq!(InputError::ParseFailure.message(), "Please enter a valid number");
}
