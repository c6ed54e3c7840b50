use zord::amount::{
    decimal_less, is_decimal, parse_amount, strip_plus, validate_decimals,
    validate_numeric_string, AmountError, DecimalsError, NumericError,
};
use zord::api::{format_supply_string, parse_decimal_amount, parse_u128};

const E18: u128 = 1_000_000_000_000_000_000;

#[test]
fn zero_is_no_value() {
    assert_eq!(validate_numeric_string("0", &None), Err(NumericError::Zero));
}

#[test]
fn empty_string_is_no_number() {
    assert_eq!(validate_numeric_string("", &None), Err(NumericError::Empty));
}

#[test]
fn leading_and_trailing_dots_are_rejected() {
    assert_eq!(validate_numeric_string(".5", &None), Err(NumericError::DotAtEdge));
    assert_eq!(validate_numeric_string("5.", &None), Err(NumericError::DotAtEdge));
}

#[test]
fn more_than_one_dot_is_rejected() {
    assert_eq!(validate_numeric_string("1.2.3", &None), Err(NumericError::MultipleDots));
}

#[test]
fn exponent_notation_is_rejected() {
    assert_eq!(validate_numeric_string("1e3", &None), Err(NumericError::InvalidCharacters));
    assert_eq!(validate_numeric_string("-5", &None), Err(NumericError::InvalidCharacters));
    assert_eq!(validate_numeric_string("+5", &None), Err(NumericError::InvalidCharacters));
}

#[test]
fn eighteen_decimal_places_are_accepted() {
    assert_eq!(validate_numeric_string("1.000000000000000001", &None), Ok(()));
    assert_eq!(validate_numeric_string("1.000000000000000001", &Some("18".to_string())), Ok(()));
}

#[test]
fn decimal_places_beyond_the_declared_ones_are_clipped() {
    assert_eq!(validate_numeric_string("1.0000000000000000001", &None), Ok(()));
    assert_eq!(validate_numeric_string("1.5", &Some("0".to_string())), Ok(()));
    assert_eq!(validate_numeric_string("1.55", &Some("2".to_string())), Ok(()));
    assert_eq!(validate_numeric_string("1.555", &Some("2".to_string())), Ok(()));
}

#[test]
fn zero_and_size_are_judged_on_the_clipped_number() {
    assert_eq!(validate_numeric_string("0.001", &Some("2".to_string())), Err(NumericError::Zero));
    assert_eq!(validate_numeric_string("0.01", &Some("2".to_string())), Ok(()));
    assert_eq!(validate_numeric_string("0.9", &Some("0".to_string())), Err(NumericError::Zero));
    assert_eq!(
        validate_numeric_string("0.0000000000000000009", &None),
        Err(NumericError::Zero)
    );
    assert_eq!(
        validate_numeric_string("340282366920938463463.3746074317682114559", &None),
        Ok(())
    );
    assert_eq!(
        validate_numeric_string("340282366920938463463.3746074317682114560", &None),
        Err(NumericError::TooLarge)
    );
}

#[test]
fn unreadable_decimals_allow_eighteen_places() {
    assert_eq!(validate_numeric_string("1.000000000000000001", &Some("x".to_string())), Ok(()));
}

#[test]
fn value_in_base_units_must_fit_128_bits() {
    assert_eq!(validate_numeric_string("18446744073709551616", &None), Ok(()));
    assert_eq!(validate_numeric_string("500.000000000000000001", &None), Ok(()));
    assert_eq!(validate_numeric_string("340282366920938463463", &None), Ok(()));
    assert_eq!(
        validate_numeric_string("340282366920938463464", &None),
        Err(NumericError::TooLarge)
    );
    assert_eq!(
        validate_numeric_string("340282366920938463463.374607431768211455", &None),
        Ok(())
    );
    assert_eq!(
        validate_numeric_string("340282366920938463463.374607431768211456", &None),
        Err(NumericError::TooLarge)
    );
    let zero_places = Some("0".to_string());
    assert_eq!(
        validate_numeric_string("340282366920938463463374607431768211455", &zero_places),
        Ok(())
    );
    assert_eq!(
        validate_numeric_string("340282366920938463463374607431768211456", &zero_places),
        Err(NumericError::TooLarge)
    );
    assert_eq!(
        validate_numeric_string("9999999999999999999999999999999999999999999", &zero_places),
        Err(NumericError::TooLarge)
    );
    assert_eq!(validate_numeric_string("1", &Some("38".to_string())), Ok(()));
    assert_eq!(validate_numeric_string("4", &Some("38".to_string())), Err(NumericError::TooLarge));
    assert_eq!(validate_numeric_string("1", &Some("39".to_string())), Err(NumericError::TooLarge));
}

#[test]
fn every_spelling_of_zero_is_rejected() {
    assert_eq!(validate_numeric_string("0.0", &None), Err(NumericError::Zero));
    assert_eq!(validate_numeric_string("00", &None), Err(NumericError::Zero));
    assert_eq!(validate_numeric_string("0.000", &Some("1".to_string())), Err(NumericError::Zero));
    assert_eq!(validate_numeric_string("0.1", &None), Ok(()));
    assert_eq!(validate_numeric_string("01", &None), Ok(()));
}

#[test]
fn decimals_rules() {
    assert_eq!(validate_decimals(""), Err(DecimalsError::Empty));
    assert_eq!(validate_decimals("1a"), Err(DecimalsError::NotDigits));
    assert_eq!(validate_decimals("+1"), Err(DecimalsError::NotDigits));
    assert_eq!(validate_decimals("256"), Err(DecimalsError::Invalid));
    assert_eq!(validate_decimals("19"), Err(DecimalsError::TooLarge));
    assert_eq!(validate_decimals("255"), Err(DecimalsError::TooLarge));
    assert_eq!(validate_decimals("18"), Ok(()));
    assert_eq!(validate_decimals("0"), Ok(()));
    assert_eq!(validate_decimals("007"), Ok(()));
}

#[test]
fn amount_in_base_units() {
    assert_eq!(parse_amount("500", "18"), Ok(500 * E18));
    assert_eq!(parse_amount("1.5", "18"), Ok(1_500_000_000_000_000_000));
    assert_eq!(parse_amount("1.000000000000000001", "18"), Ok(E18 + 1));
    assert_eq!(parse_amount("1.23", "2"), Ok(123));
    assert_eq!(parse_amount("7", "0"), Ok(7));
    assert_eq!(parse_amount("21000000", "8"), Ok(2_100_000_000_000_000));
}

#[test]
fn amount_without_whole_part_or_fraction() {
    assert_eq!(parse_amount(".5", "18"), Ok(500_000_000_000_000_000));
    assert_eq!(parse_amount("5.", "18"), Ok(5 * E18));
    assert_eq!(parse_amount("", "18"), Ok(0));
}

#[test]
fn amount_with_unreadable_decimals_uses_eighteen() {
    assert_eq!(parse_amount("2", "x"), Ok(2 * E18));
    assert_eq!(parse_amount("2", ""), Ok(2 * E18));
}

#[test]
fn amount_is_clipped_to_the_decimal_places_of_the_token() {
    assert_eq!(parse_amount("1.23", "1"), Ok(12));
    assert_eq!(parse_amount("1.234", "2"), Ok(123));
    assert_eq!(parse_amount("1.9", "0"), Ok(1));
    assert_eq!(parse_amount("0.9", "0"), Ok(0));
    assert_eq!(parse_amount("7.0000000000000000019", "18"), Ok(7 * E18 + 1));
    assert_eq!(parse_amount("1.2x", "1"), Ok(12));
    assert_eq!(parse_amount("1.2.3", "1"), Ok(12));
    assert_eq!(parse_amount("1.x2", "1"), Err(AmountError::BadFraction));
}

#[test]
fn amount_errors() {
    assert_eq!(parse_amount("abc", "18"), Err(AmountError::BadWhole));
    assert_eq!(
        parse_amount("340282366920938463463374607431768211456", "0"),
        Err(AmountError::BadWhole)
    );
    assert_eq!(parse_amount("1.x", "18"), Err(AmountError::BadFraction));
    assert_eq!(parse_amount("1.2.3", "18"), Err(AmountError::BadFraction));
    assert_eq!(parse_amount("340282366920938463464", "18"), Err(AmountError::TooLarge));
    assert_eq!(
        parse_amount("340282366920938463463", "18"),
        Ok(340_282_366_920_938_463_463_000_000_000_000_000_000)
    );
    assert_eq!(parse_amount("1", "39"), Err(AmountError::TooLarge));
    assert_eq!(parse_amount("0", "39"), Ok(0));
    assert_eq!(parse_amount("0", "0"), Ok(0));
}

#[test]
fn amount_fits_exactly_at_the_top() {
    assert_eq!(
        parse_amount("340282366920938463463374607431768211455", "0"),
        Ok(u128::MAX)
    );
    assert_eq!(
        parse_amount("340282366920938463463.374607431768211455", "18"),
        Ok(u128::MAX)
    );
    assert_eq!(
        parse_amount("340282366920938463463.374607431768211456", "18"),
        Err(AmountError::TooLarge)
    );
}

#[test]
fn displayed_quantity_in_base_units() {
    assert_eq!(parse_decimal_amount("1.5", 18), Ok(1_500_000_000_000_000_000));
    assert_eq!(parse_decimal_amount("21000000", 18), Ok(21_000_000 * E18));
    assert_eq!(parse_decimal_amount("1.23456", 2), Ok(123));
    assert_eq!(parse_decimal_amount("1.2.3", 1), Ok(12));
    assert_eq!(parse_decimal_amount("5.", 2), Ok(500));
    assert_eq!(parse_decimal_amount("7", 0), Ok(7));
}

#[test]
fn displayed_quantity_errors() {
    assert_eq!(parse_decimal_amount(".5", 1), Err(AmountError::BadWhole));
    assert_eq!(parse_decimal_amount("", 1), Err(AmountError::BadWhole));
    assert_eq!(parse_decimal_amount("1.5", 0), Err(AmountError::BadFraction));
    assert_eq!(parse_decimal_amount("1.x", 2), Err(AmountError::BadFraction));
    assert_eq!(
        parse_decimal_amount("340282366920938463464", 18),
        Err(AmountError::TooLarge)
    );
    assert_eq!(parse_decimal_amount("2", 39), Err(AmountError::TooLarge));
}

#[test]
fn supply_is_displayed_without_trailing_zeros() {
    assert_eq!(format_supply_string("500000000000000000000", 18), "500");
    assert_eq!(format_supply_string("1500000000000000000", 18), "1.5");
    assert_eq!(format_supply_string("1", 18), "0.000000000000000001");
    assert_eq!(format_supply_string("123", 0), "123");
    assert_eq!(format_supply_string("1234", 2), "12.34");
    assert_eq!(format_supply_string("1200", 2), "12");
    assert_eq!(format_supply_string("1230", 2), "12.3");
    assert_eq!(format_supply_string("0", 18), "0");
    assert_eq!(format_supply_string("5", 1), "0.5");
}

#[test]
fn unreadable_supply_is_displayed_as_zero() {
    assert_eq!(format_supply_string("abc", 18), "0");
    assert_eq!(format_supply_string("", 2), "0");
}

#[test]
fn supply_with_more_decimals_than_digits_fit() {
    assert_eq!(
        format_supply_string("7", 40),
        "0.0000000000000000000000000000000000000007"
    );
}

#[test]
fn number_or_zero() {
    assert_eq!(parse_u128("42"), 42);
    assert_eq!(parse_u128("+42"), 42);
    assert_eq!(parse_u128("0042"), 42);
    assert_eq!(parse_u128("-1"), 0);
    assert_eq!(parse_u128(""), 0);
    assert_eq!(parse_u128("+"), 0);
    assert_eq!(parse_u128("4 2"), 0);
    assert_eq!(parse_u128("340282366920938463463374607431768211455"), u128::MAX);
    assert_eq!(parse_u128("340282366920938463463374607431768211456"), 0);
}

fn chars(s: &str) -> Vec<char> {
    s.chars().collect()
}

#[test]
fn decimal_numbers_of_any_length_are_compared() {
    let less = |a: &str, b: &str| decimal_less(&chars(a), &chars(b));
    assert!(less("9", "10"));
    assert!(!less("10", "9"));
    assert!(!less("10", "10"));
    assert!(less("0009", "10"));
    assert!(!less("0010", "10"));
    assert!(less("10", "0011"));
    assert!(less("", "1"));
    assert!(!less("", "000"));
    assert!(less("000", "001"));
    assert!(less("18446744073709551616", "18446744073709551617"));
    assert!(!less("18446744073709551617", "18446744073709551617"));
    assert!(less(
        "340282366920938463463374607431768211456",
        "340282366920938463463374607431768211457"
    ));
    assert!(less(
        "99999999999999999999999999999999999999",
        "100000000000000000000000000000000000000"
    ));
    assert!(!less(
        "100000000000000000000000000000000000000",
        "99999999999999999999999999999999999999"
    ));
    assert!(less("123456789012345678901234567890", "123456789012345678911234567890"));
    assert!(!less("123456789012345678911234567890", "123456789012345678901234567890"));
}

#[test]
fn texts_of_decimal_digits() {
    assert!(is_decimal(&chars("0")));
    assert!(is_decimal(&chars("0012345678901234567890123456789012345678901234567890")));
    assert!(!is_decimal(&chars("")));
    assert!(!is_decimal(&chars("+1")));
    assert!(!is_decimal(&chars("1.0")));
    assert!(!is_decimal(&chars("١")));
    assert_eq!(strip_plus(&chars("+12")), chars("12"));
    assert_eq!(strip_plus(&chars("12")), chars("12"));
    assert_eq!(strip_plus(&chars("++1")), chars("+1"));
    assert_eq!(strip_plus(&chars("")), chars(""));
}

#[test]
fn a_field_that_passes_has_a_value_that_is_not_zero() {
    let cases: [(&str, &str, u128); 6] = [
        ("1", "0", 1),
        ("1.9", "0", 1),
        ("1.239", "2", 123),
        ("0.05", "2", 5),
        ("12.5", "3", 12500),
        ("340282366920938463463.374607431768211455", "18", u128::MAX),
    ];
    for (text, dec, value) in cases {
        assert_eq!(validate_numeric_string(text, &Some(dec.to_string())), Ok(()));
        assert_eq!(validate_decimals(dec), Ok(()));
        assert_eq!(parse_amount(text, dec), Ok(value));
    }
    assert_eq!(
        validate_numeric_string("0.009", &Some("2".to_string())),
        Err(NumericError::Zero)
    );
    assert_eq!(parse_amount("0.009", "2"), Ok(0));
}
