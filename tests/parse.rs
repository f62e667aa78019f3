use tf2_price::{
    parse_from_string, split_elements, ElementKind, ParseError, INVALID_CURRENCIES_FORMAT,
    ONE_REF,
};

#[test]
fn splits_elements_and_classifies_them() {
    let elements = split_elements("2 keys, 23.33 ref, 1 key, 5 gems, oops");
    assert_eq!(5, elements.len());
    assert_eq!(ElementKind::Keys, elements[0].kind);
    assert_eq!(vec!['2'], elements[0].count);
    assert_eq!(ElementKind::Metal, elements[1].kind);
    assert_eq!("23.33".chars().collect::<Vec<char>>(), elements[1].count);
    assert_eq!(ElementKind::Keys, elements[2].kind);
    assert_eq!(ElementKind::Unknown, elements[3].kind);
    assert_eq!(ElementKind::Malformed, elements[4].kind);
    assert!(elements[4].count.is_empty());
}

#[test]
fn parses_keys_and_metal() {
    let r = parse_from_string("2 keys, 2 ref", &vec![None, Some(2 * ONE_REF)]);
    assert_eq!(Ok((2, 36)), r);
}

#[test]
fn parses_single_key() {
    assert_eq!(Ok((1, 0)), parse_from_string("1 key", &vec![None]));
}

#[test]
fn parses_metal_only() {
    assert_eq!(Ok((0, 6)), parse_from_string("0.33 ref", &vec![Some(6)]));
}

#[test]
fn parses_signed_key_counts() {
    assert_eq!(Ok((-5, 0)), parse_from_string("-5 keys", &vec![None]));
    assert_eq!(Ok((7, 0)), parse_from_string("+7 keys", &vec![None]));
    assert_eq!(Ok((i64::MIN, 0)), parse_from_string("-9223372036854775808 keys", &vec![None]));
    assert_eq!(Ok((i64::MAX, 0)), parse_from_string("9223372036854775807 keys", &vec![None]));
}

#[test]
fn later_element_replaces_earlier() {
    let r = parse_from_string("1 key, 3 keys, 1 ref, 2 ref", &vec![None, None, Some(18), Some(36)]);
    assert_eq!(Ok((3, 36)), r);
}

#[test]
fn empty_string_is_malformed() {
    assert_eq!(Err(ParseError::MalformedElement), parse_from_string("", &vec![None]));
}

#[test]
fn unknown_symbol_is_rejected() {
    assert_eq!(Err(ParseError::UnknownSymbol), parse_from_string("5 gems", &vec![None]));
}

#[test]
fn unreadable_metal_count_is_rejected() {
    assert_eq!(Err(ParseError::UnparsableMetalCount), parse_from_string("abc ref", &vec![None]));
}

#[test]
fn unreadable_key_count_is_rejected() {
    assert_eq!(Err(ParseError::UnparsableKeyCount), parse_from_string("1.5 keys", &vec![None]));
    assert_eq!(Err(ParseError::UnparsableKeyCount), parse_from_string("- keys", &vec![None]));
    assert_eq!(Err(ParseError::UnparsableKeyCount), parse_from_string("+ keys", &vec![None]));
    assert_eq!(
        Err(ParseError::UnparsableKeyCount),
        parse_from_string("9223372036854775808 keys", &vec![None])
    );
    assert_eq!(
        Err(ParseError::UnparsableKeyCount),
        parse_from_string("-9223372036854775809 keys", &vec![None])
    );
}

#[test]
fn zero_amounts_parse_to_nothing() {
    assert_eq!(Err(ParseError::NoCurrencyParsed), parse_from_string("0 keys", &vec![None]));
    assert_eq!(
        Err(ParseError::NoCurrencyParsed),
        parse_from_string("0 keys, 0 ref", &vec![None, Some(0)])
    );
}

#[test]
fn elements_of_wrong_shape_are_malformed() {
    assert_eq!(Err(ParseError::MalformedElement), parse_from_string("2  keys", &vec![None]));
    assert_eq!(Err(ParseError::MalformedElement), parse_from_string("2 keys,2 ref", &vec![None]));
    assert_eq!(Err(ParseError::MalformedElement), parse_from_string("keys", &vec![None]));
    assert_eq!(Err(ParseError::MalformedElement), parse_from_string("2 keys, ", &vec![None, None]));
}

#[test]
fn first_failing_element_decides_the_error() {
    assert_eq!(
        Err(ParseError::UnparsableMetalCount),
        parse_from_string("abc ref, 5 gems", &vec![None, None])
    );
    assert_eq!(
        Err(ParseError::UnknownSymbol),
        parse_from_string("5 gems, abc ref", &vec![None, None])
    );
}

#[test]
fn error_messages() {
    assert_eq!(INVALID_CURRENCIES_FORMAT, ParseError::MalformedElement.message());
    assert_eq!(INVALID_CURRENCIES_FORMAT, ParseError::UnknownSymbol.message());
    assert_eq!("Error parsing key count", ParseError::UnparsableKeyCount.message());
    assert_eq!("Error parsing metal count", ParseError::UnparsableMetalCount.message());
    assert_eq!(
        "No currencies could be parsed from string",
        ParseError::NoCurrencyParsed.message()
    );
}
