use bookshelf::bookshelf::{Isbn, IsbnError};
use bookshelf::decimal::{parse_u64, push_decimal, u64_to_decimal, DecimalError};

fn std_message(s: &str) -> String {
    s.parse::<u64>().unwrap_err().to_string()
}

#[test]
fn parse_plain_and_signed_numbers() {
    assert_eq!(parse_u64("123"), Ok(123));
    assert_eq!(parse_u64("+7"), Ok(7));
    assert_eq!(parse_u64("0"), Ok(0));
    assert_eq!(parse_u64("007"), Ok(7));
    assert_eq!(parse_u64("18446744073709551615"), Ok(u64::MAX));
}

#[test]
fn parse_errors_match_std() {
    for (text, kind) in [
        ("", DecimalError::Empty),
        ("+", DecimalError::InvalidDigit),
        ("-", DecimalError::InvalidDigit),
        ("-1", DecimalError::InvalidDigit),
        ("12a", DecimalError::InvalidDigit),
        (" 1", DecimalError::InvalidDigit),
        ("１２", DecimalError::InvalidDigit),
        ("18446744073709551616", DecimalError::PosOverflow),
        ("99999999999999999999x", DecimalError::PosOverflow),
        ("1x99999999999999999999", DecimalError::InvalidDigit),
    ] {
        assert_eq!(parse_u64(text), Err(kind), "text {:?}", text);
        assert!(text.parse::<u64>().is_err());
        assert_eq!(kind.message(), std_message(text), "text {:?}", text);
    }
}

#[test]
fn decimal_text_of_numbers() {
    assert_eq!(u64_to_decimal(0), "0");
    assert_eq!(u64_to_decimal(9), "9");
    assert_eq!(u64_to_decimal(10), "10");
    assert_eq!(u64_to_decimal(9784297105594), "9784297105594");
    assert_eq!(u64_to_decimal(u64::MAX), u64::MAX.to_string());
    let mut s = String::from("isbn:");
    push_decimal(42, &mut s);
    assert_eq!(s, "isbn:42");
}

#[test]
fn decimal_roundtrip_on_samples() {
    for n in [0u64, 1, 9, 10, 99, 100, 12345, 9780000000000, u64::MAX - 1, u64::MAX] {
        assert_eq!(parse_u64(&u64_to_decimal(n)), Ok(n));
    }
}

#[test]
fn isbn_new_checks_range() {
    assert_eq!(Isbn::new(9780000000000).unwrap(), Isbn(9780000000000));
    assert_eq!(Isbn::new(9799999999999).unwrap(), Isbn(9799999999999));
    assert!(matches!(Isbn::new(9779999999999), Err(IsbnError::RangeError(9779999999999))));
    assert!(matches!(Isbn::new(9800000000000), Err(IsbnError::RangeError(9800000000000))));
    assert!(matches!(Isbn::new(0), Err(IsbnError::RangeError(0))));
}

#[test]
fn isbn_try_from_text() {
    assert_eq!(Isbn::try_from(String::from("9784297105594")).unwrap(), Isbn(9784297105594));
    match Isbn::try_from(String::from("97842971055x4")) {
        Err(IsbnError::ParseError(m)) => assert_eq!(m, "invalid digit found in string"),
        other => panic!("unexpected {:?}", other),
    }
    match Isbn::try_from(String::new()) {
        Err(IsbnError::ParseError(m)) => assert_eq!(m, "cannot parse integer from empty string"),
        other => panic!("unexpected {:?}", other),
    }
    assert!(matches!(
        Isbn::try_from(String::from("1234")),
        Err(IsbnError::RangeError(1234))
    ));
    match Isbn::try_from(String::from("99999999999999999999")) {
        Err(IsbnError::ParseError(m)) => assert_eq!(m, "number too large to fit in target type"),
        other => panic!("unexpected {:?}", other),
    }
}

#[test]
fn isbn_to_string_and_back() {
    let isbn = Isbn(9784297105594);
    assert_eq!(isbn.to_string(), "9784297105594");
    assert_eq!(Isbn::try_from(isbn.to_string()).unwrap(), isbn);
    let low = Isbn(9780000000000);
    assert_eq!(Isbn::try_from(low.to_string()).unwrap(), low);
}

#[test]
fn isbn_error_texts() {
    assert_eq!(
        IsbnError::RangeError(12).to_string(),
        "ISBN must be between 9780000000000 - 9799999999999: 12"
    );
    assert_eq!(
        IsbnError::ParseError("invalid digit found in string".to_string()).to_string(),
        "parse error to u64: invalid digit found in string"
    );
}
