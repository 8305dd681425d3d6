use swc::money::{format_money, parse_money, MoneyError, MONEY_MAX_CENTS};

#[test]
fn formats_cents_to_two_decimals() {
    assert_eq!(format_money(0), "0.00");
    assert_eq!(format_money(7), "0.07");
    assert_eq!(format_money(50), "0.50");
    assert_eq!(format_money(4200), "42.00");
    assert_eq!(format_money(123456), "1234.56");
    assert_eq!(format_money(-1050), "-10.50");
    assert_eq!(format_money(-1), "-0.01");
}

#[test]
fn parses_two_decimal_strings() {
    assert_eq!(parse_money("0.00"), Ok(0));
    assert_eq!(parse_money("42.00"), Ok(4200));
    assert_eq!(parse_money("1234.56"), Ok(123456));
    assert_eq!(parse_money("-10.50"), Ok(-1050));
    assert_eq!(parse_money("-0.07"), Ok(-7));
    assert_eq!(parse_money("007.10"), Ok(710));
}

#[test]
fn rejects_malformed_amounts() {
    assert_eq!(parse_money(""), Err(MoneyError::Malformed));
    assert_eq!(parse_money("42"), Err(MoneyError::Malformed));
    assert_eq!(parse_money("4.2"), Err(MoneyError::Malformed));
    assert_eq!(parse_money("4.200"), Err(MoneyError::Malformed));
    assert_eq!(parse_money("abc"), Err(MoneyError::Malformed));
    assert_eq!(parse_money("4a.00"), Err(MoneyError::Malformed));
    assert_eq!(parse_money(".00"), Err(MoneyError::Malformed));
    assert_eq!(parse_money("--4.00"), Err(MoneyError::Malformed));
    assert_eq!(parse_money("4,00"), Err(MoneyError::Malformed));
}

#[test]
fn rejects_amounts_out_of_range() {
    // One cent above the largest representable amount.
    assert_eq!(
        parse_money("10000000000000.01"),
        Err(MoneyError::OutOfRange)
    );
    assert_eq!(parse_money("10000000000000.00"), Ok(MONEY_MAX_CENTS));
    assert_eq!(
        parse_money("99999999999999999999999999.00"),
        Err(MoneyError::OutOfRange)
    );
    assert_eq!(parse_money("-10000000000000.01"), Err(MoneyError::OutOfRange));
}

#[test]
fn format_parse_roundtrip() {
    for cents in [0i64, 1, -1, 99, 100, -12345, 4200, MONEY_MAX_CENTS] {
        assert_eq!(parse_money(&format_money(cents)), Ok(cents));
    }
}
