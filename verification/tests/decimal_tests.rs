use rates::decimal::{parse_decimal, parse_price, Decimal};

#[test]
fn parses_plain_decimal() {
    assert_eq!(parse_decimal("0.9"), Some(Decimal { m: 9, k: 1 }));
    assert_eq!(parse_decimal("1.08"), Some(Decimal { m: 108, k: 2 }));
    assert_eq!(parse_decimal("45000"), Some(Decimal { m: 45000, k: 0 }));
    assert_eq!(parse_decimal("007"), Some(Decimal { m: 7, k: 0 }));
    assert_eq!(parse_decimal("0"), Some(Decimal { m: 0, k: 0 }));
}

#[test]
fn parses_edge_shapes() {
    // A dot with digits on only one side still denotes a number.
    assert_eq!(parse_decimal("1."), Some(Decimal { m: 1, k: 0 }));
    assert_eq!(parse_decimal(".5"), Some(Decimal { m: 5, k: 1 }));
}

#[test]
fn rejects_malformed_decimals() {
    assert_eq!(parse_decimal(""), None);
    assert_eq!(parse_decimal("."), None);
    assert_eq!(parse_decimal("1.2.3"), None);
    assert_eq!(parse_decimal("1e3"), None);
    assert_eq!(parse_decimal("-1.0"), None);
    assert_eq!(parse_decimal("1,000"), None);
    assert_eq!(parse_decimal(" 1"), None);
}

#[test]
fn rejects_unrepresentable_decimals() {
    // A 20-digit mantissa outgrows a 64-bit word.
    assert_eq!(parse_decimal("99999999999999999999"), None);
    // 19 digits still fit.
    assert_eq!(
        parse_decimal("9999999999999999999"),
        Some(Decimal { m: 9999999999999999999, k: 0 })
    );
    // At most 19 fractional digits are representable.
    assert_eq!(parse_decimal("0.00000000000000000001"), None);
    assert_eq!(
        parse_decimal("0.0000000000000000001"),
        Some(Decimal { m: 1, k: 19 })
    );
}

#[test]
fn builder_checks_the_scale() {
    assert_eq!(Decimal::new(5, 2), Some(Decimal { m: 5, k: 2 }));
    assert_eq!(Decimal::new(5, 19), Some(Decimal { m: 5, k: 19 }));
    assert_eq!(Decimal::new(5, 20), None);
}

#[test]
fn price_parsing_strips_one_symbol() {
    // The formatted monetary string of the feed parses to its number.
    assert_eq!(parse_price("$1234.56"), Some(Decimal { m: 123456, k: 2 }));
    assert_eq!(parse_price("$50000.00"), Some(Decimal { m: 5000000, k: 2 }));
    // Without decoration the number is read as it stands.
    assert_eq!(parse_price("38500.32"), Some(Decimal { m: 3850032, k: 2 }));
    // A multi-byte currency sign is one character, stripped as a whole.
    assert_eq!(parse_price("\u{20ac}1.5"), Some(Decimal { m: 15, k: 1 }));
    // Only one leading symbol is stripped.
    assert_eq!(parse_price("$$1.5"), None);
    assert_eq!(parse_price("$"), None);
    assert_eq!(parse_price(""), None);
}
