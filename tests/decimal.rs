use bnc_scraper::decimal::{is_zero_qty, parse_price_level};

const UNIT: u128 = 1_000_000_000_000_000_000;

#[test]
fn parses_plain_and_fractional_levels() {
    assert_eq!(parse_price_level("10"), Some(10 * UNIT));
    assert_eq!(parse_price_level("10.0"), Some(10 * UNIT));
    assert_eq!(parse_price_level("10.00000000"), Some(10 * UNIT));
    assert_eq!(parse_price_level("10.1"), Some(10 * UNIT + UNIT / 10));
    assert_eq!(parse_price_level("0.00000001"), Some(10_000_000_000));
    assert_eq!(parse_price_level(".5"), Some(UNIT / 2));
    assert_eq!(parse_price_level("7."), Some(7 * UNIT));
}

#[test]
fn numeric_order_differs_from_text_order() {
    let nine = parse_price_level("9.5").unwrap();
    let ten = parse_price_level("10.0").unwrap();
    assert!("10.0" < "9.5");
    assert!(nine < ten);
}

#[test]
fn keeps_eighteen_fraction_digits_at_most() {
    assert_eq!(parse_price_level("0.000000000000000001"), Some(1));
    assert_eq!(parse_price_level("0.0000000000000000001"), None);
}

#[test]
fn rejects_malformed_levels() {
    assert_eq!(parse_price_level(""), None);
    assert_eq!(parse_price_level("."), None);
    assert_eq!(parse_price_level("1.2.3"), None);
    assert_eq!(parse_price_level("-1"), None);
    assert_eq!(parse_price_level("1e5"), None);
    assert_eq!(parse_price_level(" 1"), None);
}

#[test]
fn rejects_levels_beyond_u128() {
    // 340282366920938463463.374607431768211455 is u128::MAX units.
    assert_eq!(
        parse_price_level("340282366920938463463.374607431768211455"),
        Some(u128::MAX)
    );
    assert_eq!(parse_price_level("340282366920938463463.374607431768211456"), None);
    assert_eq!(parse_price_level("340282366920938463464"), None);
    assert_eq!(parse_price_level("99999999999999999999999999999999999999999"), None);
}

#[test]
fn zero_quantities() {
    assert!(is_zero_qty("0.00000000"));
    assert!(is_zero_qty("0"));
    assert!(is_zero_qty(""));
    assert!(!is_zero_qty("0.00000001"));
    assert!(!is_zero_qty("1"));
}
