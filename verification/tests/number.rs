use medusa::number::{parse_u32, to_decimal};

#[test]
fn parse_plain_numbers() {
    assert_eq!(parse_u32("0"), Some(0));
    assert_eq!(parse_u32("7"), Some(7));
    assert_eq!(parse_u32("12"), Some(12));
    assert_eq!(parse_u32("4294967295"), Some(u32::MAX));
    assert_eq!(parse_u32("0007"), Some(7));
    assert_eq!(parse_u32("+15"), Some(15));
}

#[test]
fn parse_rejects_what_is_no_number() {
    assert_eq!(parse_u32(""), None);
    assert_eq!(parse_u32("+"), None);
    assert_eq!(parse_u32("-1"), None);
    assert_eq!(parse_u32("++1"), None);
    assert_eq!(parse_u32("1+"), None);
    assert_eq!(parse_u32(" 1"), None);
    assert_eq!(parse_u32("1 "), None);
    assert_eq!(parse_u32("1_000"), None);
    assert_eq!(parse_u32("12a"), None);
    assert_eq!(parse_u32("four"), None);
    assert_eq!(parse_u32("1.5"), None);
    assert_eq!(parse_u32("\u{663}"), None);
}

#[test]
fn parse_rejects_what_does_not_fit() {
    assert_eq!(parse_u32("4294967296"), None);
    assert_eq!(parse_u32("4294967300"), None);
    assert_eq!(parse_u32("99999999999999999999"), None);
    assert_eq!(parse_u32("+4294967296"), None);
}

#[test]
fn parse_agrees_with_std() {
    let texts = [
        "", "+", "-", "0", "+0", "-0", "00", "1", "10", "0010", "4294967295", "4294967296",
        "42949672950", "+4294967295", "12 ", " 12", "1e3", "0x10", "١٢", "+-1", "2147483648",
    ];
    for text in texts {
        assert_eq!(parse_u32(text), text.parse::<u32>().ok());
    }
}

#[test]
fn decimal_text_of_numbers() {
    assert_eq!(to_decimal(0), "0");
    assert_eq!(to_decimal(9), "9");
    assert_eq!(to_decimal(10), "10");
    assert_eq!(to_decimal(1234567890), "1234567890");
    assert_eq!(to_decimal(u128::MAX), "340282366920938463463374607431768211455");
}

#[test]
fn decimal_text_reads_back() {
    for number in [0u32, 1, 9, 10, 99, 100, 65535, 4294967295] {
        assert_eq!(parse_u32(&to_decimal(u128::from(number))), Some(number));
    }
}
