use workshop_downloader::text::{decimal, digit, parse_u64, same_text};

#[test]
fn equal_texts_are_the_same() {
    assert!(same_text("", ""));
    assert!(same_text("update", "update"));
    assert!(same_text("caf\u{e9}", "caf\u{e9}"));
}

#[test]
fn different_texts_are_not_the_same() {
    assert!(!same_text("update", "updat"));
    assert!(!same_text("update", "updatE"));
    assert!(!same_text("", " "));
    assert!(!same_text("u", "v"));
    assert!(!same_text("caf\u{e9}", "cafe"));
    assert!(!same_text("\u{e9}", "\u{e8}"));
}

#[test]
fn numbers_are_written_in_decimal_without_leading_zeros() {
    assert_eq!(decimal(0), "0");
    assert_eq!(decimal(7), "7");
    assert_eq!(decimal(9), "9");
    assert_eq!(decimal(10), "10");
    assert_eq!(decimal(99), "99");
    assert_eq!(decimal(100), "100");
    assert_eq!(decimal(1234567890), "1234567890");
    assert_eq!(decimal(u64::MAX as u128), "18446744073709551615");
    assert_eq!(decimal(u128::MAX), "340282366920938463463374607431768211455");
    for n in 0..2000u128 {
        assert_eq!(decimal(n), n.to_string());
    }
}

#[test]
fn each_digit_has_its_character() {
    let digits: Vec<&str> = (0..10).map(digit).collect();
    assert_eq!(digits, vec!["0", "1", "2", "3", "4", "5", "6", "7", "8", "9"]);
}

#[test]
fn numbers_are_read_from_their_digits() {
    assert_eq!(parse_u64("0"), Some(0));
    assert_eq!(parse_u64("7"), Some(7));
    assert_eq!(parse_u64("1500"), Some(1500));
    assert_eq!(parse_u64("+1500"), Some(1500));
    assert_eq!(parse_u64("007"), Some(7));
    assert_eq!(parse_u64("18446744073709551615"), Some(u64::MAX));
    assert_eq!(parse_u64("0000000000000000000000018446744073709551615"), Some(u64::MAX));
}

#[test]
fn a_text_that_writes_no_number_that_fits_is_not_read() {
    for text in [
        "", "+", "-", "-0", "-1", "++1", "+-1", "1+", " 1", "1 ", "1_000", "1.5", "12a", "a12",
        "0x10", "\u{ff11}\u{ff12}", "\u{663}", "18446744073709551616", "99999999999999999999999",
        "184467440737095516150",
    ] {
        assert_eq!(parse_u64(text), None, "for {:?}", text);
    }
}

#[test]
fn numbers_are_read_as_the_standard_library_reads_them() {
    let texts = [
        "", "+", "-", "0", "+0", "-0", "00", "+00", "1", "+1", "-1", "9", "10", "+10", "010",
        "18446744073709551614", "18446744073709551615", "18446744073709551616",
        "18446744073709551620", "+18446744073709551615", "28446744073709551615",
        "1844674407370955161", "184467440737095516159", "000000000000000000000000000000",
        "000000000000000000000000000001", " 7", "7 ", "7\n", "\t7", "7e3", "0b1", "٣", "1٣", "+",
        "+ 1", "1,000", "1'000", "١٢٣", "12\u{0}", "\u{0}12", "4294967295", "4294967296",
    ];
    for text in texts {
        assert_eq!(parse_u64(text), text.parse::<u64>().ok(), "for {:?}", text);
    }
    for number in (0..200_000u64).chain((0..64).map(|shift| u64::MAX >> shift)) {
        let text = number.to_string();
        assert_eq!(parse_u64(&text), Some(number));
        assert_eq!(parse_u64(&format!("+{}", text)), Some(number));
        assert_eq!(parse_u64(&format!("{}0", text)), format!("{}0", text).parse::<u64>().ok());
        assert_eq!(parse_u64(&format!("{}x", text)), None);
    }
}
