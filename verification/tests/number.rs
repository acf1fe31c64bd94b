use acf_workshop::number::{decimal_text, parse_u64, write_decimal};

#[test]
fn digits_are_read_in_base_ten() {
    assert_eq!(parse_u64("0"), Some(0));
    assert_eq!(parse_u64("7"), Some(7));
    assert_eq!(parse_u64("1700000000"), Some(1_700_000_000));
    assert_eq!(parse_u64("0042"), Some(42));
}

#[test]
fn a_plus_may_stand_in_front() {
    assert_eq!(parse_u64("+15"), Some(15));
    assert_eq!(parse_u64("+"), None);
    assert_eq!(parse_u64("++1"), None);
    assert_eq!(parse_u64("1+"), None);
}

#[test]
fn the_largest_number_is_read_and_the_next_is_not() {
    assert_eq!(parse_u64("18446744073709551615"), Some(u64::MAX));
    assert_eq!(parse_u64("18446744073709551616"), None);
    assert_eq!(parse_u64("18446744073709551620"), None);
    assert_eq!(parse_u64("99999999999999999999"), None);
    assert_eq!(parse_u64("000018446744073709551615"), Some(u64::MAX));
}

#[test]
fn anything_else_is_no_number() {
    for text in ["", " ", "-1", "-0", "1 ", " 1", "1_000", "12a", "a12", "1.5", "0x10", "١٢٣", "1２"] {
        assert_eq!(parse_u64(text), None, "{:?}", text);
    }
}

#[test]
fn reads_what_the_standard_library_reads() {
    for text in ["", "+", "+0", "-0", "00", "123", "+123", "18446744073709551615", "18446744073709551616", "1e3", "é", "9\u{0}"] {
        assert_eq!(parse_u64(text), text.parse::<u64>().ok(), "{:?}", text);
    }
}

#[test]
fn numbers_are_written_without_zeros_in_front() {
    assert_eq!(decimal_text(0), "0");
    assert_eq!(decimal_text(7), "7");
    assert_eq!(decimal_text(10), "10");
    assert_eq!(decimal_text(1_700_000_000), "1700000000");
    assert_eq!(decimal_text(u64::MAX), "18446744073709551615");
}

#[test]
fn a_number_is_written_at_the_end_of_what_is_there() {
    let mut out = String::from("n=");
    write_decimal(305, &mut out);
    write_decimal(0, &mut out);
    assert_eq!(out, "n=3050");
}

#[test]
fn what_is_written_reads_back() {
    for n in [0, 1, 9, 10, 11, 99, 100, 101, 12345, u32::MAX as u64, u64::MAX - 1, u64::MAX] {
        assert_eq!(parse_u64(&decimal_text(n)), Some(n));
        assert_eq!(decimal_text(n), n.to_string());
    }
}
