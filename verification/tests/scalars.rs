use rockbuild::scalar::{format_bool, format_u64, parse_bool, parse_u64};

#[test]
fn booleans_round_trip() {
    assert_eq!(format_bool(true), "true");
    assert_eq!(format_bool(false), "false");
    assert_eq!(parse_bool(&format_bool(true)), Some(true));
    assert_eq!(parse_bool(&format_bool(false)), Some(false));
}

#[test]
fn only_true_and_false_read_as_booleans() {
    assert_eq!(parse_bool("True"), None);
    assert_eq!(parse_bool("1"), None);
    assert_eq!(parse_bool(""), None);
    assert_eq!(parse_bool("true "), None);
}

#[test]
fn counts_are_written_in_decimal() {
    assert_eq!(format_u64(0), "0");
    assert_eq!(format_u64(7), "7");
    assert_eq!(format_u64(10), "10");
    assert_eq!(format_u64(u64::MAX), "18446744073709551615");
}

#[test]
fn counts_are_read_as_std_reads_them() {
    for text in ["0", "42", "+42", "007", "18446744073709551615", "18446744073709551616", "", "+", "-1", "4 2", "4a"] {
        assert_eq!(parse_u64(text), text.parse::<u64>().ok(), "reading {:?}", text);
    }
}

#[test]
fn counts_round_trip() {
    for n in [0u64, 1, 9, 10, 99, 100, 12345, u64::MAX] {
        assert_eq!(parse_u64(&format_u64(n)), Some(n));
    }
}
