use code_scanner::utils::{format_size, has_null_byte};

#[test]
fn utils_format_size_formats_zero() {
    assert_eq!(format_size(0), "0 B");
}

#[test]
fn utils_tests_format_size_formats_zero() {
    assert_eq!(format_size(0), "0 B");
}

#[test]
fn format_size_below_one_thousand_is_plain_bytes() {
    assert_eq!(format_size(999), "999 B");
    assert_eq!(format_size(7), "7 B");
}

#[test]
fn format_size_uses_si_units() {
    assert_eq!(format_size(1_000_000), "1 MB");
    assert_eq!(format_size(1500), "1.50 kB");
}

#[test]
fn null_byte_marks_binary_prefix() {
    assert!(has_null_byte(&[0u8, 1, 2]));
    assert!(has_null_byte(&[137u8, 80, 0, 71]));
    assert!(!has_null_byte(b"hello\nworld\n"));
    assert!(!has_null_byte(&[]));
}
