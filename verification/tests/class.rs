use monkey::class::{is_digit, is_letter, is_whitespace};

#[test]
fn whitespace_is_space_tab_and_the_two_line_ends() {
    for b in 0..=255u8 {
        let expected = b == b' ' || b == b'\t' || b == b'\n' || b == b'\r';
        assert_eq!(is_whitespace(b), expected, "byte {b}");
    }
}

#[test]
fn letters_are_ascii_letters_and_underscore() {
    for b in 0..=255u8 {
        let expected = b.is_ascii_alphabetic() || b == b'_';
        assert_eq!(is_letter(b), expected, "byte {b}");
    }
}

#[test]
fn digits_are_ascii_digits() {
    for b in 0..=255u8 {
        assert_eq!(is_digit(b), b.is_ascii_digit(), "byte {b}");
    }
}

#[test]
fn class_boundaries() {
    assert!(is_letter(b'a') && is_letter(b'z') && is_letter(b'A') && is_letter(b'Z'));
    assert!(!is_letter(b'`') && !is_letter(b'{') && !is_letter(b'@') && !is_letter(b'['));
    assert!(is_digit(b'0') && is_digit(b'9'));
    assert!(!is_digit(b'/') && !is_digit(b':'));
    assert!(!is_letter(0xe9) && !is_letter(0xaa) && !is_letter(0xc3));
}
