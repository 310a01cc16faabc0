use monkey::ascii::{ascii_slice, str_eq};

#[test]
fn equal_text_is_equal() {
    assert!(str_eq("", ""));
    assert!(str_eq("let", "let"));
    assert!(str_eq("caf\u{e9}", "caf\u{e9}"));
    let owned = String::from("return");
    assert!(str_eq(&owned, "return"));
}

#[test]
fn different_text_is_different() {
    assert!(!str_eq("let", "Let"));
    assert!(!str_eq("let", "le"));
    assert!(!str_eq("le", "let"));
    assert!(!str_eq("", "x"));
    assert!(!str_eq("lat", "let"));
    assert!(!str_eq("lex", "let"));
    assert!(!str_eq("\u{e9}", "\u{e8}"));
}

#[test]
fn slices_are_cut_at_the_given_bytes() {
    let text = "let five = 5;";
    assert_eq!(ascii_slice(text, 0, 3), "let");
    assert_eq!(ascii_slice(text, 4, 8), "five");
    assert_eq!(ascii_slice(text, 11, 12), "5");
    assert_eq!(ascii_slice(text, 0, text.len()), text);
}

#[test]
fn empty_slices_are_empty() {
    let text = "x\u{e9}y";
    assert_eq!(ascii_slice(text, 0, 0), "");
    assert_eq!(ascii_slice(text, 2, 2), "");
    assert_eq!(ascii_slice(text, 4, 4), "");
    assert_eq!(ascii_slice("", 0, 0), "");
}

#[test]
fn ascii_runs_next_to_wider_characters_can_be_cut_out() {
    let text = "\u{e9}ab\u{20ac}cd";
    assert_eq!(ascii_slice(text, 2, 4), "ab");
    assert_eq!(ascii_slice(text, 7, 9), "cd");
    assert_eq!(ascii_slice(text, 3, 4), "b");
}
