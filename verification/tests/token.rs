use monkey::token::{lookup_ident, Token};

#[test]
fn each_keyword_has_its_token() {
    assert_eq!(lookup_ident("func"), Token::Function);
    assert_eq!(lookup_ident("let"), Token::Let);
    assert_eq!(lookup_ident("true"), Token::True);
    assert_eq!(lookup_ident("false"), Token::False);
    assert_eq!(lookup_ident("if"), Token::If);
    assert_eq!(lookup_ident("else"), Token::Else);
    assert_eq!(lookup_ident("return"), Token::Return);
}

#[test]
fn other_text_is_an_identifier_with_that_text() {
    for text in ["x", "foobar", "five", "add", "result", "_", "a_b"] {
        assert_eq!(lookup_ident(text), Token::Ident(text.to_string()));
    }
}

#[test]
fn keyword_match_is_case_sensitive() {
    for text in ["Func", "LET", "True", "FALSE", "If", "eLSE", "RETURN"] {
        assert_eq!(lookup_ident(text), Token::Ident(text.to_string()));
    }
}

#[test]
fn keyword_match_is_exact() {
    for text in ["fun", "funcs", "le", "lett", "tru", "truer", "fals", "falsey", "i", "iff",
        "els", "elsee", "retur", "returns", " let", "let ", ""]
    {
        assert_eq!(lookup_ident(text), Token::Ident(text.to_string()));
    }
}

#[test]
fn text_is_kept_as_given_even_outside_ascii() {
    assert_eq!(lookup_ident("na\u{ef}ve"), Token::Ident("na\u{ef}ve".to_string()));
    assert_eq!(lookup_ident("l\u{e9}t"), Token::Ident("l\u{e9}t".to_string()));
}

#[test]
fn tokens_compare_by_variant_and_payload() {
    assert_eq!(Token::Ident("a".to_string()), Token::Ident("a".to_string()));
    assert_ne!(Token::Ident("a".to_string()), Token::Ident("b".to_string()));
    assert_ne!(Token::Ident("1".to_string()), Token::Int("1".to_string()));
    assert_ne!(Token::Assign, Token::Eq);
    assert!(Token::Illegal < Token::Ident(String::new()));
    assert!(Token::Int("1".to_string()) < Token::Int("2".to_string()));
    assert!(Token::If < Token::Return);
}

#[test]
fn tokens_have_a_debug_form() {
    assert_eq!(format!("{:?}", Token::Let), "Let");
    assert_eq!(format!("{:?}", Token::Ident("five".to_string())), "Ident(\"five\")");
    assert_eq!(format!("{:?}", Token::Int("5".to_string())), "Int(\"5\")");
}
