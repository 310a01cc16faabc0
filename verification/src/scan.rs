//! What scanning means: maximal runs of one byte class, the step that takes
//! a position in the input to the next token and the position after it, and
//! the token sequence that repeated steps produce. Everything here is ghost
//! code: the definitions that the scanner is proved against, and the laws
//! that follow from them.

use vstd::prelude::*;
use crate::ascii::ascii_text;
use crate::class::{is_digit, is_letter, is_whitespace};
use crate::token::{classify, keyword, TokenView};

verus! {

/// The byte at position `at`, if the input reaches that far.
pub open spec fn byte_at(input: Seq<u8>, at: int) -> Option<u8> {
    if 0 <= at < input.len() {
        Some(input[at])
    } else {
        None
    }
}

/// Where the maximal run of bytes of one class that starts at `from` ends:
/// the first position at or after `from` that holds no byte of the class.
pub open spec fn run_end(input: Seq<u8>, from: int, class: spec_fn(u8) -> bool) -> int
    decreases input.len() - from,
{
    if 0 <= from < input.len() && class(input[from]) {
        run_end(input, from + 1, class)
    } else {
        from
    }
}

/// The token that a byte stands for when it is read on its own.
pub open spec fn symbol(b: u8) -> TokenView {
    if b == ';' as u8 {
        TokenView::Semicolon
    } else if b == '(' as u8 {
        TokenView::LParen
    } else if b == ')' as u8 {
        TokenView::RParen
    } else if b == '{' as u8 {
        TokenView::LBrace
    } else if b == '}' as u8 {
        TokenView::RBrace
    } else if b == '+' as u8 {
        TokenView::Plus
    } else if b == '-' as u8 {
        TokenView::Minus
    } else if b == '*' as u8 {
        TokenView::Asterisk
    } else if b == '/' as u8 {
        TokenView::Slash
    } else if b == '<' as u8 {
        TokenView::LT
    } else if b == '>' as u8 {
        TokenView::GT
    } else if b == ',' as u8 {
        TokenView::Comma
    } else if b == '=' as u8 {
        TokenView::Assign
    } else if b == '!' as u8 {
        TokenView::Bang
    } else {
        TokenView::Illegal
    }
}

/// The operator that two adjacent bytes spell together, if they spell one.
pub open spec fn double_symbol(first: u8, second: u8) -> Option<TokenView> {
    if first == '=' as u8 && second == '=' as u8 {
        Some(TokenView::Eq)
    } else if first == '!' as u8 && second == '=' as u8 {
        Some(TokenView::NotEq)
    } else {
        None
    }
}

/// One step of scanning: the token found, if any, and the position at which
/// the next step starts.
pub struct Step {
    pub token: Option<TokenView>,
    pub next: int,
}

/// The token that starts exactly at `at`, and the position just past it.
/// A letter starts the longest run of letters, a digit the longest run of
/// digits, and a two-byte operator is preferred to its first byte alone.
pub open spec fn lexeme_at(input: Seq<u8>, at: int) -> (TokenView, int)
    recommends
        0 <= at < input.len(),
{
    let first = input[at];
    if is_letter(first) {
        let end = run_end(input, at, |b: u8| is_letter(b));
        (classify(ascii_text(input.subrange(at, end))), end)
    } else if is_digit(first) {
        let end = run_end(input, at, |b: u8| is_digit(b));
        (TokenView::Int(ascii_text(input.subrange(at, end))), end)
    } else if at + 1 < input.len() && double_symbol(first, input[at + 1]) is Some {
        (double_symbol(first, input[at + 1])->0, at + 2)
    } else {
        (symbol(first), at + 1)
    }
}

/// Scanning from `from`: whitespace is passed over; if input remains, the
/// token that starts there is produced, and otherwise nothing is.
pub open spec fn scan(input: Seq<u8>, from: int) -> Step {
    let at = run_end(input, from, |b: u8| is_whitespace(b));
    if 0 <= at < input.len() {
        Step { token: Some(lexeme_at(input, at).0), next: lexeme_at(input, at).1 }
    } else {
        Step { token: None, next: at }
    }
}

/// Every token from `from` to the end of the input, in order: what repeated
/// steps produce until one finds nothing.
pub open spec fn tokens_from(input: Seq<u8>, from: int) -> Seq<TokenView>
    decreases input.len() - from,
    via tokens_from_terminates
{
    match scan(input, from).token {
        Some(token) => seq![token] + tokens_from(input, scan(input, from).next),
        None => Seq::empty(),
    }
}

#[via_fn]
proof fn tokens_from_terminates(input: Seq<u8>, from: int) {
    if 0 <= from <= input.len() {
        lemma_scan_advances(input, from);
    }
}

/// The bytes `start..end` are the maximal run of `class` bytes that a step
/// from `from` meets first: only whitespace lies before the run, and the run
/// is not empty.
pub open spec fn first_run(
    input: Seq<u8>,
    from: int,
    start: int,
    end: int,
    class: spec_fn(u8) -> bool,
) -> bool {
    &&& 0 <= from <= start < end <= input.len()
    &&& forall|k: int| from <= k < start ==> is_whitespace(#[trigger] input[k])
    &&& forall|k: int| start <= k < end ==> class(#[trigger] input[k])
    &&& end < input.len() ==> !class(input[end])
}

/// A run ends inside the input, at or after its start; every byte in it is
/// of the class, and the byte after it, if there is one, is not.
pub proof fn lemma_run_end(input: Seq<u8>, from: int, class: spec_fn(u8) -> bool)
    requires
        0 <= from <= input.len(),
    ensures
        from <= run_end(input, from, class) <= input.len(),
        forall|k: int| from <= k < run_end(input, from, class) ==> class(#[trigger] input[k]),
        run_end(input, from, class) < input.len() ==> !class(input[run_end(input, from, class)]),
    decreases input.len() - from,
{
    if from < input.len() && class(input[from]) {
        lemma_run_end(input, from + 1, class);
    }
}

/// The end of a run is the only position with the properties of
/// [`lemma_run_end`].
pub proof fn lemma_run_end_unique(input: Seq<u8>, from: int, end: int, class: spec_fn(u8) -> bool)
    requires
        0 <= from <= end <= input.len(),
        forall|k: int| from <= k < end ==> class(#[trigger] input[k]),
        end < input.len() ==> !class(input[end]),
    ensures
        run_end(input, from, class) == end,
    decreases end - from,
{
    if from < end {
        assert(class(input[from]));
        lemma_run_end_unique(input, from + 1, end, class);
    }
}

/// A step never moves back and never leaves the input. It moves forward
/// when it finds a token, and stops at the end of the input when it finds
/// none.
pub proof fn lemma_scan_advances(input: Seq<u8>, from: int)
    requires
        0 <= from <= input.len(),
    ensures
        from <= scan(input, from).next <= input.len(),
        scan(input, from).token is Some ==> from < scan(input, from).next,
        scan(input, from).token is None ==> scan(input, from).next == input.len(),
{
    let at = run_end(input, from, |b: u8| is_whitespace(b));
    lemma_run_end(input, from, |b: u8| is_whitespace(b));
    if at < input.len() {
        lemma_run_end(input, at + 1, |b: u8| is_letter(b));
        lemma_run_end(input, at + 1, |b: u8| is_digit(b));
    }
}

/// A step finds no token exactly when nothing but whitespace is left, and
/// exactly then no token is to come. In particular, input that is all
/// whitespace yields no token at all.
pub proof fn lemma_exhausted_iff_blank(input: Seq<u8>, from: int)
    requires
        0 <= from <= input.len(),
    ensures
        scan(input, from).token is None <==> forall|k: int|
            from <= k < input.len() ==> is_whitespace(#[trigger] input[k]),
        scan(input, from).token is None <==> tokens_from(input, from) == Seq::<TokenView>::empty(),
{
    let blank = |b: u8| is_whitespace(b);
    lemma_run_end(input, from, blank);
    if forall|k: int| from <= k < input.len() ==> is_whitespace(#[trigger] input[k]) {
        lemma_run_end_unique(input, from, input.len() as int, blank);
    }
}

/// Scanning ends: every token takes up at least one byte, so no more tokens
/// are to come than bytes are left.
pub proof fn lemma_tokens_bounded(input: Seq<u8>, from: int)
    requires
        0 <= from <= input.len(),
    ensures
        tokens_from(input, from).len() <= input.len() - from,
    decreases input.len() - from,
{
    lemma_scan_advances(input, from);
    if scan(input, from).token is Some {
        lemma_tokens_bounded(input, scan(input, from).next);
    }
}

/// Exhaustion is final: once a step finds no token, a step from where it
/// stopped, or from anywhere after that, finds none either and stays put.
pub proof fn lemma_exhaustion_is_final(input: Seq<u8>, from: int, later: int)
    requires
        0 <= from <= later <= input.len(),
        scan(input, from).token is None,
    ensures
        scan(input, from).next == input.len(),
        scan(input, later).token is None,
        scan(input, later).next == input.len(),
        scan(input, scan(input, from).next) == scan(input, from),
{
    lemma_scan_advances(input, from);
    lemma_exhausted_iff_blank(input, from);
    lemma_exhausted_iff_blank(input, later);
    lemma_scan_advances(input, later);
    lemma_exhausted_iff_blank(input, input.len() as int);
    lemma_scan_advances(input, input.len() as int);
}

/// A maximal run of letters and underscores is scanned as one lexeme that
/// ends where the run ends. If its text is no reserved word, the token is
/// an identifier that carries exactly that text.
pub proof fn lemma_identifier_lexeme(input: Seq<u8>, from: int, start: int, end: int)
    requires
        first_run(input, from, start, end, |b: u8| is_letter(b)),
    ensures
        scan(input, from).next == end,
        scan(input, from).token == Some(classify(ascii_text(input.subrange(start, end)))),
        keyword(ascii_text(input.subrange(start, end))) is None ==> scan(input, from).token
            == Some(TokenView::Ident(ascii_text(input.subrange(start, end)))),
{
    assert(is_letter(input[start]));
    lemma_run_end_unique(input, from, start, |b: u8| is_whitespace(b));
    lemma_run_end_unique(input, start, end, |b: u8| is_letter(b));
}

/// A maximal run of digits is scanned as one integer literal that carries
/// exactly the digits of the run, as written.
pub proof fn lemma_integer_lexeme(input: Seq<u8>, from: int, start: int, end: int)
    requires
        first_run(input, from, start, end, |b: u8| is_digit(b)),
    ensures
        scan(input, from).next == end,
        scan(input, from).token == Some(TokenView::Int(ascii_text(input.subrange(start, end)))),
{
    assert(is_digit(input[start]));
    lemma_run_end_unique(input, from, start, |b: u8| is_whitespace(b));
    lemma_run_end_unique(input, start, end, |b: u8| is_digit(b));
}

/// The longest operator wins: `=` or `!` directly followed by `=` is one
/// two-byte token, and is the one-byte token only when no `=` follows.
pub proof fn lemma_longest_operator(input: Seq<u8>, from: int, at: int)
    requires
        0 <= from <= at < input.len(),
        forall|k: int| from <= k < at ==> is_whitespace(#[trigger] input[k]),
    ensures
        input[at] == '=' as u8 && byte_at(input, at + 1) == Some('=' as u8) ==> scan(input, from)
            == (Step { token: Some(TokenView::Eq), next: at + 2 }),
        input[at] == '!' as u8 && byte_at(input, at + 1) == Some('=' as u8) ==> scan(input, from)
            == (Step { token: Some(TokenView::NotEq), next: at + 2 }),
        input[at] == '=' as u8 && byte_at(input, at + 1) != Some('=' as u8) ==> scan(input, from)
            == (Step { token: Some(TokenView::Assign), next: at + 1 }),
        input[at] == '!' as u8 && byte_at(input, at + 1) != Some('=' as u8) ==> scan(input, from)
            == (Step { token: Some(TokenView::Bang), next: at + 1 }),
{
    if input[at] == '=' as u8 || input[at] == '!' as u8 {
        lemma_run_end_unique(input, from, at, |b: u8| is_whitespace(b));
    }
}

/// A payload is never made up: the text that an identifier or an integer
/// literal carries is spelled by the bytes of the input between the start of
/// the lexeme and the position after the step.
pub proof fn lemma_payload_is_source_text(input: Seq<u8>, from: int)
    requires
        0 <= from <= input.len(),
    ensures
        match scan(input, from).token {
            Some(TokenView::Ident(text)) | Some(TokenView::Int(text)) => text == ascii_text(
                input.subrange(
                    run_end(input, from, |b: u8| is_whitespace(b)),
                    scan(input, from).next,
                ),
            ),
            _ => true,
        },
{
}

} // verus!
