//! The scanner: a cursor over borrowed source text that hands out one token
//! per call, with one byte of lookahead and no backtracking.

use vstd::prelude::*;
use vstd::string::StringSliceAdditionalSpecFns;
use crate::ascii::{ascii_between, ascii_slice, ascii_text};
use crate::class::{is_digit, is_letter, is_whitespace};
use crate::scan::{
    byte_at, lemma_exhausted_iff_blank, lemma_exhaustion_is_final, lemma_run_end,
    lemma_run_end_unique, lemma_scan_advances, run_end, scan, tokens_from,
};
use crate::token::{lookup_ident, view_of, Token, TokenView};

verus! {

/// A scanner over source text.
pub struct Lexer<'a> {
    input: &'a str,
    position: usize,
    read_position: usize,
    ch: Option<u8>,
}

/// The state of a [`Lexer`]: the bytes it scans, the position of the current
/// byte, from which the next token is sought, the position of the byte to be
/// read after it, and the current byte itself.
pub struct LexerView {
    pub input: Seq<u8>,
    pub position: int,
    pub read_position: int,
    pub ch: Option<u8>,
}

impl LexerView {
    /// The cursor is primed one byte ahead: `ch` is the byte at `position`,
    /// or nothing where the input does not reach that far, and
    /// `read_position` is one past `position`. Only where `position` is the
    /// largest index that the machine has is there no index past it, and
    /// `read_position` stays at `position`.
    pub open spec fn primed(self) -> bool {
        &&& 0 <= self.position
        &&& self.input.len() <= usize::MAX
        &&& self.ch == byte_at(self.input, self.position)
        &&& self.read_position == if self.position < usize::MAX {
            self.position + 1
        } else {
            self.position
        }
    }

    /// The cursor has not stepped past the end of the input. A new scanner
    /// is within its input, and producing tokens keeps it there.
    pub open spec fn within(self) -> bool {
        self.position <= self.input.len()
    }

    /// No token is left: only whitespace, if anything, lies ahead.
    pub open spec fn exhausted(self) -> bool {
        scan(self.input, self.position).token is None
    }

    /// The tokens still to come, in order.
    pub open spec fn remaining(self) -> Seq<TokenView> {
        tokens_from(self.input, self.position)
    }
}

impl<'a> View for Lexer<'a> {
    type V = LexerView;

    closed spec fn view(&self) -> LexerView {
        LexerView {
            input: self.input.spec_bytes(),
            position: self.position as int,
            read_position: self.read_position as int,
            ch: self.ch,
        }
    }
}

impl<'a> Lexer<'a> {
    /// Every scanner is primed at all times.
    #[verifier::type_invariant]
    closed spec fn wf(&self) -> bool {
        self@.primed()
    }

    /// A scanner at the start of `input`, with its first byte read ahead.
    pub fn new(input: &'a str) -> (lexer: Self)
        ensures
            lexer@.primed(),
            lexer@.within(),
            lexer@.input == input.spec_bytes(),
            lexer@.position == 0,
            lexer@.read_position == 1,
            lexer@.ch == byte_at(input.spec_bytes(), 0),
    {
        Self::at(input, 0)
    }

    /// A scanner whose current byte is the one at `position`, if the input
    /// reaches that far.
    fn at(input: &'a str, position: usize) -> (lexer: Self)
        ensures
            lexer@.primed(),
            lexer.input == input,
            lexer@.position == position,
    {
        let bytes = input.as_bytes();
        let read_position: usize = if position < usize::MAX {
            position + 1
        } else {
            position
        };
        if position < bytes.len() {
            Self { input, position, read_position, ch: Some(bytes[position]) }
        } else {
            Self { input, position, read_position, ch: None }
        }
    }

    /// Steps from the current byte to the next, from any cursor, the one at
    /// or past the end of the input included: `position` takes the place of
    /// `read_position`, `read_position` moves one further, and the current
    /// byte is the one found at the new `position`, if the input reaches
    /// that far.
    fn read_char(&mut self)
        ensures
            final(self)@.primed(),
            final(self).input == old(self).input,
            final(self)@.position == old(self)@.read_position,
            old(self)@.position < usize::MAX ==> final(self)@.position == old(self)@.position + 1,
            final(self)@.read_position == if old(self)@.read_position < usize::MAX {
                old(self)@.read_position + 1
            } else {
                old(self)@.read_position
            },
            final(self)@.ch == byte_at(old(self)@.input, old(self)@.read_position),
    {
        proof {
            use_type_invariant(&*self);
        }
        *self = Self::at(self.input, self.read_position);
    }

    /// The byte at `read_position`, the one after the current byte, without
    /// stepping to it.
    fn peek_char(&self) -> (ahead: Option<u8>)
        ensures
            ahead == byte_at(self@.input, self@.read_position),
            ahead == byte_at(self@.input, self@.position + 1),
    {
        proof {
            use_type_invariant(self);
        }
        let bytes = self.input.as_bytes();
        if self.read_position < bytes.len() {
            Some(bytes[self.read_position])
        } else {
            None
        }
    }

    /// Steps over the whitespace at the cursor, if there is any.
    fn skip_whitespace(&mut self)
        ensures
            final(self)@.primed(),
            old(self)@.within() ==> final(self)@.within(),
            final(self)@.input == old(self)@.input,
            final(self)@.position == run_end(
                old(self)@.input,
                old(self)@.position,
                |b: u8| is_whitespace(b),
            ),
    {
        proof {
            use_type_invariant(&*self);
        }
        loop
            invariant
                self.wf(),
                self.input == old(self).input,
                old(self).position <= self.position,
                old(self)@.within() ==> self@.within(),
                !old(self)@.within() ==> self.position == old(self).position,
                forall|k: int|
                    old(self).position <= k < self.position ==> is_whitespace(
                        #[trigger] self@.input[k],
                    ),
            ensures
                self.position < self@.input.len() ==> !is_whitespace(
                    self@.input[self.position as int],
                ),
            decreases self@.input.len() - self.position,
        {
            match self.ch {
                Some(ch) => {
                    if is_whitespace(ch) {
                        self.read_char();
                        proof {
                            use_type_invariant(&*self);
                        }
                    } else {
                        break ;
                    }
                },
                None => {
                    break ;
                },
            }
        }
        proof {
            if old(self)@.within() {
                lemma_run_end_unique(
                    self@.input,
                    old(self)@.position,
                    self@.position,
                    |b: u8| is_whitespace(b),
                );
            }
        }
    }

    /// Steps over the run of letters and underscores at the cursor and
    /// returns its text.
    fn read_identifier(&mut self) -> (text: &'a str)
        requires
            old(self)@.within(),
        ensures
            final(self)@.primed(),
            final(self)@.within(),
            final(self)@.input == old(self)@.input,
            final(self)@.position == run_end(
                old(self)@.input,
                old(self)@.position,
                |b: u8| is_letter(b),
            ),
            text@ == ascii_text(
                old(self)@.input.subrange(old(self)@.position, final(self)@.position),
            ),
    {
        proof {
            lemma_run_end(self@.input, self@.position, |b: u8| is_letter(b));
        }
        self.read_with_condition(is_letter, Ghost(|b: u8| is_letter(b)))
    }

    /// Steps over the run of bytes at the cursor that `condition` accepts and
    /// returns its text. `condition` decides the class `class`. The cursor is
    /// within the input and the bytes of the run are ASCII, so that the run
    /// can be cut out of the text. With no current byte, or one that
    /// `condition` refuses, the text is empty and the cursor stays.
    fn read_with_condition<F: Fn(u8) -> bool>(
        &mut self,
        condition: F,
        Ghost(class): Ghost<spec_fn(u8) -> bool>,
    ) -> (text: &'a str)
        requires
            forall|b: u8| condition.requires((b,)),
            forall|b: u8, yes: bool| condition.ensures((b,), yes) ==> yes == class(b),
            old(self)@.within(),
            ascii_between(
                old(self)@.input,
                old(self)@.position,
                run_end(old(self)@.input, old(self)@.position, class),
            ),
        ensures
            final(self)@.primed(),
            final(self)@.within(),
            old(self)@.ch is None || !class(old(self)@.ch->0) ==> final(self)@ == old(self)@,
            final(self)@.input == old(self)@.input,
            final(self)@.position == run_end(old(self)@.input, old(self)@.position, class),
            text@ == ascii_text(
                old(self)@.input.subrange(old(self)@.position, final(self)@.position),
            ),
    {
        let start: usize = self.position;
        proof {
            use_type_invariant(&*self);
        }
        loop
            invariant
                self.wf(),
                self.input == old(self).input,
                start == old(self).position,
                start <= self.position <= self@.input.len(),
                start == self.position ==> self@ == old(self)@,
                forall|b: u8| condition.requires((b,)),
                forall|b: u8, yes: bool| condition.ensures((b,), yes) ==> yes == class(b),
                forall|k: int| start <= k < self.position ==> class(#[trigger] self@.input[k]),
            ensures
                self.position < self@.input.len() ==> !class(self@.input[self.position as int]),
                start == self.position ==> self@ == old(self)@,
            decreases self@.input.len() - self.position,
        {
            match self.ch {
                Some(ch) => {
                    if condition(ch) {
                        self.read_char();
                        proof {
                            use_type_invariant(&*self);
                        }
                    } else {
                        break ;
                    }
                },
                None => {
                    break ;
                },
            }
        }
        proof {
            lemma_run_end_unique(self@.input, start as int, self.position as int, class);
        }
        ascii_slice(self.input, start, self.position)
    }

    /// Steps over the run of digits at the cursor and returns its text.
    fn read_number(&mut self) -> (text: &'a str)
        requires
            old(self)@.within(),
        ensures
            final(self)@.primed(),
            final(self)@.within(),
            final(self)@.input == old(self)@.input,
            final(self)@.position == run_end(
                old(self)@.input,
                old(self)@.position,
                |b: u8| is_digit(b),
            ),
            text@ == ascii_text(
                old(self)@.input.subrange(old(self)@.position, final(self)@.position),
            ),
    {
        proof {
            lemma_run_end(self@.input, self@.position, |b: u8| is_digit(b));
        }
        self.read_with_condition(is_digit, Ghost(|b: u8| is_digit(b)))
    }

    /// Produces the next token, or `None` once only whitespace is left.
    ///
    /// The result and the new position are exactly those of [`scan`] at the
    /// old position, so the token is the head of what remained and the rest
    /// remains. The cursor is primed again afterwards, on the byte at the
    /// new position. It never moves back and moves forward whenever a token
    /// is produced. `None` is returned exactly when nothing but whitespace
    /// was left, and every later call returns `None` again. A cursor that
    /// was within the input stays within it, and stands at its end once
    /// `None` is returned.
    pub fn next(&mut self) -> (token: Option<Token>)
        ensures
            final(self)@.primed(),
            final(self)@.input == old(self)@.input,
            view_of(token) == scan(old(self)@.input, old(self)@.position).token,
            final(self)@.position == scan(old(self)@.input, old(self)@.position).next,
            token is Some ==> old(self)@.remaining() == seq![view_of(token)->0]
                + final(self)@.remaining(),
            token is None ==> old(self)@.remaining() == Seq::<TokenView>::empty(),
            old(self)@.position <= final(self)@.position,
            token is Some ==> old(self)@.position < final(self)@.position,
            old(self)@.within() ==> final(self)@.within(),
            old(self)@.within() && token is None ==> final(self)@.position
                == final(self)@.input.len(),
            token is None <==> old(self)@.exhausted(),
            token is None ==> final(self)@.exhausted(),
            token is None <==> forall|k: int|
                old(self)@.position <= k < old(self)@.input.len() ==> is_whitespace(
                    #[trigger] old(self)@.input[k],
                ),
    {
        proof {
            use_type_invariant(&*self);
            let from = self@.position;
            if self@.within() {
                lemma_scan_advances(self@.input, from);
                lemma_exhausted_iff_blank(self@.input, from);
                if scan(self@.input, from).token is None {
                    lemma_exhaustion_is_final(self@.input, from, from);
                }
            }
        }
        self.skip_whitespace();
        proof {
            use_type_invariant(&*self);
        }
        let ch: u8 = match self.ch {
            Some(ch) => ch,
            None => {
                return None;
            },
        };
        let token = match ch as char {
            ';' => Token::Semicolon,
            '(' => Token::LParen,
            ')' => Token::RParen,
            '{' => Token::LBrace,
            '}' => Token::RBrace,
            '+' => Token::Plus,
            '-' => Token::Minus,
            '*' => Token::Asterisk,
            '/' => Token::Slash,
            '<' => Token::LT,
            '>' => Token::GT,
            ',' => Token::Comma,
            '!' => match self.peek_char() {
                Some(ahead) if ahead as char == '=' => {
                    self.read_char();
                    Token::NotEq
                },
                _ => Token::Bang,
            },
            '=' => match self.peek_char() {
                Some(ahead) if ahead as char == '=' => {
                    self.read_char();
                    Token::Eq
                },
                _ => Token::Assign,
            },
            _ if is_digit(ch) => {
                return Some(Token::Int(self.read_number().to_owned()));
            },
            _ if is_letter(ch) => {
                return Some(lookup_ident(self.read_identifier()));
            },
            _ => Token::Illegal,
        };
        proof {
            use_type_invariant(&*self);
        }
        self.read_char();
        Some(token)
    }
}

} // verus!
