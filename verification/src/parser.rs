//! The parser's front end: the token source that a parser reads from, with
//! room for one token of lookahead.

use vstd::prelude::*;
use vstd::std_specs::convert::FromSpecImpl;
use crate::lexer::Lexer;
use crate::token::Token;

verus! {

/// A parser over the tokens of a [`Lexer`].
///
/// It holds the scanner and at most one token that was taken from it ahead
/// of time: `None` while nothing was looked at, `Some(None)` once the scanner
/// was seen to be exhausted.
pub struct Parser<'a> {
    tokens: Lexer<'a>,
    peeked: Option<Option<Token>>,
}

impl<'a> Parser<'a> {
    /// The scanner that the parser draws its tokens from.
    pub closed spec fn source(&self) -> Lexer<'a> {
        self.tokens
    }

    /// The token that was looked at ahead of time, if one was.
    pub closed spec fn lookahead(&self) -> Option<Option<Token>> {
        self.peeked
    }
}

impl<'a> FromSpecImpl<Lexer<'a>> for Parser<'a> {
    open spec fn obeys_from_spec() -> bool {
        true
    }

    closed spec fn from_spec(value: Lexer<'a>) -> Self {
        Parser { tokens: value, peeked: None }
    }
}

impl<'a> From<Lexer<'a>> for Parser<'a> {
    /// A parser at the start of what `value` has yet to scan: it draws from
    /// `value` as it stands and has looked at nothing.
    fn from(value: Lexer<'a>) -> (parser: Self)
        ensures
            parser.source() == value,
            parser.lookahead() is None,
    {
        Parser { tokens: value, peeked: None }
    }
}

} // verus!
