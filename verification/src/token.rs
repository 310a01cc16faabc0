//! The token model: the closed set of lexical categories, and the rule that
//! tells a reserved word from a user identifier.

use vstd::prelude::*;
use crate::ascii::str_eq;

verus! {

/// One lexical unit of the language.
#[derive(Debug, PartialEq, PartialOrd)]
pub enum Token {
    /// A byte that starts no token.
    Illegal,
    /// A user identifier, with its source text.
    Ident(String),
    /// An integer literal, with its digits as written.
    Int(String),
    /// `=`
    Assign,
    /// `+`
    Plus,
    /// `-`
    Minus,
    /// `!`
    Bang,
    /// `*`
    Asterisk,
    /// `/`
    Slash,
    /// `<`
    LT,
    /// `>`
    GT,
    /// `==`
    Eq,
    /// `!=`
    NotEq,
    /// `,`
    Comma,
    /// `;`
    Semicolon,
    /// `(`
    LParen,
    /// `)`
    RParen,
    /// `{`
    LBrace,
    /// `}`
    RBrace,
    /// `func`
    Function,
    /// `let`
    Let,
    /// `true`
    True,
    /// `false`
    False,
    /// `if`
    If,
    /// `else`
    Else,
    /// `return`
    Return,
}

/// The mathematical value of a [`Token`]: the same categories, with payloads
/// as character sequences.
pub enum TokenView {
    Illegal,
    Ident(Seq<char>),
    Int(Seq<char>),
    Assign,
    Plus,
    Minus,
    Bang,
    Asterisk,
    Slash,
    LT,
    GT,
    Eq,
    NotEq,
    Comma,
    Semicolon,
    LParen,
    RParen,
    LBrace,
    RBrace,
    Function,
    Let,
    True,
    False,
    If,
    Else,
    Return,
}

impl View for Token {
    type V = TokenView;

    open spec fn view(&self) -> TokenView {
        match self {
            Token::Illegal => TokenView::Illegal,
            Token::Ident(text) => TokenView::Ident(text@),
            Token::Int(digits) => TokenView::Int(digits@),
            Token::Assign => TokenView::Assign,
            Token::Plus => TokenView::Plus,
            Token::Minus => TokenView::Minus,
            Token::Bang => TokenView::Bang,
            Token::Asterisk => TokenView::Asterisk,
            Token::Slash => TokenView::Slash,
            Token::LT => TokenView::LT,
            Token::GT => TokenView::GT,
            Token::Eq => TokenView::Eq,
            Token::NotEq => TokenView::NotEq,
            Token::Comma => TokenView::Comma,
            Token::Semicolon => TokenView::Semicolon,
            Token::LParen => TokenView::LParen,
            Token::RParen => TokenView::RParen,
            Token::LBrace => TokenView::LBrace,
            Token::RBrace => TokenView::RBrace,
            Token::Function => TokenView::Function,
            Token::Let => TokenView::Let,
            Token::True => TokenView::True,
            Token::False => TokenView::False,
            Token::If => TokenView::If,
            Token::Else => TokenView::Else,
            Token::Return => TokenView::Return,
        }
    }
}

/// The value of a token that may be absent.
pub open spec fn view_of(token: Option<Token>) -> Option<TokenView> {
    match token {
        Some(found) => Some(found@),
        None => None,
    }
}

/// The reserved word that `text` spells, if it spells one. The match is
/// exact and case-sensitive.
pub open spec fn keyword(text: Seq<char>) -> Option<TokenView> {
    if text == "func"@ {
        Some(TokenView::Function)
    } else if text == "let"@ {
        Some(TokenView::Let)
    } else if text == "true"@ {
        Some(TokenView::True)
    } else if text == "false"@ {
        Some(TokenView::False)
    } else if text == "if"@ {
        Some(TokenView::If)
    } else if text == "else"@ {
        Some(TokenView::Else)
    } else if text == "return"@ {
        Some(TokenView::Return)
    } else {
        None
    }
}

/// The token for an identifier-shaped lexeme: its reserved word if it spells
/// one, and otherwise an identifier that carries the text unchanged.
pub open spec fn classify(text: Seq<char>) -> TokenView {
    match keyword(text) {
        Some(reserved) => reserved,
        None => TokenView::Ident(text),
    }
}

/// The seven reserved words, spelled out character by character, and the
/// token of each. No two of them are the same text.
pub proof fn lemma_keyword_spelling()
    ensures
        "func"@ == seq!['f', 'u', 'n', 'c'],
        "let"@ == seq!['l', 'e', 't'],
        "true"@ == seq!['t', 'r', 'u', 'e'],
        "false"@ == seq!['f', 'a', 'l', 's', 'e'],
        "if"@ == seq!['i', 'f'],
        "else"@ == seq!['e', 'l', 's', 'e'],
        "return"@ == seq!['r', 'e', 't', 'u', 'r', 'n'],
        keyword("func"@) == Some(TokenView::Function),
        keyword("let"@) == Some(TokenView::Let),
        keyword("true"@) == Some(TokenView::True),
        keyword("false"@) == Some(TokenView::False),
        keyword("if"@) == Some(TokenView::If),
        keyword("else"@) == Some(TokenView::Else),
        keyword("return"@) == Some(TokenView::Return),
{
    reveal_strlit("func");
    reveal_strlit("let");
    reveal_strlit("true");
    reveal_strlit("false");
    reveal_strlit("if");
    reveal_strlit("else");
    reveal_strlit("return");
    assert("func"@ =~= seq!['f', 'u', 'n', 'c']);
    assert("let"@ =~= seq!['l', 'e', 't']);
    assert("true"@ =~= seq!['t', 'r', 'u', 'e']);
    assert("false"@ =~= seq!['f', 'a', 'l', 's', 'e']);
    assert("if"@ =~= seq!['i', 'f']);
    assert("else"@ =~= seq!['e', 'l', 's', 'e']);
    assert("return"@ =~= seq!['r', 'e', 't', 'u', 'r', 'n']);
}

/// Resolves an identifier-shaped lexeme to a keyword token or to `Ident`.
pub fn lookup_ident(ident: &str) -> (token: Token)
    ensures
        token@ == classify(ident@),
        keyword(ident@) is None ==> token@ == TokenView::Ident(ident@),
{
    proof {
        lemma_keyword_spelling();
    }
    if str_eq(ident, "let") {
        Token::Let
    } else if str_eq(ident, "func") {
        Token::Function
    } else if str_eq(ident, "return") {
        Token::Return
    } else if str_eq(ident, "if") {
        Token::If
    } else if str_eq(ident, "else") {
        Token::Else
    } else if str_eq(ident, "true") {
        Token::True
    } else if str_eq(ident, "false") {
        Token::False
    } else {
        Token::Ident(ident.to_owned())
    }
}

} // verus!
