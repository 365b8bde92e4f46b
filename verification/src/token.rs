//! The tokens of level files.

use vstd::prelude::*;

verus! {

/// What a token is.
pub enum TokenView {
    /// `(`
    Open,
    /// `)`
    Close,
    /// `[`
    ListOpen,
    /// `]`
    ListClose,
    /// `:`
    Colon,
    /// `,`
    Comma,
    /// A name: a letter or an underscore, then letters, digits, underscores.
    Word(Seq<char>),
    /// A quoted text, with the quotes and escapes taken off.
    Text(Seq<char>),
    /// A decimal number.
    Number(nat),
}

/// A token of a level file.
#[derive(Debug)]
pub enum Token {
    Open,
    Close,
    ListOpen,
    ListClose,
    Colon,
    Comma,
    Word(Vec<char>),
    Text(Vec<char>),
    Number(u32),
}

impl View for Token {
    type V = TokenView;

    open spec fn view(&self) -> TokenView {
        match self {
            Token::Open => TokenView::Open,
            Token::Close => TokenView::Close,
            Token::ListOpen => TokenView::ListOpen,
            Token::ListClose => TokenView::ListClose,
            Token::Colon => TokenView::Colon,
            Token::Comma => TokenView::Comma,
            Token::Word(w) => TokenView::Word(w@),
            Token::Text(t) => TokenView::Text(t@),
            Token::Number(n) => TokenView::Number(*n as nat),
        }
    }
}

/// What a vector of tokens is, token by token.
pub open spec fn views(toks: Seq<Token>) -> Seq<TokenView> {
    Seq::new(toks.len(), |i: int| toks[i]@)
}

/// Blank, line feed, tab or carriage return.
pub open spec fn is_space(c: char) -> bool {
    c == ' ' || c == '\n' || c == '\t' || c == '\r'
}

/// A decimal digit.
pub open spec fn is_digit(c: char) -> bool {
    '0' <= c <= '9'
}

/// A character that may start a word.
pub open spec fn is_word_start(c: char) -> bool {
    ('a' <= c <= 'z') || ('A' <= c <= 'Z') || c == '_'
}

/// A character that may stand in a word.
pub open spec fn is_word_char(c: char) -> bool {
    is_word_start(c) || is_digit(c)
}

/// The number a digit stands for.
pub open spec fn digit_value(c: char) -> nat {
    (c as u32 - '0' as u32) as nat
}

/// The digit that stands for a number below ten.
pub open spec fn digit_char(d: nat) -> char {
    (d + '0' as u32) as char
}

pub fn space(c: char) -> (b: bool)
    ensures
        b == is_space(c),
{
    c == ' ' || c == '\n' || c == '\t' || c == '\r'
}

pub fn digit(c: char) -> (b: bool)
    ensures
        b == is_digit(c),
{
    '0' <= c && c <= '9'
}

pub fn word_start(c: char) -> (b: bool)
    ensures
        b == is_word_start(c),
{
    ('a' <= c && c <= 'z') || ('A' <= c && c <= 'Z') || c == '_'
}

pub fn word_char(c: char) -> (b: bool)
    ensures
        b == is_word_char(c),
{
    word_start(c) || digit(c)
}

} // verus!
