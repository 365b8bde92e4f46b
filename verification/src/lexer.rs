//! Cuts the text of a level file into tokens.
//!
//! Tokens are brackets, colon, comma, words, quoted texts and decimal
//! numbers; white space may stand between any two of them. In a quoted text
//! a backslash stands before a quote or a backslash that belongs to the text,
//! and nowhere else.

use vstd::prelude::*;
use crate::token::{
    digit, digit_value, is_digit, is_space, is_word_char, is_word_start, space, views, word_char,
    word_start, Token, TokenView,
};

verus! {

/// First position at or after `from` that holds no white space.
pub open spec fn skip_space(s: Seq<char>, from: int) -> int
    decreases s.len() - from,
{
    if 0 <= from < s.len() && is_space(s[from]) {
        skip_space(s, from + 1)
    } else {
        from
    }
}

/// First position at or after `from` that holds no character of a word.
pub open spec fn word_end(s: Seq<char>, from: int) -> int
    decreases s.len() - from,
{
    if 0 <= from < s.len() && is_word_char(s[from]) {
        word_end(s, from + 1)
    } else {
        from
    }
}

/// First position at or after `from` that holds no digit.
pub open spec fn digits_end(s: Seq<char>, from: int) -> int
    decreases s.len() - from,
{
    if 0 <= from < s.len() && is_digit(s[from]) {
        digits_end(s, from + 1)
    } else {
        from
    }
}

/// The number that a run of digits writes in base ten.
pub open spec fn digits_value(d: Seq<char>) -> nat
    decreases d.len(),
{
    if d.len() == 0 {
        0
    } else {
        digits_value(d.drop_last()) * 10 + digit_value(d.last())
    }
}

/// A text with more characters in front of it.
pub open spec fn text_after(front: Seq<char>, r: Option<(Seq<char>, int)>) -> Option<
    (Seq<char>, int),
> {
    match r {
        Some((rest, end)) => Some((front + rest, end)),
        None => None,
    }
}

/// Reads a quoted text from the position after its opening quote: what the
/// text holds and the position after its closing quote, or `None` where the
/// text does not close or a backslash stands before another character.
pub open spec fn text_body(s: Seq<char>, from: int) -> Option<(Seq<char>, int)>
    decreases s.len() - from,
{
    if from < 0 || from >= s.len() {
        None
    } else if s[from] == '"' {
        Some((Seq::empty(), from + 1))
    } else if s[from] == '\\' {
        if from + 1 < s.len() && (s[from + 1] == '"' || s[from + 1] == '\\') {
            text_after(seq![s[from + 1]], text_body(s, from + 2))
        } else {
            None
        }
    } else {
        text_after(seq![s[from]], text_body(s, from + 1))
    }
}

/// The token that starts at `from`, with the position after it.
pub open spec fn token_at(s: Seq<char>, from: int) -> Option<(TokenView, int)> {
    let c = s[from];
    if c == '(' {
        Some((TokenView::Open, from + 1))
    } else if c == ')' {
        Some((TokenView::Close, from + 1))
    } else if c == '[' {
        Some((TokenView::ListOpen, from + 1))
    } else if c == ']' {
        Some((TokenView::ListClose, from + 1))
    } else if c == ':' {
        Some((TokenView::Colon, from + 1))
    } else if c == ',' {
        Some((TokenView::Comma, from + 1))
    } else if c == '"' {
        match text_body(s, from + 1) {
            Some((content, end)) => Some((TokenView::Text(content), end)),
            None => None,
        }
    } else if is_digit(c) {
        let end = digits_end(s, from);
        let value = digits_value(s.subrange(from, end));
        if value <= u32::MAX {
            Some((TokenView::Number(value), end))
        } else {
            None
        }
    } else if is_word_start(c) {
        let end = word_end(s, from);
        Some((TokenView::Word(s.subrange(from, end)), end))
    } else {
        None
    }
}

/// Tokens with more tokens in front of them.
pub open spec fn tokens_after(front: Seq<TokenView>, r: Option<Seq<TokenView>>) -> Option<
    Seq<TokenView>,
> {
    match r {
        Some(rest) => Some(front + rest),
        None => None,
    }
}

/// The tokens of the text from position `from` on, or `None` where some
/// part of it is no token.
pub open spec fn tokens_from(s: Seq<char>, from: int) -> Option<Seq<TokenView>>
    decreases s.len() - from,
{
    let p = skip_space(s, from);
    if p < 0 || p >= s.len() {
        Some(Seq::empty())
    } else {
        match token_at(s, p) {
            Some((t, next)) => {
                proof {
                    lemma_skip_space_bounds(s, from);
                    lemma_token_at_bounds(s, p);
                }
                tokens_after(seq![t], tokens_from(s, next))
            },
            None => None,
        }
    }
}

/// The tokens of a text.
pub open spec fn tokens_of(s: Seq<char>) -> Option<Seq<TokenView>> {
    tokens_from(s, 0)
}

/// White space is skipped forwards, and not past the end of the text.
pub proof fn lemma_skip_space_bounds(s: Seq<char>, from: int)
    ensures
        from <= skip_space(s, from),
        from <= s.len() ==> skip_space(s, from) <= s.len(),
    decreases s.len() - from,
{
    if 0 <= from < s.len() && is_space(s[from]) {
        lemma_skip_space_bounds(s, from + 1);
    }
}

/// The end of a run lies between its start and the end of the text.
pub proof fn lemma_word_end_bounds(s: Seq<char>, from: int)
    requires
        0 <= from <= s.len(),
    ensures
        from <= word_end(s, from) <= s.len(),
        from < s.len() && is_word_char(s[from]) ==> from < word_end(s, from),
    decreases s.len() - from,
{
    if from < s.len() && is_word_char(s[from]) {
        lemma_word_end_bounds(s, from + 1);
    }
}

/// The end of a run of digits lies between its start and the end of the text.
pub proof fn lemma_digits_end_bounds(s: Seq<char>, from: int)
    requires
        0 <= from <= s.len(),
    ensures
        from <= digits_end(s, from) <= s.len(),
        from < s.len() && is_digit(s[from]) ==> from < digits_end(s, from),
    decreases s.len() - from,
{
    if from < s.len() && is_digit(s[from]) {
        lemma_digits_end_bounds(s, from + 1);
    }
}

/// A quoted text ends after the position it is read from.
pub proof fn lemma_text_body_bounds(s: Seq<char>, from: int)
    requires
        0 <= from,
    ensures
        text_body(s, from) matches Some((_, end)) ==> from < end <= s.len(),
    decreases s.len() - from,
{
    if from < s.len() && s[from] != '"' {
        if s[from] == '\\' {
            if from + 1 < s.len() && (s[from + 1] == '"' || s[from + 1] == '\\') {
                lemma_text_body_bounds(s, from + 2);
            }
        } else {
            lemma_text_body_bounds(s, from + 1);
        }
    }
}

/// A token ends after the position it starts at.
pub proof fn lemma_token_at_bounds(s: Seq<char>, from: int)
    requires
        0 <= from < s.len(),
    ensures
        token_at(s, from) matches Some((_, next)) ==> from < next <= s.len(),
{
    lemma_text_body_bounds(s, from + 1);
    lemma_digits_end_bounds(s, from);
    lemma_word_end_bounds(s, from);
}

/// A longer run of digits writes no smaller number.
proof fn lemma_digits_value_grows(s: Seq<char>, from: int, a: int, b: int)
    requires
        0 <= from <= a <= b <= s.len(),
    ensures
        digits_value(s.subrange(from, a)) <= digits_value(s.subrange(from, b)),
    decreases b - a,
{
    if a < b {
        lemma_digits_value_grows(s, from, a, b - 1);
        assert(s.subrange(from, b).drop_last() =~= s.subrange(from, b - 1));
    }
}

/// Joining characters in front of a text is done one after the other.
proof fn lemma_text_after_push(front: Seq<char>, c: char, r: Option<(Seq<char>, int)>)
    ensures
        text_after(front, text_after(seq![c], r)) == text_after(front.push(c), r),
{
    match r {
        Some((rest, end)) => {
            assert(front + (seq![c] + rest) =~= front.push(c) + rest);
        },
        None => {},
    }
}

/// Joining tokens in front of tokens is done one after the other.
proof fn lemma_tokens_after_push(front: Seq<TokenView>, t: TokenView, r: Option<Seq<TokenView>>)
    ensures
        tokens_after(front, tokens_after(seq![t], r)) == tokens_after(front.push(t), r),
{
    match r {
        Some(rest) => {
            assert(front + (seq![t] + rest) =~= front.push(t) + rest);
        },
        None => {},
    }
}

/// Reads the quoted text whose opening quote stands before `from`.
fn lex_text(text: &Vec<char>, from: usize) -> (r: Option<(Vec<char>, usize)>)
    requires
        from <= text.len(),
    ensures
        match r {
            Some((content, end)) => text_body(text@, from as int) == Some(
                (content@, end as int),
            ) && from < end <= text.len(),
            None => text_body(text@, from as int) is None,
        },
{
    let mut content: Vec<char> = Vec::new();
    let mut cur: usize = from;
    assert(text_after(content@, text_body(text@, cur as int)) == text_body(text@, from as int))
        by {
        match text_body(text@, cur as int) {
            Some((rest, end)) => {
                assert(content@ + rest =~= rest);
            },
            None => {},
        }
    }
    while cur < text.len()
        invariant
            from <= cur <= text.len(),
            text_body(text@, from as int) == text_after(content@, text_body(text@, cur as int)),
        decreases text.len() - cur,
    {
        let c = text[cur];
        if c == '"' {
            assert(content@ + Seq::<char>::empty() =~= content@);
            return Some((content, cur + 1));
        } else if c == '\\' {
            if cur + 1 < text.len() && (text[cur + 1] == '"' || text[cur + 1] == '\\') {
                proof {
                    lemma_text_after_push(
                        content@,
                        text@[cur + 1],
                        text_body(text@, cur as int + 2),
                    );
                }
                content.push(text[cur + 1]);
                cur += 2;
            } else {
                return None;
            }
        } else {
            proof {
                lemma_text_after_push(content@, c, text_body(text@, cur as int + 1));
            }
            content.push(c);
            cur += 1;
        }
    }
    None
}

/// Reads the number whose first digit stands at `from`.
fn lex_number(text: &Vec<char>, from: usize) -> (r: Option<(u32, usize)>)
    requires
        from < text.len(),
        is_digit(text@[from as int]),
    ensures
        match r {
            Some((value, end)) => end == digits_end(text@, from as int) && value == digits_value(
                text@.subrange(from as int, end as int),
            ) && from < end <= text.len(),
            None => digits_value(
                text@.subrange(from as int, digits_end(text@, from as int)),
            ) > u32::MAX,
        },
{
    let mut value: u64 = 0;
    let mut cur: usize = from;
    assert(text@.subrange(from as int, cur as int) =~= Seq::<char>::empty());
    while cur < text.len() && digit(text[cur])
        invariant
            from <= cur <= text.len(),
            digits_end(text@, from as int) == digits_end(text@, cur as int),
            value == digits_value(text@.subrange(from as int, cur as int)),
            value <= u32::MAX,
        decreases text.len() - cur,
    {
        let d: u64 = (text[cur] as u32 - '0' as u32) as u64;
        let grown: u64 = value * 10 + d;
        proof {
            assert(text@.subrange(from as int, cur as int + 1).drop_last() =~= text@.subrange(
                from as int,
                cur as int,
            ));
            assert(grown == digits_value(text@.subrange(from as int, cur as int + 1)));
        }
        if grown > u32::MAX as u64 {
            proof {
                lemma_digits_end_bounds(text@, cur as int);
                lemma_digits_value_grows(
                    text@,
                    from as int,
                    cur as int + 1,
                    digits_end(text@, from as int),
                );
            }
            return None;
        }
        value = grown;
        cur += 1;
    }
    Some((value as u32, cur))
}

/// Reads the word whose first character stands at `from`.
fn lex_word(text: &Vec<char>, from: usize) -> (r: (Vec<char>, usize))
    requires
        from < text.len(),
        is_word_start(text@[from as int]),
    ensures
        r.1 == word_end(text@, from as int),
        r.0@ == text@.subrange(from as int, r.1 as int),
        from < r.1 <= text.len(),
{
    let mut word: Vec<char> = Vec::new();
    let mut cur: usize = from;
    while cur < text.len() && word_char(text[cur])
        invariant
            from <= cur <= text.len(),
            word_end(text@, from as int) == word_end(text@, cur as int),
            word@ =~= text@.subrange(from as int, cur as int),
        decreases text.len() - cur,
    {
        word.push(text[cur]);
        cur += 1;
    }
    (word, cur)
}

/// Reads the token that starts at `from`.
fn lex_token(text: &Vec<char>, from: usize) -> (r: Option<(Token, usize)>)
    requires
        from < text.len(),
    ensures
        match r {
            Some((t, next)) => token_at(text@, from as int) == Some((t@, next as int)) && from
                < next <= text.len(),
            None => token_at(text@, from as int) is None,
        },
{
    let c = text[from];
    if c == '(' {
        Some((Token::Open, from + 1))
    } else if c == ')' {
        Some((Token::Close, from + 1))
    } else if c == '[' {
        Some((Token::ListOpen, from + 1))
    } else if c == ']' {
        Some((Token::ListClose, from + 1))
    } else if c == ':' {
        Some((Token::Colon, from + 1))
    } else if c == ',' {
        Some((Token::Comma, from + 1))
    } else if c == '"' {
        match lex_text(text, from + 1) {
            Some((content, end)) => Some((Token::Text(content), end)),
            None => None,
        }
    } else if digit(c) {
        match lex_number(text, from) {
            Some((value, end)) => Some((Token::Number(value), end)),
            None => None,
        }
    } else if word_start(c) {
        let (word, end) = lex_word(text, from);
        Some((Token::Word(word), end))
    } else {
        None
    }
}

/// Cuts a text into its tokens, or answers `None` where some part of the
/// text is no token.
pub fn tokenize(text: &Vec<char>) -> (r: Option<Vec<Token>>)
    ensures
        match r {
            Some(toks) => tokens_of(text@) == Some(views(toks@)),
            None => tokens_of(text@) is None,
        },
{
    let mut toks: Vec<Token> = Vec::new();
    let mut pos: usize = 0;
    assert(tokens_after(views(toks@), tokens_from(text@, 0)) == tokens_from(text@, 0)) by {
        match tokens_from(text@, 0) {
            Some(rest) => {
                assert(views(toks@) + rest =~= rest);
            },
            None => {},
        }
    }
    loop
        invariant
            pos <= text.len(),
            tokens_of(text@) == tokens_after(views(toks@), tokens_from(text@, pos as int)),
        decreases text.len() - pos,
    {
        let ghost before = pos;
        while pos < text.len() && space(text[pos])
            invariant
                before <= pos <= text.len(),
                skip_space(text@, before as int) == skip_space(text@, pos as int),
            decreases text.len() - pos,
        {
            pos += 1;
        }
        if pos >= text.len() {
            assert(views(toks@) + Seq::<TokenView>::empty() =~= views(toks@));
            return Some(toks);
        }
        match lex_token(text, pos) {
            Some((t, next)) => {
                proof {
                    lemma_tokens_after_push(views(toks@), t@, tokens_from(text@, next as int));
                    assert(views(toks@.push(t)) =~= views(toks@).push(t@));
                }
                toks.push(t);
                pos = next;
            },
            None => {
                return None;
            },
        }
    }
}

} // verus!
