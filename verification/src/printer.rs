//! Writes tokens as text, so that the lexer reads the same tokens back.

use vstd::prelude::*;
use crate::lexer::{
    digits_end, digits_value, lemma_skip_space_bounds, lemma_token_at_bounds, skip_space,
    text_body, token_at, tokens_from, tokens_of, word_end,
};
use crate::token::{
    digit_char, is_digit, is_space, is_word_char, is_word_start, views, Token, TokenView,
};

verus! {

/// A text with a backslash put before each quote and each backslash.
pub open spec fn escaped(s: Seq<char>) -> Seq<char>
    decreases s.len(),
{
    if s.len() == 0 {
        Seq::empty()
    } else if s[0] == '"' || s[0] == '\\' {
        seq!['\\', s[0]] + escaped(s.drop_first())
    } else {
        seq![s[0]] + escaped(s.drop_first())
    }
}

/// The decimal writing of a number, without leading zeros.
pub open spec fn digits_of(n: nat) -> Seq<char>
    decreases n,
{
    if n < 10 {
        seq![digit_char(n)]
    } else {
        digits_of(n / 10).push(digit_char(n % 10))
    }
}

/// The text of one token.
pub open spec fn token_text(t: TokenView) -> Seq<char> {
    match t {
        TokenView::Open => seq!['('],
        TokenView::Close => seq![')'],
        TokenView::ListOpen => seq!['['],
        TokenView::ListClose => seq![']'],
        TokenView::Colon => seq![':'],
        TokenView::Comma => seq![','],
        TokenView::Word(w) => w,
        TokenView::Text(c) => seq!['"'] + escaped(c) + seq!['"'],
        TokenView::Number(n) => digits_of(n),
    }
}

/// The text of a run of tokens: their texts, with nothing between them.
pub open spec fn render(toks: Seq<TokenView>) -> Seq<char>
    decreases toks.len(),
{
    if toks.len() == 0 {
        Seq::empty()
    } else {
        render(toks.drop_last()) + token_text(toks.last())
    }
}

/// A token that the lexer can give: a word is spelled as a word, a number
/// fits in 32 bits.
pub open spec fn token_ok(t: TokenView) -> bool {
    match t {
        TokenView::Word(w) => w.len() > 0 && is_word_start(w[0]) && forall|i: int|
            0 <= i < w.len() ==> is_word_char(#[trigger] w[i]),
        TokenView::Number(n) => n <= u32::MAX,
        _ => true,
    }
}

/// Neither a word nor a number.
pub open spec fn is_mark(t: TokenView) -> bool {
    !(t is Word) && !(t is Number)
}

/// A run of tokens that reads back as written: each token can be given by
/// the lexer, and after a word or a number comes neither.
pub open spec fn printable(toks: Seq<TokenView>) -> bool {
    &&& forall|k: int| 0 <= k < toks.len() ==> token_ok(#[trigger] toks[k])
    &&& forall|k: int|
        0 <= k && k + 1 < toks.len() && !is_mark(#[trigger] toks[k]) ==> is_mark(toks[k + 1])
}

/// `x` stands in `s` at position `p`.
pub open spec fn spells(s: Seq<char>, p: int, x: Seq<char>) -> bool {
    &&& 0 <= p
    &&& p + x.len() <= s.len()
    &&& forall|i: int| 0 <= i < x.len() ==> s[p + i] == #[trigger] x[i]
}

/// The decimal writing of a number is a run of digits that writes it.
pub proof fn lemma_digits_of(n: nat)
    ensures
        digits_of(n).len() >= 1,
        forall|i: int| 0 <= i < digits_of(n).len() ==> is_digit(#[trigger] digits_of(n)[i]),
        digits_value(digits_of(n)) == n,
    decreases n,
{
    if n < 10 {
        assert(digits_of(n).drop_last() =~= Seq::<char>::empty());
        assert(digits_value(digits_of(n).drop_last()) == 0);
    } else {
        lemma_digits_of(n / 10);
        assert(digits_of(n).drop_last() =~= digits_of(n / 10));
    }
}

/// The text of a token is not empty and does not start with white space;
/// that of a mark starts with neither a digit nor a character of a word.
pub proof fn lemma_token_text_head(t: TokenView)
    requires
        token_ok(t),
    ensures
        token_text(t).len() >= 1,
        !is_space(token_text(t)[0]),
        is_mark(t) ==> !is_word_char(token_text(t)[0]),
{
    match t {
        TokenView::Number(n) => {
            lemma_digits_of(n);
        },
        _ => {},
    }
}

/// The text of a prefix of the tokens stands at the start of the text of all.
pub proof fn lemma_render_prefix(toks: Seq<TokenView>, k: int)
    requires
        0 <= k <= toks.len(),
    ensures
        spells(render(toks), 0, render(toks.take(k))),
    decreases toks.len() - k,
{
    if k == toks.len() {
        assert(toks.take(k) =~= toks);
    } else {
        lemma_render_prefix(toks, k + 1);
        assert(toks.take(k + 1).drop_last() =~= toks.take(k));
        let longer = render(toks.take(k + 1));
        let shorter = render(toks.take(k));
        assert forall|i: int| 0 <= i < shorter.len() implies render(toks)[0 + i]
            == #[trigger] shorter[i] by {
            assert(longer[i] == shorter[i]);
        }
    }
}

/// The text of the `k`-th token stands in the text of all, after the text of
/// the tokens before it.
pub proof fn lemma_render_token(toks: Seq<TokenView>, k: int)
    requires
        0 <= k < toks.len(),
    ensures
        render(toks.take(k + 1)).len() == render(toks.take(k)).len() + token_text(toks[k]).len(),
        spells(render(toks), render(toks.take(k)).len() as int, token_text(toks[k])),
{
    lemma_render_prefix(toks, k + 1);
    assert(toks.take(k + 1).drop_last() =~= toks.take(k));
    let longer = render(toks.take(k + 1));
    let x = token_text(toks[k]);
    let p = render(toks.take(k)).len() as int;
    assert forall|i: int| 0 <= i < x.len() implies render(toks)[p + i] == #[trigger] x[i] by {
        assert(longer[p + i] == x[i]);
    }
}

/// A word that stands in a text, with no character of a word after it, ends
/// where it is spelled out.
proof fn lemma_word_end_spelled(s: Seq<char>, p: int, w: Seq<char>, i: int)
    requires
        spells(s, p, w),
        forall|j: int| 0 <= j < w.len() ==> is_word_char(#[trigger] w[j]),
        p + w.len() == s.len() || !is_word_char(s[p + w.len()]),
        0 <= i <= w.len(),
    ensures
        word_end(s, p + i) == p + w.len(),
    decreases w.len() - i,
{
    if i < w.len() {
        assert(s[p + i] == w[i]);
        lemma_word_end_spelled(s, p, w, i + 1);
    }
}

/// A run of digits that stands in a text, with no digit after it, ends where
/// it is spelled out.
proof fn lemma_digits_end_spelled(s: Seq<char>, p: int, d: Seq<char>, i: int)
    requires
        spells(s, p, d),
        forall|j: int| 0 <= j < d.len() ==> is_digit(#[trigger] d[j]),
        p + d.len() == s.len() || !is_digit(s[p + d.len()]),
        0 <= i <= d.len(),
    ensures
        digits_end(s, p + i) == p + d.len(),
    decreases d.len() - i,
{
    if i < d.len() {
        assert(s[p + i] == d[i]);
        lemma_digits_end_spelled(s, p, d, i + 1);
    }
}

/// An escaped text that stands in a text, with a quote after it, is read
/// back as the text that was escaped.
proof fn lemma_text_body_spelled(s: Seq<char>, p: int, c: Seq<char>)
    requires
        spells(s, p, escaped(c) + seq!['"']),
    ensures
        text_body(s, p) == Some((c, p + escaped(c).len() + 1)),
    decreases c.len(),
{
    let x = escaped(c) + seq!['"'];
    if c.len() == 0 {
        assert(s[p + 0] == x[0]);
    } else {
        let rest = c.drop_first();
        let tail = escaped(rest) + seq!['"'];
        if c[0] == '"' || c[0] == '\\' {
            assert(s[p + 0] == x[0]);
            assert(s[p + 1] == x[1]);
            assert(spells(s, p + 2, tail)) by {
                assert forall|i: int| 0 <= i < tail.len() implies s[p + 2 + i]
                    == #[trigger] tail[i] by {
                    assert(s[p + (i + 2)] == x[i + 2]);
                }
            }
            lemma_text_body_spelled(s, p + 2, rest);
            assert(seq![c[0]] + rest =~= c);
        } else {
            assert(s[p + 0] == x[0]);
            assert(spells(s, p + 1, tail)) by {
                assert forall|i: int| 0 <= i < tail.len() implies s[p + 1 + i]
                    == #[trigger] tail[i] by {
                    assert(s[p + (i + 1)] == x[i + 1]);
                }
            }
            lemma_text_body_spelled(s, p + 1, rest);
            assert(seq![c[0]] + rest =~= c);
        }
    }
}

/// A token whose text stands in a text, followed by the end of the text or
/// by a character that cannot continue it, is read back as that token.
pub proof fn lemma_token_at_spelled(s: Seq<char>, p: int, t: TokenView)
    requires
        token_ok(t),
        spells(s, p, token_text(t)),
        !is_mark(t) ==> p + token_text(t).len() == s.len() || !is_word_char(
            s[p + token_text(t).len()],
        ),
    ensures
        token_at(s, p) == Some((t, p + token_text(t).len())),
{
    let x = token_text(t);
    lemma_token_text_head(t);
    assert(s[p + 0] == x[0]);
    match t {
        TokenView::Word(w) => {
            lemma_word_end_spelled(s, p, w, 0);
            assert(s.subrange(p, p + w.len()) =~= w);
        },
        TokenView::Number(n) => {
            lemma_digits_of(n);
            lemma_digits_end_spelled(s, p, x, 0);
            assert(s.subrange(p, p + x.len()) =~= x);
        },
        TokenView::Text(c) => {
            let tail = escaped(c) + seq!['"'];
            assert(spells(s, p + 1, tail)) by {
                assert forall|i: int| 0 <= i < tail.len() implies s[p + 1 + i]
                    == #[trigger] tail[i] by {
                    assert(s[p + (i + 1)] == x[i + 1]);
                }
            }
            lemma_text_body_spelled(s, p + 1, c);
        },
        _ => {},
    }
}

/// In the text of printable tokens, the lexer reads from the place of the
/// `k`-th token the tokens from the `k`-th on.
proof fn lemma_tokens_from_rendered(toks: Seq<TokenView>, k: int)
    requires
        printable(toks),
        0 <= k <= toks.len(),
    ensures
        tokens_from(render(toks), render(toks.take(k)).len() as int) == Some(toks.skip(k)),
    decreases toks.len() - k,
{
    let s = render(toks);
    let p = render(toks.take(k)).len() as int;
    if k == toks.len() {
        assert(toks.take(k) =~= toks);
        assert(toks.skip(k) =~= Seq::<TokenView>::empty());
    } else {
        let t = toks[k];
        let x = token_text(t);
        lemma_render_token(toks, k);
        lemma_token_text_head(t);
        assert(s[p + 0] == x[0]);
        assert(skip_space(s, p) == p);
        let next = p + x.len();
        if k + 1 < toks.len() {
            let u = toks[k + 1];
            lemma_render_token(toks, k + 1);
            lemma_token_text_head(u);
            assert(s[next + 0] == token_text(u)[0]);
        } else {
            assert(toks.take(k + 1) =~= toks);
        }
        lemma_token_at_spelled(s, p, t);
        lemma_tokens_from_rendered(toks, k + 1);
        assert(seq![t] + toks.skip(k + 1) =~= toks.skip(k));
    }
}

/// The lexer reads printable tokens back from their text.
pub proof fn lemma_tokens_of_rendered(toks: Seq<TokenView>)
    requires
        printable(toks),
    ensures
        tokens_of(render(toks)) == Some(toks),
{
    lemma_tokens_from_rendered(toks, 0);
    assert(toks.take(0) =~= Seq::<TokenView>::empty());
    assert(toks.skip(0) =~= toks);
}

/// Every character from the start of a word to its end is a character of a
/// word.
proof fn lemma_word_run(s: Seq<char>, from: int, j: int)
    requires
        0 <= from <= j < word_end(s, from),
    ensures
        j < s.len(),
        is_word_char(s[j]),
    decreases s.len() - from,
{
    if from < j {
        lemma_word_run(s, from + 1, j);
    }
}

/// Every token that the lexer gives is spelled as the lexer spells tokens: a
/// word as a word, a number within 32 bits.
pub proof fn lemma_tokens_from_ok(s: Seq<char>, from: int)
    requires
        0 <= from,
    ensures
        tokens_from(s, from) matches Some(toks) ==> forall|k: int|
            0 <= k < toks.len() ==> token_ok(#[trigger] toks[k]),
    decreases s.len() - from,
{
    let p = skip_space(s, from);
    lemma_skip_space_bounds(s, from);
    if p < s.len() {
        match token_at(s, p) {
            Some((t, next)) => {
                lemma_token_at_bounds(s, p);
                lemma_tokens_from_ok(s, next);
                assert(token_ok(t)) by {
                    match t {
                        TokenView::Word(w) => {
                            let end = word_end(s, p);
                            assert(w == s.subrange(p, end));
                            assert forall|i: int| 0 <= i < w.len() implies is_word_char(
                                #[trigger] w[i],
                            ) by {
                                lemma_word_run(s, p, p + i);
                            }
                        },
                        _ => {},
                    }
                }
                match tokens_from(s, next) {
                    Some(rest) => {
                        let toks = seq![t] + rest;
                        assert forall|k: int| 0 <= k < toks.len() implies token_ok(
                            #[trigger] toks[k],
                        ) by {
                            if k > 0 {
                                assert(toks[k] == rest[k - 1]);
                            }
                        }
                    },
                    None => {},
                }
            },
            None => {},
        }
    }
}

/// Appends the decimal writing of a number.
fn push_digits(out: &mut Vec<char>, n: u32)
    ensures
        final(out)@ == old(out)@ + digits_of(n as nat),
    decreases n,
{
    if n >= 10 {
        push_digits(out, n / 10);
    }
    let d: u8 = (n % 10) as u8;
    let c: char = (d + 48u8) as char;
    assert(c == digit_char((n % 10) as nat));
    out.push(c);
    proof {
        if n < 10 {
            assert(final(out)@ =~= old(out)@ + digits_of(n as nat));
        } else {
            assert(final(out)@ =~= old(out)@ + digits_of(n as nat));
        }
    }
}

/// Appends a text with its quotes and backslashes escaped.
fn push_escaped(out: &mut Vec<char>, content: &Vec<char>)
    ensures
        final(out)@ == old(out)@ + escaped(content@),
{
    let mut i: usize = 0;
    assert(content@.skip(0) =~= content@);
    assert(out@ =~= old(out)@ + Seq::<char>::empty());
    while i < content.len()
        invariant
            i <= content.len(),
            out@ + escaped(content@.skip(i as int)) == old(out)@ + escaped(content@),
        decreases content.len() - i,
    {
        let c = content[i];
        let ghost before = out@;
        let ghost rest = content@.skip(i as int);
        proof {
            assert(rest[0] == c);
            assert(rest.drop_first() =~= content@.skip(i as int + 1));
        }
        if c == '"' || c == '\\' {
            out.push('\\');
            out.push(c);
            assert(out@ + escaped(content@.skip(i as int + 1)) =~= before + escaped(rest));
        } else {
            out.push(c);
            assert(out@ + escaped(content@.skip(i as int + 1)) =~= before + escaped(rest));
        }
        i += 1;
    }
    assert(out@ + escaped(content@.skip(i as int)) =~= out@);
}

/// Appends a copy of the given characters.
fn push_all(out: &mut Vec<char>, chars: &Vec<char>)
    ensures
        final(out)@ == old(out)@ + chars@,
{
    let mut i: usize = 0;
    assert(out@ =~= old(out)@ + chars@.take(0));
    while i < chars.len()
        invariant
            i <= chars.len(),
            out@ == old(out)@ + chars@.take(i as int),
        decreases chars.len() - i,
    {
        out.push(chars[i]);
        assert(out@ =~= old(out)@ + chars@.take(i as int + 1));
        i += 1;
    }
    assert(chars@.take(i as int) =~= chars@);
}

/// Appends the text of one token.
fn push_token(out: &mut Vec<char>, t: &Token)
    ensures
        final(out)@ == old(out)@ + token_text(t@),
{
    match t {
        Token::Open => {
            out.push('(');
            assert(out@ =~= old(out)@ + token_text(t@));
        },
        Token::Close => {
            out.push(')');
            assert(out@ =~= old(out)@ + token_text(t@));
        },
        Token::ListOpen => {
            out.push('[');
            assert(out@ =~= old(out)@ + token_text(t@));
        },
        Token::ListClose => {
            out.push(']');
            assert(out@ =~= old(out)@ + token_text(t@));
        },
        Token::Colon => {
            out.push(':');
            assert(out@ =~= old(out)@ + token_text(t@));
        },
        Token::Comma => {
            out.push(',');
            assert(out@ =~= old(out)@ + token_text(t@));
        },
        Token::Word(w) => {
            push_all(out, w);
        },
        Token::Text(c) => {
            out.push('"');
            push_escaped(out, c);
            out.push('"');
            assert(out@ =~= old(out)@ + token_text(t@));
        },
        Token::Number(n) => {
            push_digits(out, *n);
        },
    }
}

/// The text of a run of tokens: their texts, with nothing between them.
pub fn render_tokens(toks: &Vec<Token>) -> (out: Vec<char>)
    ensures
        out@ == render(views(toks@)),
{
    let mut out: Vec<char> = Vec::new();
    let mut i: usize = 0;
    let ghost all = views(toks@);
    assert(all.take(0) =~= Seq::<TokenView>::empty());
    while i < toks.len()
        invariant
            i <= toks.len(),
            all == views(toks@),
            out@ == render(all.take(i as int)),
        decreases toks.len() - i,
    {
        proof {
            assert(all.take(i as int + 1).drop_last() =~= all.take(i as int));
            assert(all.take(i as int + 1).last() == toks@[i as int]@);
        }
        push_token(&mut out, &toks[i]);
        i += 1;
    }
    assert(all.take(i as int) =~= all);
    out
}

} // verus!
