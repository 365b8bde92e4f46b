//! The text form of level templates.
//!
//! A level is written as one line,
//!
//! ```text
//! LevelTemplate(name:"two",width:2,height:1,tiles:[Start,Goal(active:false)])
//! ```
//!
//! and read back by the lexer and the parser, which also accept white space
//! between tokens, the fields in another order, commas after the last item
//! of a list and a missing type name.

use vstd::prelude::*;
use vstd::string::*;
use crate::level::{level_views, Field, LevelError, LevelTemplate, LevelView};
use crate::lexer::{tokenize, tokens_of};
use crate::parser::{
    after_comma, field_at, field_list, finish, flag_field, goal_body, lemma_field_at_bounds,
    level_start, mark_at, no_fields, parse_level, read_level, tile_at, tile_list, wall_body,
    wall_flags, PartialView,
};
use crate::printer::{
    is_mark, lemma_tokens_from_ok, lemma_tokens_of_rendered, printable, render, render_tokens,
    token_ok,
};
use crate::text::{chars_of, string_of};
use crate::tile::{Connections, TileVariant};
use crate::token::{views, Token, TokenView};

verus! {

/// The word for a flag.
pub open spec fn flag_word(b: bool) -> Seq<char> {
    if b {
        "true"@
    } else {
        "false"@
    }
}

/// The tokens of the field `name : flag`.
pub open spec fn flag_tokens(name: Seq<char>, b: bool) -> Seq<TokenView> {
    seq![TokenView::Word(name), TokenView::Colon, TokenView::Word(flag_word(b))]
}

/// The tokens of one tile.
pub open spec fn tile_tokens(t: TileVariant) -> Seq<TokenView> {
    match t {
        TileVariant::Start => seq![TokenView::Word("Start"@)],
        TileVariant::Path => seq![TokenView::Word("Path"@)],
        TileVariant::Goal { active } => seq![TokenView::Word("Goal"@), TokenView::Open]
            + flag_tokens("active"@, active) + seq![TokenView::Close],
        TileVariant::Wall(c) => seq![TokenView::Word("Wall"@), TokenView::Open] + flag_tokens(
            "up"@,
            c.up,
        ) + seq![TokenView::Comma] + flag_tokens("down"@, c.down) + seq![TokenView::Comma]
            + flag_tokens("left"@, c.left) + seq![TokenView::Comma] + flag_tokens(
            "right"@,
            c.right,
        ) + seq![TokenView::Close],
    }
}

/// The tokens of the tiles of a list, with a comma between two tiles.
pub open spec fn tiles_tokens(tiles: Seq<TileVariant>) -> Seq<TokenView>
    decreases tiles.len(),
{
    if tiles.len() == 0 {
        Seq::empty()
    } else if tiles.len() == 1 {
        tile_tokens(tiles[0])
    } else {
        tile_tokens(tiles[0]) + seq![TokenView::Comma] + tiles_tokens(tiles.drop_first())
    }
}

/// The tokens of a level up to the first tile.
pub open spec fn head_tokens(l: LevelView) -> Seq<TokenView> {
    seq![
        TokenView::Word("LevelTemplate"@),
        TokenView::Open,
        TokenView::Word("name"@),
        TokenView::Colon,
        TokenView::Text(l.name),
        TokenView::Comma,
        TokenView::Word("width"@),
        TokenView::Colon,
        TokenView::Number(l.width),
        TokenView::Comma,
        TokenView::Word("height"@),
        TokenView::Colon,
        TokenView::Number(l.height),
        TokenView::Comma,
        TokenView::Word("tiles"@),
        TokenView::Colon,
        TokenView::ListOpen,
    ]
}

/// The tokens of a level.
pub open spec fn level_tokens(l: LevelView) -> Seq<TokenView> {
    head_tokens(l) + tiles_tokens(l.tiles) + seq![TokenView::ListClose, TokenView::Close]
}

/// The text of a level.
pub open spec fn serialize_spec(l: LevelView) -> Seq<char> {
    render(level_tokens(l))
}

/// The level that a text holds, or why it holds none: the text is cut into
/// tokens, the tokens are read by the grammar of level files, and the fields
/// read must make a level.
pub open spec fn deserialize_spec(text: Seq<char>) -> Result<LevelView, LevelError> {
    match tokens_of(text) {
        None => Err(LevelError::Syntax),
        Some(toks) => parse_level(toks),
    }
}

/// The levels that the texts hold, in the order of the texts; a text that
/// holds no level gives none.
pub open spec fn parsed(texts: Seq<Seq<char>>) -> Seq<LevelView>
    decreases texts.len(),
{
    if texts.len() == 0 {
        Seq::empty()
    } else {
        match deserialize_spec(texts.last()) {
            Ok(l) => parsed(texts.drop_last()).push(l),
            Err(_) => parsed(texts.drop_last()),
        }
    }
}

/// The texts that hold no level, each by its index and the reason, in the
/// order of the texts.
pub open spec fn failures(texts: Seq<Seq<char>>) -> Seq<(usize, LevelError)>
    decreases texts.len(),
{
    if texts.len() == 0 {
        Seq::empty()
    } else {
        match deserialize_spec(texts.last()) {
            Ok(_) => failures(texts.drop_last()),
            Err(e) => failures(texts.drop_last()).push(((texts.len() - 1) as usize, e)),
        }
    }
}

/// Number of the texts that hold a level.
pub open spec fn valid_count(texts: Seq<Seq<char>>) -> nat
    decreases texts.len(),
{
    if texts.len() == 0 {
        0
    } else if deserialize_spec(texts.last()) is Ok {
        valid_count(texts.drop_last()) + 1
    } else {
        valid_count(texts.drop_last())
    }
}

/// What the strings of a vector hold.
pub open spec fn string_views(v: Seq<String>) -> Seq<Seq<char>> {
    Seq::new(v.len(), |i: int| v[i]@)
}

/// `x` stands in `toks` at position `pos`.
pub open spec fn holds(toks: Seq<TokenView>, pos: int, x: Seq<TokenView>) -> bool {
    &&& 0 <= pos
    &&& pos + x.len() <= toks.len()
    &&& forall|i: int| 0 <= i < x.len() ==> toks[pos + i] == #[trigger] x[i]
}

/// What the words of the grammar hold.
proof fn lemma_words()
    ensures
        "LevelTemplate"@ == seq!['L', 'e', 'v', 'e', 'l', 'T', 'e', 'm', 'p', 'l', 'a', 't', 'e'],
        "name"@ == seq!['n', 'a', 'm', 'e'],
        "width"@ == seq!['w', 'i', 'd', 't', 'h'],
        "height"@ == seq!['h', 'e', 'i', 'g', 'h', 't'],
        "tiles"@ == seq!['t', 'i', 'l', 'e', 's'],
        "Start"@ == seq!['S', 't', 'a', 'r', 't'],
        "Path"@ == seq!['P', 'a', 't', 'h'],
        "Goal"@ == seq!['G', 'o', 'a', 'l'],
        "Wall"@ == seq!['W', 'a', 'l', 'l'],
        "active"@ == seq!['a', 'c', 't', 'i', 'v', 'e'],
        "up"@ == seq!['u', 'p'],
        "down"@ == seq!['d', 'o', 'w', 'n'],
        "left"@ == seq!['l', 'e', 'f', 't'],
        "right"@ == seq!['r', 'i', 'g', 'h', 't'],
        "true"@ == seq!['t', 'r', 'u', 'e'],
        "false"@ == seq!['f', 'a', 'l', 's', 'e'],
{
    reveal_strlit("LevelTemplate");
    reveal_strlit("name");
    reveal_strlit("width");
    reveal_strlit("height");
    reveal_strlit("tiles");
    reveal_strlit("Start");
    reveal_strlit("Path");
    reveal_strlit("Goal");
    reveal_strlit("Wall");
    reveal_strlit("active");
    reveal_strlit("up");
    reveal_strlit("down");
    reveal_strlit("left");
    reveal_strlit("right");
    reveal_strlit("true");
    reveal_strlit("false");
    assert("LevelTemplate"@ =~= seq![
        'L',
        'e',
        'v',
        'e',
        'l',
        'T',
        'e',
        'm',
        'p',
        'l',
        'a',
        't',
        'e',
    ]);
    assert("name"@ =~= seq!['n', 'a', 'm', 'e']);
    assert("width"@ =~= seq!['w', 'i', 'd', 't', 'h']);
    assert("height"@ =~= seq!['h', 'e', 'i', 'g', 'h', 't']);
    assert("tiles"@ =~= seq!['t', 'i', 'l', 'e', 's']);
    assert("Start"@ =~= seq!['S', 't', 'a', 'r', 't']);
    assert("Path"@ =~= seq!['P', 'a', 't', 'h']);
    assert("Goal"@ =~= seq!['G', 'o', 'a', 'l']);
    assert("Wall"@ =~= seq!['W', 'a', 'l', 'l']);
    assert("active"@ =~= seq!['a', 'c', 't', 'i', 'v', 'e']);
    assert("up"@ =~= seq!['u', 'p']);
    assert("down"@ =~= seq!['d', 'o', 'w', 'n']);
    assert("left"@ =~= seq!['l', 'e', 'f', 't']);
    assert("right"@ =~= seq!['r', 'i', 'g', 'h', 't']);
    assert("true"@ =~= seq!['t', 'r', 'u', 'e']);
    assert("false"@ =~= seq!['f', 'a', 'l', 's', 'e']);
}

/// The words of the grammar are spelled as words, and no two of those that
/// may stand in the same place are the same.
proof fn lemma_words_ok()
    ensures
        token_ok(TokenView::Word("LevelTemplate"@)),
        token_ok(TokenView::Word("name"@)),
        token_ok(TokenView::Word("width"@)),
        token_ok(TokenView::Word("height"@)),
        token_ok(TokenView::Word("tiles"@)),
        token_ok(TokenView::Word("Start"@)),
        token_ok(TokenView::Word("Path"@)),
        token_ok(TokenView::Word("Goal"@)),
        token_ok(TokenView::Word("Wall"@)),
        token_ok(TokenView::Word("active"@)),
        token_ok(TokenView::Word("up"@)),
        token_ok(TokenView::Word("down"@)),
        token_ok(TokenView::Word("left"@)),
        token_ok(TokenView::Word("right"@)),
        token_ok(TokenView::Word("true"@)),
        token_ok(TokenView::Word("false"@)),
        "true"@ != "false"@,
        "Start"@ != "Path"@,
        "Start"@ != "Goal"@,
        "Start"@ != "Wall"@,
        "Path"@ != "Goal"@,
        "Path"@ != "Wall"@,
        "Goal"@ != "Wall"@,
        "name"@ != "width"@,
        "name"@ != "height"@,
        "name"@ != "tiles"@,
        "width"@ != "height"@,
        "width"@ != "tiles"@,
        "height"@ != "tiles"@,
{
    lemma_words();
    assert("Path"@[0] != "Goal"@[0]);
    assert("Path"@[0] != "Wall"@[0]);
    assert("Goal"@[0] != "Wall"@[0]);
    assert("width"@[0] != "tiles"@[0]);
}

/// Two runs of printable tokens make a printable run, where the first does
/// not end with a word or number that the second would continue.
proof fn lemma_printable_concat(a: Seq<TokenView>, b: Seq<TokenView>)
    requires
        printable(a),
        printable(b),
        a.len() == 0 || b.len() == 0 || is_mark(a.last()) || is_mark(b[0]),
    ensures
        printable(a + b),
{
    let c = a + b;
    assert forall|k: int| 0 <= k < c.len() implies token_ok(#[trigger] c[k]) by {
        if k < a.len() {
            assert(c[k] == a[k]);
        } else {
            assert(c[k] == b[k - a.len()]);
        }
    }
    assert forall|k: int| 0 <= k && k + 1 < c.len() && !is_mark(#[trigger] c[k]) implies is_mark(
        c[k + 1],
    ) by {
        if k + 1 < a.len() {
            assert(c[k] == a[k]);
            assert(c[k + 1] == a[k + 1]);
        } else if k < a.len() {
            assert(c[k] == a[k]);
            assert(c[k + 1] == b[0]);
        } else {
            assert(c[k] == b[k - a.len()]);
            assert(c[k + 1] == b[k - a.len() + 1]);
        }
    }
}

/// The tokens of a tile are printable; they start with a word and end with a
/// word or a closing bracket.
proof fn lemma_tile_tokens_printable(t: TileVariant)
    ensures
        printable(tile_tokens(t)),
        tile_tokens(t).len() >= 1,
{
    lemma_words_ok();
    let x = tile_tokens(t);
    match t {
        TileVariant::Goal { active } => {
            assert(x.len() == 6);
            assert(x[0] == TokenView::Word("Goal"@));
            assert(x[1] == TokenView::Open);
            assert(x[2] == TokenView::Word("active"@));
            assert(x[3] == TokenView::Colon);
            assert(x[4] == TokenView::Word(flag_word(active)));
            assert(x[5] == TokenView::Close);
        },
        TileVariant::Wall(c) => {
            lemma_wall_tokens(c);
        },
        _ => {},
    }
}

/// The tokens of a wall, one by one.
proof fn lemma_wall_tokens(c: Connections)
    ensures
        tile_tokens(TileVariant::Wall(c)) == seq![
            TokenView::Word("Wall"@),
            TokenView::Open,
            TokenView::Word("up"@),
            TokenView::Colon,
            TokenView::Word(flag_word(c.up)),
            TokenView::Comma,
            TokenView::Word("down"@),
            TokenView::Colon,
            TokenView::Word(flag_word(c.down)),
            TokenView::Comma,
            TokenView::Word("left"@),
            TokenView::Colon,
            TokenView::Word(flag_word(c.left)),
            TokenView::Comma,
            TokenView::Word("right"@),
            TokenView::Colon,
            TokenView::Word(flag_word(c.right)),
            TokenView::Close,
        ],
{
    assert(tile_tokens(TileVariant::Wall(c)) =~= seq![
        TokenView::Word("Wall"@),
        TokenView::Open,
        TokenView::Word("up"@),
        TokenView::Colon,
        TokenView::Word(flag_word(c.up)),
        TokenView::Comma,
        TokenView::Word("down"@),
        TokenView::Colon,
        TokenView::Word(flag_word(c.down)),
        TokenView::Comma,
        TokenView::Word("left"@),
        TokenView::Colon,
        TokenView::Word(flag_word(c.left)),
        TokenView::Comma,
        TokenView::Word("right"@),
        TokenView::Colon,
        TokenView::Word(flag_word(c.right)),
        TokenView::Close,
    ]);
}

/// The tokens of a list of tiles are printable.
proof fn lemma_tiles_tokens_printable(tiles: Seq<TileVariant>)
    ensures
        printable(tiles_tokens(tiles)),
    decreases tiles.len(),
{
    if tiles.len() == 0 {
    } else if tiles.len() == 1 {
        lemma_tile_tokens_printable(tiles[0]);
    } else {
        lemma_tile_tokens_printable(tiles[0]);
        lemma_tiles_tokens_printable(tiles.drop_first());
        let comma = seq![TokenView::Comma];
        lemma_printable_concat(tile_tokens(tiles[0]), comma);
        lemma_printable_concat(tile_tokens(tiles[0]) + comma, tiles_tokens(tiles.drop_first()));
    }
}

/// The tokens of a level whose sizes fit in 32 bits are printable.
proof fn lemma_level_tokens_printable(l: LevelView)
    requires
        l.width <= u32::MAX,
        l.height <= u32::MAX,
    ensures
        printable(level_tokens(l)),
{
    lemma_words_ok();
    lemma_tiles_tokens_printable(l.tiles);
    let head = head_tokens(l);
    let foot = seq![TokenView::ListClose, TokenView::Close];
    assert(printable(head));
    assert(printable(foot));
    lemma_printable_concat(head, tiles_tokens(l.tiles));
    lemma_printable_concat(head + tiles_tokens(l.tiles), foot);
}

/// The tokens of a tile are read back as that tile.
proof fn lemma_tile_at_tokens(toks: Seq<TokenView>, pos: int, t: TileVariant)
    requires
        holds(toks, pos, tile_tokens(t)),
        !mark_at(toks, pos + tile_tokens(t).len() - 1, TokenView::Comma),
    ensures
        tile_at(toks, pos) == Ok::<_, LevelError>((t, pos + tile_tokens(t).len())),
{
    lemma_words_ok();
    let x = tile_tokens(t);
    assert(toks[pos + 0] == x[0]);
    match t {
        TileVariant::Goal { active } => {
            assert(toks[pos + 1] == x[1]);
            assert(toks[pos + 2] == x[2]);
            assert(toks[pos + 3] == x[3]);
            assert(toks[pos + 4] == x[4]);
            assert(toks[pos + 5] == x[5]);
            assert(flag_field(toks, pos + 2, "active"@) == Some(active));
            assert(after_comma(toks, pos + 5) == pos + 5);
            assert(goal_body(toks, pos + 1) == Ok::<_, LevelError>((t, pos + 6)));
        },
        TileVariant::Wall(c) => {
            lemma_wall_tokens(c);
            assert(toks[pos + 1] == x[1]);
            assert(toks[pos + 2] == x[2]);
            assert(toks[pos + 3] == x[3]);
            assert(toks[pos + 4] == x[4]);
            assert(toks[pos + 5] == x[5]);
            assert(toks[pos + 6] == x[6]);
            assert(toks[pos + 7] == x[7]);
            assert(toks[pos + 8] == x[8]);
            assert(toks[pos + 9] == x[9]);
            assert(toks[pos + 10] == x[10]);
            assert(toks[pos + 11] == x[11]);
            assert(toks[pos + 12] == x[12]);
            assert(toks[pos + 13] == x[13]);
            assert(toks[pos + 14] == x[14]);
            assert(toks[pos + 15] == x[15]);
            assert(toks[pos + 16] == x[16]);
            assert(toks[pos + 17] == x[17]);
            assert(flag_field(toks, pos + 2, "up"@) == Some(c.up));
            assert(flag_field(toks, pos + 6, "down"@) == Some(c.down));
            assert(flag_field(toks, pos + 10, "left"@) == Some(c.left));
            assert(flag_field(toks, pos + 14, "right"@) == Some(c.right));
            assert(wall_flags(toks, pos + 2) == Some(c));
            assert(after_comma(toks, pos + 17) == pos + 17);
            assert(wall_body(toks, pos + 1) == Ok::<_, LevelError>((t, pos + 18)));
        },
        _ => {},
    }
}

/// The tokens of a list of tiles, with the closing bracket after them, are
/// read back as those tiles.
proof fn lemma_tile_list_tokens(toks: Seq<TokenView>, pos: int, tiles: Seq<TileVariant>)
    requires
        holds(toks, pos, tiles_tokens(tiles) + seq![TokenView::ListClose]),
    ensures
        tile_list(toks, pos) == Ok::<_, LevelError>((tiles, pos + tiles_tokens(tiles).len() + 1)),
    decreases tiles.len(),
{
    let x = tiles_tokens(tiles) + seq![TokenView::ListClose];
    if tiles.len() == 0 {
        assert(toks[pos + 0] == x[0]);
        assert(tiles =~= Seq::<TileVariant>::empty());
    } else {
        let t = tiles[0];
        let first = tile_tokens(t);
        let n = first.len() as int;
        lemma_tile_tokens_printable(t);
        lemma_words_ok();
        assert(holds(toks, pos, first)) by {
            assert forall|i: int| 0 <= i < first.len() implies toks[pos + i]
                == #[trigger] first[i] by {
                assert(x[i] == first[i]);
            }
        }
        assert(toks[pos + 0] == first[0]);
        assert(first[0] is Word);
        assert(toks[pos + (n - 1)] == x[n - 1]);
        assert(x[n - 1] == first[n - 1]);
        assert(first[n - 1] != TokenView::Comma) by {
            match t {
                TileVariant::Goal { active } => {},
                TileVariant::Wall(c) => {
                    lemma_wall_tokens(c);
                },
                _ => {},
            }
        }
        lemma_tile_at_tokens(toks, pos, t);
        assert(toks[pos + n] == x[n]);
        if tiles.len() == 1 {
            assert(x[n] == TokenView::ListClose);
            assert(seq![t] =~= tiles);
        } else {
            let rest = tiles.drop_first();
            let tail = tiles_tokens(rest) + seq![TokenView::ListClose];
            assert(x[n] == TokenView::Comma);
            assert(x =~= first + seq![TokenView::Comma] + tail);
            assert(holds(toks, pos + n + 1, tail)) by {
                assert forall|i: int| 0 <= i < tail.len() implies toks[pos + n + 1 + i]
                    == #[trigger] tail[i] by {
                    assert(toks[pos + (n + 1 + i)] == x[n + 1 + i]);
                }
            }
            lemma_tile_list_tokens(toks, pos + n + 1, rest);
            assert(seq![t] + rest =~= tiles);
        }
    }
}

/// The tokens of a level are read back as that level.
proof fn lemma_parse_level_tokens(l: LevelView)
    requires
        l.wf(),
    ensures
        parse_level(level_tokens(l)) == Ok::<_, LevelError>(l),
{
    lemma_words_ok();
    let toks = level_tokens(l);
    let head = head_tokens(l);
    let body = tiles_tokens(l.tiles);
    let n = body.len() as int;
    assert(toks.len() == 17 + n + 2);
    assert forall|i: int| 0 <= i < 17 implies toks[i] == head[i] by {}
    assert(toks[17 + n] == TokenView::ListClose);
    assert(toks[17 + n + 1] == TokenView::Close);
    let listed = body + seq![TokenView::ListClose];
    assert(holds(toks, 17, listed)) by {
        assert forall|i: int| 0 <= i < listed.len() implies toks[17 + i]
            == #[trigger] listed[i] by {}
    }
    lemma_tile_list_tokens(toks, 17, l.tiles);
    let f0 = no_fields();
    let f1 = PartialView { name: Some(l.name), ..f0 };
    let f2 = PartialView { width: Some(l.width), ..f1 };
    let f3 = PartialView { height: Some(l.height), ..f2 };
    let f4 = PartialView { tiles: Some(l.tiles), ..f3 };
    let end = 17 + n + 2;
    assert(toks[0] == head[0]);
    assert(toks[1] == head[1]);
    assert(toks[2] == head[2]);
    assert(toks[3] == head[3]);
    assert(toks[4] == head[4]);
    assert(toks[5] == head[5]);
    assert(toks[6] == head[6]);
    assert(toks[7] == head[7]);
    assert(toks[8] == head[8]);
    assert(toks[9] == head[9]);
    assert(toks[10] == head[10]);
    assert(toks[11] == head[11]);
    assert(toks[12] == head[12]);
    assert(toks[13] == head[13]);
    assert(toks[14] == head[14]);
    assert(toks[15] == head[15]);
    assert(toks[16] == head[16]);
    assert(field_at(toks, 14, f3) == Ok::<_, LevelError>((f4, 17 + n + 1)));
    assert(field_list(toks, 14, f3) == Ok::<_, LevelError>((f4, end)));
    assert(field_at(toks, 10, f2) == Ok::<_, LevelError>((f3, 13int)));
    assert(field_list(toks, 10, f2) == Ok::<_, LevelError>((f4, end)));
    assert(field_at(toks, 6, f1) == Ok::<_, LevelError>((f2, 9int)));
    assert(field_list(toks, 6, f1) == Ok::<_, LevelError>((f4, end)));
    assert(field_at(toks, 2, f0) == Ok::<_, LevelError>((f1, 5int)));
    assert(field_list(toks, 2, f0) == Ok::<_, LevelError>((f4, end)));
    assert(level_start(toks) == 1);
    assert(finish(f4) == Ok::<_, LevelError>(l));
}

/// Reading what was written gives the level back: for every level with one
/// tile for each cell and sizes that fit in 32 bits, the text of the level
/// holds that level.
pub proof fn lemma_round_trip(l: LevelView)
    requires
        l.wf(),
        l.width <= u32::MAX,
        l.height <= u32::MAX,
    ensures
        deserialize_spec(serialize_spec(l)) == Ok::<_, LevelError>(l),
{
    lemma_level_tokens_printable(l);
    lemma_tokens_of_rendered(level_tokens(l));
    lemma_parse_level_tokens(l);
}

/// A level that was read from a text has one tile for each cell, and sizes
/// that fit in 32 bits.
pub proof fn lemma_deserialized_wf(text: Seq<char>)
    ensures
        deserialize_spec(text) matches Ok(l) ==> l.wf(),
{
}

/// As many levels are read as there are texts that hold a level, and every
/// other text is listed as a failure.
pub proof fn lemma_parsed_len(texts: Seq<Seq<char>>)
    ensures
        parsed(texts).len() == valid_count(texts),
        parsed(texts).len() + failures(texts).len() == texts.len(),
    decreases texts.len(),
{
    if texts.len() > 0 {
        lemma_parsed_len(texts.drop_last());
    }
}

/// Reading what was written gives the level back, for every level template
/// that holds one tile for each cell.
pub proof fn lemma_round_trip_template(level: LevelTemplate)
    requires
        level@.wf(),
    ensures
        deserialize_spec(serialize_spec(level@)) == Ok::<_, LevelError>(level@),
{
    level.lemma_view_bounds();
    lemma_round_trip(level@);
}

/// The sizes among the fields fit in 32 bits.
pub open spec fn sizes_fit(p: PartialView) -> bool {
    &&& p.width matches Some(w) ==> w <= u32::MAX
    &&& p.height matches Some(h) ==> h <= u32::MAX
}

/// Fields that are read from tokens of the lexer have sizes within 32 bits.
proof fn lemma_field_list_sizes(toks: Seq<TokenView>, pos: int, acc: PartialView)
    requires
        forall|k: int| 0 <= k < toks.len() ==> token_ok(#[trigger] toks[k]),
        sizes_fit(acc),
    ensures
        field_list(toks, pos, acc) matches Ok((fields, _)) ==> sizes_fit(fields),
    decreases toks.len() - pos,
{
    if 0 <= pos < toks.len() && toks[pos] != TokenView::Close {
        match field_at(toks, pos, acc) {
            Ok((grown, next)) => {
                lemma_field_at_bounds(toks, pos, acc);
                assert(token_ok(toks[pos + 2]));
                assert(sizes_fit(grown));
                if mark_at(toks, next, TokenView::Comma) {
                    lemma_field_list_sizes(toks, next + 1, grown);
                }
            },
            Err(_) => {},
        }
    }
}

/// What was read can be written and read again: the text of a level that
/// some text holds holds that level.
pub proof fn lemma_read_write_read(text: Seq<char>)
    ensures
        deserialize_spec(text) matches Ok(l) ==> deserialize_spec(serialize_spec(l)) == Ok::<
            _,
            LevelError,
        >(l),
{
    match deserialize_spec(text) {
        Ok(l) => {
            let toks = tokens_of(text)->0;
            lemma_tokens_from_ok(text, 0);
            lemma_field_list_sizes(toks, level_start(toks) + 1, no_fields());
            lemma_round_trip(l);
        },
        Err(_) => {},
    }
}

/// Two level templates with the same text are the same.
pub proof fn lemma_serialize_injective(a: LevelTemplate, b: LevelTemplate)
    requires
        a@.wf(),
        b@.wf(),
        serialize_spec(a@) == serialize_spec(b@),
    ensures
        a@ == b@,
{
    lemma_round_trip_template(a);
    lemma_round_trip_template(b);
}

/// Adding a tile at the end of a list adds its tokens at the end of the
/// tokens of the list, after a comma where the list was not empty.
proof fn lemma_tiles_tokens_push(tiles: Seq<TileVariant>, t: TileVariant)
    ensures
        tiles_tokens(tiles.push(t)) == if tiles.len() == 0 {
            tile_tokens(t)
        } else {
            tiles_tokens(tiles) + seq![TokenView::Comma] + tile_tokens(t)
        },
    decreases tiles.len(),
{
    let grown = tiles.push(t);
    let comma = seq![TokenView::Comma];
    if tiles.len() == 0 {
        assert(grown[0] == t);
    } else if tiles.len() == 1 {
        let one = seq![t];
        assert(grown.drop_first() =~= one);
        assert(tiles_tokens(one) == tile_tokens(one[0]));
        assert(grown[0] == tiles[0]);
        assert(tiles_tokens(grown) == tile_tokens(grown[0]) + comma + tiles_tokens(
            grown.drop_first(),
        ));
    } else {
        let rest = tiles.drop_first();
        assert(grown.drop_first() =~= rest.push(t));
        lemma_tiles_tokens_push(rest, t);
        assert(grown[0] == tiles[0]);
        assert(tiles_tokens(grown) == tile_tokens(grown[0]) + comma + tiles_tokens(
            grown.drop_first(),
        ));
        assert(tiles_tokens(tiles) == tile_tokens(tiles[0]) + comma + tiles_tokens(rest));
        assert(tile_tokens(tiles[0]) + comma + (tiles_tokens(rest) + comma + tile_tokens(t))
            =~= tile_tokens(tiles[0]) + comma + tiles_tokens(rest) + comma + tile_tokens(t));
    }
}

/// Appends a word.
fn push_word(out: &mut Vec<Token>, name: &str)
    ensures
        views(final(out)@) == views(old(out)@).push(TokenView::Word(name@)),
{
    out.push(Token::Word(chars_of(name)));
    assert(views(out@) =~= views(old(out)@).push(TokenView::Word(name@)));
}

/// Appends a token.
fn push_mark(out: &mut Vec<Token>, t: Token)
    ensures
        views(final(out)@) == views(old(out)@).push(t@),
{
    let ghost v = t@;
    out.push(t);
    assert(views(out@) =~= views(old(out)@).push(v));
}

/// Appends the tokens of the field `name : flag`.
fn push_flag(out: &mut Vec<Token>, name: &str, b: bool)
    ensures
        views(final(out)@) == views(old(out)@) + flag_tokens(name@, b),
{
    push_word(out, name);
    push_mark(out, Token::Colon);
    if b {
        push_word(out, "true");
    } else {
        push_word(out, "false");
    }
    assert(views(out@) =~= views(old(out)@) + flag_tokens(name@, b));
}

/// Appends the tokens of one tile.
fn push_tile(out: &mut Vec<Token>, t: TileVariant)
    ensures
        views(final(out)@) == views(old(out)@) + tile_tokens(t),
{
    match t {
        TileVariant::Start => {
            push_word(out, "Start");
            assert(views(out@) =~= views(old(out)@) + tile_tokens(t));
        },
        TileVariant::Path => {
            push_word(out, "Path");
            assert(views(out@) =~= views(old(out)@) + tile_tokens(t));
        },
        TileVariant::Goal { active } => {
            push_word(out, "Goal");
            push_mark(out, Token::Open);
            push_flag(out, "active", active);
            push_mark(out, Token::Close);
            assert(views(out@) =~= views(old(out)@) + tile_tokens(t));
        },
        TileVariant::Wall(c) => {
            push_word(out, "Wall");
            push_mark(out, Token::Open);
            push_flag(out, "up", c.up);
            push_mark(out, Token::Comma);
            push_flag(out, "down", c.down);
            push_mark(out, Token::Comma);
            push_flag(out, "left", c.left);
            push_mark(out, Token::Comma);
            push_flag(out, "right", c.right);
            push_mark(out, Token::Close);
            assert(views(out@) =~= views(old(out)@) + tile_tokens(t));
        },
    }
}

/// The tokens of a level.
fn tokens_of_level(level: &LevelTemplate) -> (out: Vec<Token>)
    ensures
        views(out@) == level_tokens(level@),
{
    let mut out: Vec<Token> = Vec::new();
    assert(views(out@) =~= Seq::<TokenView>::empty());
    push_word(&mut out, "LevelTemplate");
    push_mark(&mut out, Token::Open);
    push_word(&mut out, "name");
    push_mark(&mut out, Token::Colon);
    push_mark(&mut out, Token::Text(chars_of(level.name().as_str())));
    push_mark(&mut out, Token::Comma);
    push_word(&mut out, "width");
    push_mark(&mut out, Token::Colon);
    push_mark(&mut out, Token::Number(level.width()));
    push_mark(&mut out, Token::Comma);
    push_word(&mut out, "height");
    push_mark(&mut out, Token::Colon);
    push_mark(&mut out, Token::Number(level.height()));
    push_mark(&mut out, Token::Comma);
    push_word(&mut out, "tiles");
    push_mark(&mut out, Token::Colon);
    push_mark(&mut out, Token::ListOpen);
    let tiles = level.tiles();
    let ghost head = head_tokens(level@);
    assert(views(out@) =~= head);
    let mut i: usize = 0;
    assert(tiles@.take(0) =~= Seq::<TileVariant>::empty());
    assert(views(out@) =~= head + tiles_tokens(tiles@.take(0)));
    while i < tiles.len()
        invariant
            i <= tiles.len(),
            views(out@) == head + tiles_tokens(tiles@.take(i as int)),
        decreases tiles.len() - i,
    {
        let ghost before = views(out@);
        let ghost done = tiles@.take(i as int);
        if i > 0 {
            push_mark(&mut out, Token::Comma);
        }
        push_tile(&mut out, tiles[i]);
        proof {
            lemma_tiles_tokens_push(done, tiles@[i as int]);
            assert(tiles@.take(i as int + 1) =~= done.push(tiles@[i as int]));
            assert(views(out@) =~= head + tiles_tokens(tiles@.take(i as int + 1)));
        }
        i += 1;
    }
    assert(tiles@.take(i as int) =~= tiles@);
    push_mark(&mut out, Token::ListClose);
    push_mark(&mut out, Token::Close);
    assert(views(out@) =~= level_tokens(level@));
    out
}

/// Writes a level as text.
pub fn serialize(level: &LevelTemplate) -> (text: String)
    ensures
        text@ == serialize_spec(level@),
{
    let toks = tokens_of_level(level);
    let chars = render_tokens(&toks);
    string_of(&chars)
}

/// Reads a level from a text.
///
/// Fails with `Syntax` where the text does not follow the grammar of level
/// files, with `UnknownTile` where a tile has a name that is no variant,
/// with `MissingField` where a field is never given, and with
/// `DimensionMismatch` where the number of tiles is not width times height.
/// Of several faults the one that is met first is named: a part of the text
/// that is no token, then the first fault of the tokens in reading order,
/// then the first field that is missing of name, width, height and tiles,
/// then the number of tiles.
pub fn deserialize(text: &str) -> (r: Result<LevelTemplate, LevelError>)
    ensures
        match r {
            Ok(level) => deserialize_spec(text@) == Ok::<LevelView, LevelError>(level@),
            Err(e) => deserialize_spec(text@) == Err::<LevelView, LevelError>(e),
        },
{
    let chars = chars_of(text);
    let toks = match tokenize(&chars) {
        Some(toks) => toks,
        None => {
            return Err(LevelError::Syntax);
        },
    };
    let fields = match read_level(&toks) {
        Ok(fields) => fields,
        Err(e) => {
            return Err(e);
        },
    };
    let name = match fields.name {
        Some(name) => name,
        None => {
            return Err(LevelError::MissingField(Field::Name));
        },
    };
    let width = match fields.width {
        Some(width) => width,
        None => {
            return Err(LevelError::MissingField(Field::Width));
        },
    };
    let height = match fields.height {
        Some(height) => height,
        None => {
            return Err(LevelError::MissingField(Field::Height));
        },
    };
    let tiles = match fields.tiles {
        Some(tiles) => tiles,
        None => {
            return Err(LevelError::MissingField(Field::Tiles));
        },
    };
    LevelTemplate::new(string_of(&name), width, height, tiles)
}

/// What reading a batch of texts gave: the levels that were read, and for
/// each text that holds no level its index and the reason.
#[derive(Debug)]
pub struct Loaded {
    pub levels: Vec<LevelTemplate>,
    pub rejected: Vec<(usize, LevelError)>,
}

/// Reads a level from each of the texts. The levels that were read are
/// kept in the order of the texts; a text that holds no level is passed
/// over and listed with its index and the reason.
pub fn load_report(texts: &Vec<String>) -> (loaded: Loaded)
    ensures
        level_views(loaded.levels@) == parsed(string_views(texts@)),
        loaded.rejected@ == failures(string_views(texts@)),
{
    let mut levels: Vec<LevelTemplate> = Vec::new();
    let mut rejected: Vec<(usize, LevelError)> = Vec::new();
    let ghost all = string_views(texts@);
    let mut i: usize = 0;
    assert(all.take(0) =~= Seq::<Seq<char>>::empty());
    assert(level_views(levels@) =~= parsed(all.take(0)));
    while i < texts.len()
        invariant
            i <= texts.len(),
            all == string_views(texts@),
            level_views(levels@) == parsed(all.take(i as int)),
            rejected@ == failures(all.take(i as int)),
        decreases texts.len() - i,
    {
        proof {
            assert(all.take(i as int + 1).drop_last() =~= all.take(i as int));
            assert(all.take(i as int + 1).last() == texts@[i as int]@);
        }
        match deserialize(texts[i].as_str()) {
            Ok(level) => {
                let ghost before = level_views(levels@);
                levels.push(level);
                assert(level_views(levels@) =~= before.push(level@));
            },
            Err(e) => {
                rejected.push((i, e));
            },
        }
        i += 1;
    }
    assert(all.take(i as int) =~= all);
    Loaded { levels, rejected }
}

/// Reads a level from each of the texts and keeps those that hold one, in
/// the order of the texts. A text that holds no level is passed over.
pub fn load_levels(texts: &Vec<String>) -> (levels: Vec<LevelTemplate>)
    ensures
        level_views(levels@) == parsed(string_views(texts@)),
{
    load_report(texts).levels
}

} // verus!
