//! Reads a level from the tokens of a level file.
//!
//! The grammar, with `[x]` for an optional `x`:
//!
//! ```text
//! level  = ["LevelTemplate"] "(" fields ")"
//! fields = [field {"," field} [","]]
//! field  = "name" ":" text | "width" ":" number | "height" ":" number
//!        | "tiles" ":" "[" [tile {"," tile} [","]] "]"
//! tile   = "Start" | "Path" | "Goal" "(" "active" ":" flag [","] ")"
//!        | "Wall" "(" "up" ":" flag "," "down" ":" flag ","
//!                     "left" ":" flag "," "right" ":" flag [","] ")"
//! flag   = "true" | "false"
//! ```
//!
//! The fields may come in any order, each at most once.

use vstd::prelude::*;
use vstd::string::*;
use crate::level::{Field, LevelError, LevelView};
use crate::text::word_is;
use crate::tile::{Connections, TileVariant};
use crate::token::{views, Token, TokenView};

verus! {

/// The word `w` stands at `pos`.
pub open spec fn word_at(toks: Seq<TokenView>, pos: int, w: Seq<char>) -> bool {
    0 <= pos < toks.len() && toks[pos] == TokenView::Word(w)
}

/// The token `t` stands at `pos`.
pub open spec fn mark_at(toks: Seq<TokenView>, pos: int, t: TokenView) -> bool {
    0 <= pos < toks.len() && toks[pos] == t
}

/// The flag that stands at `pos`.
pub open spec fn flag_at(toks: Seq<TokenView>, pos: int) -> Option<bool> {
    if word_at(toks, pos, "true"@) {
        Some(true)
    } else if word_at(toks, pos, "false"@) {
        Some(false)
    } else {
        None
    }
}

/// The flag of the field `name : flag` that stands at `pos`.
pub open spec fn flag_field(toks: Seq<TokenView>, pos: int, name: Seq<char>) -> Option<bool> {
    if word_at(toks, pos, name) && mark_at(toks, pos + 1, TokenView::Colon) {
        flag_at(toks, pos + 2)
    } else {
        None
    }
}

/// The position after the comma at `pos`, or `pos` where none stands there.
pub open spec fn after_comma(toks: Seq<TokenView>, pos: int) -> int {
    if mark_at(toks, pos, TokenView::Comma) {
        pos + 1
    } else {
        pos
    }
}

/// Reads what follows the word `Goal`.
pub open spec fn goal_body(toks: Seq<TokenView>, pos: int) -> Result<
    (TileVariant, int),
    LevelError,
> {
    if !mark_at(toks, pos, TokenView::Open) {
        Err(LevelError::Syntax)
    } else {
        match flag_field(toks, pos + 1, "active"@) {
            Some(active) => {
                let end = after_comma(toks, pos + 4);
                if mark_at(toks, end, TokenView::Close) {
                    Ok((TileVariant::Goal { active }, end + 1))
                } else {
                    Err(LevelError::Syntax)
                }
            },
            None => Err(LevelError::Syntax),
        }
    }
}

/// The four flags of a wall, where all four fields stand from `pos` on with
/// commas between them.
pub open spec fn wall_flags(toks: Seq<TokenView>, pos: int) -> Option<Connections> {
    match (
        flag_field(toks, pos, "up"@),
        flag_field(toks, pos + 4, "down"@),
        flag_field(toks, pos + 8, "left"@),
        flag_field(toks, pos + 12, "right"@),
    ) {
        (Some(up), Some(down), Some(left), Some(right)) => {
            if mark_at(toks, pos + 3, TokenView::Comma) && mark_at(
                toks,
                pos + 7,
                TokenView::Comma,
            ) && mark_at(toks, pos + 11, TokenView::Comma) {
                Some(Connections { up, down, left, right })
            } else {
                None
            }
        },
        _ => None,
    }
}

/// Reads what follows the word `Wall`.
pub open spec fn wall_body(toks: Seq<TokenView>, pos: int) -> Result<
    (TileVariant, int),
    LevelError,
> {
    if !mark_at(toks, pos, TokenView::Open) {
        Err(LevelError::Syntax)
    } else {
        match wall_flags(toks, pos + 1) {
            Some(c) => {
                let end = after_comma(toks, pos + 16);
                if mark_at(toks, end, TokenView::Close) {
                    Ok((TileVariant::Wall(c), end + 1))
                } else {
                    Err(LevelError::Syntax)
                }
            },
            None => Err(LevelError::Syntax),
        }
    }
}

/// Reads the tile that starts at `pos`: the tile and the position after it.
pub open spec fn tile_at(toks: Seq<TokenView>, pos: int) -> Result<(TileVariant, int), LevelError> {
    if pos < 0 || pos >= toks.len() {
        Err(LevelError::Syntax)
    } else {
        match toks[pos] {
            TokenView::Word(w) => {
                if w == "Start"@ {
                    Ok((TileVariant::Start, pos + 1))
                } else if w == "Path"@ {
                    Ok((TileVariant::Path, pos + 1))
                } else if w == "Goal"@ {
                    goal_body(toks, pos + 1)
                } else if w == "Wall"@ {
                    wall_body(toks, pos + 1)
                } else {
                    Err(LevelError::UnknownTile)
                }
            },
            _ => Err(LevelError::Syntax),
        }
    }
}

/// Tiles with more tiles in front of them.
pub open spec fn tiles_after(
    front: Seq<TileVariant>,
    r: Result<(Seq<TileVariant>, int), LevelError>,
) -> Result<(Seq<TileVariant>, int), LevelError> {
    match r {
        Ok((rest, end)) => Ok((front + rest, end)),
        Err(e) => Err(e),
    }
}

/// Reads a list of tiles from the position after its opening bracket: the
/// tiles and the position after the closing bracket.
pub open spec fn tile_list(toks: Seq<TokenView>, pos: int) -> Result<
    (Seq<TileVariant>, int),
    LevelError,
>
    decreases toks.len() - pos,
{
    if pos < 0 || pos >= toks.len() {
        Err(LevelError::Syntax)
    } else if toks[pos] == TokenView::ListClose {
        Ok((Seq::empty(), pos + 1))
    } else {
        match tile_at(toks, pos) {
            Err(e) => Err(e),
            Ok((tile, next)) => {
                if mark_at(toks, next, TokenView::Comma) {
                    proof {
                        lemma_tile_at_bounds(toks, pos);
                    }
                    tiles_after(seq![tile], tile_list(toks, next + 1))
                } else if mark_at(toks, next, TokenView::ListClose) {
                    Ok((seq![tile], next + 1))
                } else {
                    Err(LevelError::Syntax)
                }
            },
        }
    }
}

/// The fields of a level that have been read so far.
pub struct PartialView {
    pub name: Option<Seq<char>>,
    pub width: Option<nat>,
    pub height: Option<nat>,
    pub tiles: Option<Seq<TileVariant>>,
}

/// No field has been read.
pub open spec fn no_fields() -> PartialView {
    PartialView { name: None, width: None, height: None, tiles: None }
}

/// Reads the field that starts at `pos` and adds it to the fields read so
/// far: the fields and the position after the field. A field that was read
/// before, and a name that is no field, are errors of syntax.
pub open spec fn field_at(toks: Seq<TokenView>, pos: int, acc: PartialView) -> Result<
    (PartialView, int),
    LevelError,
> {
    if !mark_at(toks, pos + 1, TokenView::Colon) || pos + 2 >= toks.len() {
        Err(LevelError::Syntax)
    } else if word_at(toks, pos, "name"@) {
        match toks[pos + 2] {
            TokenView::Text(name) => if acc.name is None {
                Ok((PartialView { name: Some(name), ..acc }, pos + 3))
            } else {
                Err(LevelError::Syntax)
            },
            _ => Err(LevelError::Syntax),
        }
    } else if word_at(toks, pos, "width"@) {
        match toks[pos + 2] {
            TokenView::Number(n) => if acc.width is None {
                Ok((PartialView { width: Some(n), ..acc }, pos + 3))
            } else {
                Err(LevelError::Syntax)
            },
            _ => Err(LevelError::Syntax),
        }
    } else if word_at(toks, pos, "height"@) {
        match toks[pos + 2] {
            TokenView::Number(n) => if acc.height is None {
                Ok((PartialView { height: Some(n), ..acc }, pos + 3))
            } else {
                Err(LevelError::Syntax)
            },
            _ => Err(LevelError::Syntax),
        }
    } else if word_at(toks, pos, "tiles"@) {
        if toks[pos + 2] == TokenView::ListOpen && acc.tiles is None {
            match tile_list(toks, pos + 3) {
                Ok((tiles, end)) => Ok((PartialView { tiles: Some(tiles), ..acc }, end)),
                Err(e) => Err(e),
            }
        } else {
            Err(LevelError::Syntax)
        }
    } else {
        Err(LevelError::Syntax)
    }
}

/// Reads the fields of a level from the position after the opening bracket,
/// adding them to the fields read so far: the fields and the position after
/// the closing bracket.
pub open spec fn field_list(toks: Seq<TokenView>, pos: int, acc: PartialView) -> Result<
    (PartialView, int),
    LevelError,
>
    decreases toks.len() - pos,
{
    if pos < 0 || pos >= toks.len() {
        Err(LevelError::Syntax)
    } else if toks[pos] == TokenView::Close {
        Ok((acc, pos + 1))
    } else {
        match field_at(toks, pos, acc) {
            Err(e) => Err(e),
            Ok((grown, next)) => {
                if mark_at(toks, next, TokenView::Comma) {
                    proof {
                        lemma_field_at_bounds(toks, pos, acc);
                    }
                    field_list(toks, next + 1, grown)
                } else if mark_at(toks, next, TokenView::Close) {
                    Ok((grown, next + 1))
                } else {
                    Err(LevelError::Syntax)
                }
            },
        }
    }
}

/// The level that the fields make: every field must have been read, and
/// there must be one tile for each cell.
pub open spec fn finish(p: PartialView) -> Result<LevelView, LevelError> {
    if p.name is None {
        Err(LevelError::MissingField(Field::Name))
    } else if p.width is None {
        Err(LevelError::MissingField(Field::Width))
    } else if p.height is None {
        Err(LevelError::MissingField(Field::Height))
    } else if p.tiles is None {
        Err(LevelError::MissingField(Field::Tiles))
    } else if p.tiles->0.len() != p.width->0 * p.height->0 {
        Err(LevelError::DimensionMismatch)
    } else {
        Ok(
            LevelView {
                name: p.name->0,
                width: p.width->0,
                height: p.height->0,
                tiles: p.tiles->0,
            },
        )
    }
}

/// Position of the opening bracket of a level: after the type's name where
/// the tokens start with it.
pub open spec fn level_start(toks: Seq<TokenView>) -> int {
    if word_at(toks, 0, "LevelTemplate"@) {
        1
    } else {
        0
    }
}

/// Reads a level from all the tokens.
pub open spec fn parse_level(toks: Seq<TokenView>) -> Result<LevelView, LevelError> {
    let start = level_start(toks);
    if !mark_at(toks, start, TokenView::Open) {
        Err(LevelError::Syntax)
    } else {
        match field_list(toks, start + 1, no_fields()) {
            Err(e) => Err(e),
            Ok((fields, end)) => if end != toks.len() {
                Err(LevelError::Syntax)
            } else {
                finish(fields)
            },
        }
    }
}

/// A tile ends after the position it starts at, and within the tokens.
pub proof fn lemma_tile_at_bounds(toks: Seq<TokenView>, pos: int)
    ensures
        tile_at(toks, pos) matches Ok((_, next)) ==> pos < next <= toks.len(),
{
}

/// A list of tiles ends after the position it is read from.
pub proof fn lemma_tile_list_bounds(toks: Seq<TokenView>, pos: int)
    ensures
        tile_list(toks, pos) matches Ok((_, end)) ==> pos < end <= toks.len(),
    decreases toks.len() - pos,
{
    if 0 <= pos < toks.len() && toks[pos] != TokenView::ListClose {
        lemma_tile_at_bounds(toks, pos);
        match tile_at(toks, pos) {
            Ok((tile, next)) => {
                if mark_at(toks, next, TokenView::Comma) {
                    lemma_tile_list_bounds(toks, next + 1);
                }
            },
            Err(_) => {},
        }
    }
}

/// A field ends after the position it starts at, and within the tokens.
pub proof fn lemma_field_at_bounds(toks: Seq<TokenView>, pos: int, acc: PartialView)
    ensures
        field_at(toks, pos, acc) matches Ok((_, next)) ==> pos < next <= toks.len(),
{
    lemma_tile_list_bounds(toks, pos + 3);
}

/// The fields of a level that have been read so far.
pub struct Partial {
    pub name: Option<Vec<char>>,
    pub width: Option<u32>,
    pub height: Option<u32>,
    pub tiles: Option<Vec<TileVariant>>,
}

impl View for Partial {
    type V = PartialView;

    open spec fn view(&self) -> PartialView {
        PartialView {
            name: match self.name {
                Some(n) => Some(n@),
                None => None,
            },
            width: match self.width {
                Some(w) => Some(w as nat),
                None => None,
            },
            height: match self.height {
                Some(h) => Some(h as nat),
                None => None,
            },
            tiles: match self.tiles {
                Some(t) => Some(t@),
                None => None,
            },
        }
    }
}

/// Tells whether the word `name` stands at `pos`.
fn has_word(toks: &Vec<Token>, pos: usize, name: &str) -> (b: bool)
    ensures
        b == word_at(views(toks@), pos as int, name@),
        b ==> pos < toks.len(),
{
    if pos >= toks.len() {
        return false;
    }
    assert(views(toks@)[pos as int] == toks@[pos as int]@);
    match &toks[pos] {
        Token::Word(w) => word_is(w, name),
        _ => false,
    }
}

/// Tells whether a token of the same kind as `mark` stands at `pos`.
fn has_mark(toks: &Vec<Token>, pos: usize, mark: &Token) -> (b: bool)
    requires
        !(mark@ is Word) && !(mark@ is Text) && !(mark@ is Number),
    ensures
        b == mark_at(views(toks@), pos as int, mark@),
        b ==> pos < toks.len(),
{
    if pos >= toks.len() {
        return false;
    }
    assert(views(toks@)[pos as int] == toks@[pos as int]@);
    match (&toks[pos], mark) {
        (Token::Open, Token::Open) => true,
        (Token::Close, Token::Close) => true,
        (Token::ListOpen, Token::ListOpen) => true,
        (Token::ListClose, Token::ListClose) => true,
        (Token::Colon, Token::Colon) => true,
        (Token::Comma, Token::Comma) => true,
        _ => false,
    }
}

/// Reads the flag at `pos`.
fn read_flag(toks: &Vec<Token>, pos: usize) -> (r: Option<bool>)
    ensures
        r == flag_at(views(toks@), pos as int),
        r is Some ==> pos < toks.len(),
{
    if has_word(toks, pos, "true") {
        Some(true)
    } else if has_word(toks, pos, "false") {
        Some(false)
    } else {
        None
    }
}

/// Reads the flag of the field `name : flag` at `pos`.
fn read_flag_field(toks: &Vec<Token>, pos: usize, name: &str) -> (r: Option<bool>)
    ensures
        r == flag_field(views(toks@), pos as int, name@),
        r is Some ==> pos + 2 < toks.len(),
{
    if has_word(toks, pos, name) && has_mark(toks, pos + 1, &Token::Colon) {
        read_flag(toks, pos + 2)
    } else {
        None
    }
}

/// Skips the comma at `pos`, where one stands there.
fn skip_comma(toks: &Vec<Token>, pos: usize) -> (next: usize)
    ensures
        next == after_comma(views(toks@), pos as int),
        next <= pos + 1,
        next > pos ==> pos < toks.len(),
{
    if has_mark(toks, pos, &Token::Comma) {
        pos + 1
    } else {
        pos
    }
}

/// Reads what follows the word `Goal`.
fn read_goal(toks: &Vec<Token>, pos: usize) -> (r: Result<(TileVariant, usize), LevelError>)
    requires
        pos <= toks.len(),
    ensures
        match r {
            Ok((tile, next)) => goal_body(views(toks@), pos as int) == Ok::<_, LevelError>(
                (tile, next as int),
            ) && pos < next <= toks.len(),
            Err(e) => goal_body(views(toks@), pos as int) == Err::<(TileVariant, int), _>(e),
        },
{
    if !has_mark(toks, pos, &Token::Open) {
        return Err(LevelError::Syntax);
    }
    match read_flag_field(toks, pos + 1, "active") {
        Some(active) => {
            let end = skip_comma(toks, pos + 4);
            if has_mark(toks, end, &Token::Close) {
                Ok((TileVariant::Goal { active }, end + 1))
            } else {
                Err(LevelError::Syntax)
            }
        },
        None => Err(LevelError::Syntax),
    }
}

/// Reads the four fields of a wall, with the commas between them.
fn read_wall_flags(toks: &Vec<Token>, pos: usize) -> (r: Option<Connections>)
    requires
        pos <= toks.len(),
    ensures
        r == wall_flags(views(toks@), pos as int),
        r is Some ==> pos + 14 < toks.len(),
{
    let up = match read_flag_field(toks, pos, "up") {
        Some(f) => f,
        None => {
            return None;
        },
    };
    if !has_mark(toks, pos + 3, &Token::Comma) {
        return None;
    }
    let down = match read_flag_field(toks, pos + 4, "down") {
        Some(f) => f,
        None => {
            return None;
        },
    };
    if !has_mark(toks, pos + 7, &Token::Comma) {
        return None;
    }
    let left = match read_flag_field(toks, pos + 8, "left") {
        Some(f) => f,
        None => {
            return None;
        },
    };
    if !has_mark(toks, pos + 11, &Token::Comma) {
        return None;
    }
    let right = match read_flag_field(toks, pos + 12, "right") {
        Some(f) => f,
        None => {
            return None;
        },
    };
    Some(Connections { up, down, left, right })
}

/// Reads what follows the word `Wall`.
fn read_wall(toks: &Vec<Token>, pos: usize) -> (r: Result<(TileVariant, usize), LevelError>)
    requires
        pos <= toks.len(),
    ensures
        match r {
            Ok((tile, next)) => wall_body(views(toks@), pos as int) == Ok::<_, LevelError>(
                (tile, next as int),
            ) && pos < next <= toks.len(),
            Err(e) => wall_body(views(toks@), pos as int) == Err::<(TileVariant, int), _>(e),
        },
{
    if !has_mark(toks, pos, &Token::Open) {
        return Err(LevelError::Syntax);
    }
    match read_wall_flags(toks, pos + 1) {
        Some(c) => {
            let end = skip_comma(toks, pos + 16);
            if has_mark(toks, end, &Token::Close) {
                Ok((TileVariant::Wall(c), end + 1))
            } else {
                Err(LevelError::Syntax)
            }
        },
        None => Err(LevelError::Syntax),
    }
}

/// Reads the tile that starts at `pos`.
fn read_tile(toks: &Vec<Token>, pos: usize) -> (r: Result<(TileVariant, usize), LevelError>)
    ensures
        match r {
            Ok((tile, next)) => tile_at(views(toks@), pos as int) == Ok::<_, LevelError>(
                (tile, next as int),
            ) && pos < next <= toks.len(),
            Err(e) => tile_at(views(toks@), pos as int) == Err::<(TileVariant, int), _>(e),
        },
{
    if pos >= toks.len() {
        return Err(LevelError::Syntax);
    }
    assert(views(toks@)[pos as int] == toks@[pos as int]@);
    match &toks[pos] {
        Token::Word(w) => {
            if word_is(w, "Start") {
                Ok((TileVariant::Start, pos + 1))
            } else if word_is(w, "Path") {
                Ok((TileVariant::Path, pos + 1))
            } else if word_is(w, "Goal") {
                read_goal(toks, pos + 1)
            } else if word_is(w, "Wall") {
                read_wall(toks, pos + 1)
            } else {
                Err(LevelError::UnknownTile)
            }
        },
        _ => Err(LevelError::Syntax),
    }
}

/// Joining tiles in front of tiles is done one after the other.
proof fn lemma_tiles_after_push(
    front: Seq<TileVariant>,
    t: TileVariant,
    r: Result<(Seq<TileVariant>, int), LevelError>,
)
    ensures
        tiles_after(front, tiles_after(seq![t], r)) == tiles_after(front.push(t), r),
{
    match r {
        Ok((rest, end)) => {
            assert(front + (seq![t] + rest) =~= front.push(t) + rest);
        },
        Err(_) => {},
    }
}

/// Reads a list of tiles from the position after its opening bracket.
fn read_tiles(toks: &Vec<Token>, from: usize) -> (r: Result<(Vec<TileVariant>, usize), LevelError>)
    requires
        from <= toks.len(),
    ensures
        match r {
            Ok((tiles, end)) => tile_list(views(toks@), from as int) == Ok::<_, LevelError>(
                (tiles@, end as int),
            ) && from < end <= toks.len(),
            Err(e) => tile_list(views(toks@), from as int) == Err::<(Seq<TileVariant>, int), _>(
                e,
            ),
        },
{
    let ghost tv = views(toks@);
    let mut tiles: Vec<TileVariant> = Vec::new();
    let mut pos: usize = from;
    assert(tiles_after(tiles@, tile_list(tv, pos as int)) == tile_list(tv, from as int)) by {
        match tile_list(tv, pos as int) {
            Ok((rest, end)) => {
                assert(tiles@ + rest =~= rest);
            },
            Err(_) => {},
        }
    }
    loop
        invariant
            from <= pos <= toks.len(),
            tv == views(toks@),
            tile_list(tv, from as int) == tiles_after(tiles@, tile_list(tv, pos as int)),
        decreases toks.len() - pos,
    {
        if pos >= toks.len() {
            return Err(LevelError::Syntax);
        }
        if has_mark(toks, pos, &Token::ListClose) {
            assert(tiles@ + Seq::<TileVariant>::empty() =~= tiles@);
            return Ok((tiles, pos + 1));
        }
        match read_tile(toks, pos) {
            Err(e) => {
                return Err(e);
            },
            Ok((tile, next)) => {
                if has_mark(toks, next, &Token::Comma) {
                    proof {
                        lemma_tiles_after_push(tiles@, tile, tile_list(tv, next as int + 1));
                    }
                    tiles.push(tile);
                    pos = next + 1;
                } else if has_mark(toks, next, &Token::ListClose) {
                    assert(tiles@ + seq![tile] =~= tiles@.push(tile));
                    tiles.push(tile);
                    return Ok((tiles, next + 1));
                } else {
                    return Err(LevelError::Syntax);
                }
            },
        }
    }
}

/// Reads the field that starts at `pos` and adds it to the fields read so
/// far.
fn read_field(toks: &Vec<Token>, pos: usize, acc: Partial) -> (r: Result<
    (Partial, usize),
    LevelError,
>)
    requires
        pos < toks.len(),
    ensures
        match r {
            Ok((grown, next)) => field_at(views(toks@), pos as int, acc@) == Ok::<_, LevelError>(
                (grown@, next as int),
            ) && pos < next <= toks.len(),
            Err(e) => field_at(views(toks@), pos as int, acc@) == Err::<(PartialView, int), _>(
                e,
            ),
        },
{
    let ghost tv = views(toks@);
    if !has_mark(toks, pos + 1, &Token::Colon) || pos + 2 >= toks.len() {
        return Err(LevelError::Syntax);
    }
    assert(tv[pos as int + 2] == toks@[pos as int + 2]@);
    let mut acc = acc;
    if has_word(toks, pos, "name") {
        match &toks[pos + 2] {
            Token::Text(name) => {
                if acc.name.is_none() {
                    acc.name = Some(copy_chars(name));
                    Ok((acc, pos + 3))
                } else {
                    Err(LevelError::Syntax)
                }
            },
            _ => Err(LevelError::Syntax),
        }
    } else if has_word(toks, pos, "width") {
        match &toks[pos + 2] {
            Token::Number(n) => {
                if acc.width.is_none() {
                    acc.width = Some(*n);
                    Ok((acc, pos + 3))
                } else {
                    Err(LevelError::Syntax)
                }
            },
            _ => Err(LevelError::Syntax),
        }
    } else if has_word(toks, pos, "height") {
        match &toks[pos + 2] {
            Token::Number(n) => {
                if acc.height.is_none() {
                    acc.height = Some(*n);
                    Ok((acc, pos + 3))
                } else {
                    Err(LevelError::Syntax)
                }
            },
            _ => Err(LevelError::Syntax),
        }
    } else if has_word(toks, pos, "tiles") {
        if has_mark(toks, pos + 2, &Token::ListOpen) && acc.tiles.is_none() {
            match read_tiles(toks, pos + 3) {
                Ok((tiles, end)) => {
                    acc.tiles = Some(tiles);
                    Ok((acc, end))
                },
                Err(e) => Err(e),
            }
        } else {
            Err(LevelError::Syntax)
        }
    } else {
        Err(LevelError::Syntax)
    }
}

/// A copy of the given characters.
fn copy_chars(chars: &Vec<char>) -> (copy: Vec<char>)
    ensures
        copy@ == chars@,
{
    let mut copy: Vec<char> = Vec::new();
    let mut i: usize = 0;
    while i < chars.len()
        invariant
            i <= chars.len(),
            copy@ == chars@.take(i as int),
        decreases chars.len() - i,
    {
        copy.push(chars[i]);
        i += 1;
    }
    assert(chars@.take(i as int) =~= chars@);
    copy
}

/// Reads the fields of a level from the position after the opening bracket.
fn read_fields(toks: &Vec<Token>, from: usize) -> (r: Result<(Partial, usize), LevelError>)
    requires
        from <= toks.len(),
    ensures
        match r {
            Ok((fields, end)) => field_list(views(toks@), from as int, no_fields()) == Ok::<
                _,
                LevelError,
            >((fields@, end as int)) && end <= toks.len(),
            Err(e) => field_list(views(toks@), from as int, no_fields()) == Err::<
                (PartialView, int),
                _,
            >(e),
        },
{
    let ghost tv = views(toks@);
    let mut acc = Partial { name: None, width: None, height: None, tiles: None };
    let mut pos: usize = from;
    loop
        invariant
            from <= pos <= toks.len(),
            tv == views(toks@),
            field_list(tv, from as int, no_fields()) == field_list(tv, pos as int, acc@),
        decreases toks.len() - pos,
    {
        if pos >= toks.len() {
            return Err(LevelError::Syntax);
        }
        if has_mark(toks, pos, &Token::Close) {
            return Ok((acc, pos + 1));
        }
        match read_field(toks, pos, acc) {
            Err(e) => {
                return Err(e);
            },
            Ok((grown, next)) => {
                if has_mark(toks, next, &Token::Comma) {
                    acc = grown;
                    pos = next + 1;
                } else if has_mark(toks, next, &Token::Close) {
                    return Ok((grown, next + 1));
                } else {
                    return Err(LevelError::Syntax);
                }
            },
        }
    }
}

/// Reads the fields of a level from all the tokens: every token must belong
/// to the level.
pub fn read_level(toks: &Vec<Token>) -> (r: Result<Partial, LevelError>)
    ensures
        match r {
            Ok(fields) => parse_level(views(toks@)) == finish(fields@),
            Err(e) => parse_level(views(toks@)) == Err::<LevelView, _>(e),
        },
{
    let start: usize = if has_word(toks, 0, "LevelTemplate") {
        1
    } else {
        0
    };
    if !has_mark(toks, start, &Token::Open) {
        return Err(LevelError::Syntax);
    }
    match read_fields(toks, start + 1) {
        Err(e) => Err(e),
        Ok((fields, end)) => {
            if end != toks.len() {
                Err(LevelError::Syntax)
            } else {
                Ok(fields)
            }
        },
    }
}

} // verus!
