//! Level templates: a named grid of tiles, kept row by row.

use vstd::prelude::*;
use crate::tile::TileVariant;

verus! {

/// A field of a level template.
#[derive(Clone, Copy, Debug, PartialEq, Eq, Structural)]
pub enum Field {
    Name,
    Width,
    Height,
    Tiles,
}

/// Why a text or a set of values is no level template.
#[derive(Clone, Copy, Debug, PartialEq, Eq, Structural)]
pub enum LevelError {
    /// The text does not follow the grammar of level files.
    Syntax,
    /// The text follows the grammar but never gives this field.
    MissingField(Field),
    /// The number of tiles is not width times height.
    DimensionMismatch,
    /// The text names a tile variant that does not exist.
    UnknownTile,
}

/// What a level template is: its name, its size and its tiles row by row.
pub struct LevelView {
    pub name: Seq<char>,
    pub width: nat,
    pub height: nat,
    pub tiles: Seq<TileVariant>,
}

impl LevelView {
    /// There is one tile for each cell of the grid.
    pub open spec fn wf(self) -> bool {
        self.tiles.len() == self.width * self.height
    }

    /// The tile of a cell, where the cell lies in the grid.
    pub open spec fn tile_at(self, col: int, row: int) -> Option<TileVariant> {
        if 0 <= col < self.width && 0 <= row < self.height {
            Some(self.tiles[row * self.width + col])
        } else {
            None
        }
    }

    /// Index of the first start tile at or after index `from`, row by row.
    pub open spec fn first_start_from(self, from: int) -> Option<int>
        decreases self.tiles.len() - from,
    {
        if from < 0 || from >= self.tiles.len() {
            None
        } else if self.tiles[from] == TileVariant::Start {
            Some(from)
        } else {
            self.first_start_from(from + 1)
        }
    }

    /// Column and row of the first start tile, row by row.
    pub open spec fn start_cell(self) -> Option<(int, int)> {
        match self.first_start_from(0) {
            Some(i) => Some((i % self.width as int, i / self.width as int)),
            None => None,
        }
    }
}

/// The blueprint of a level. It always holds one tile for each cell.
#[derive(Debug, PartialEq, Eq)]
pub struct LevelTemplate {
    name: String,
    width: u32,
    height: u32,
    tiles: Vec<TileVariant>,
}

impl View for LevelTemplate {
    type V = LevelView;

    closed spec fn view(&self) -> LevelView {
        LevelView {
            name: self.name@,
            width: self.width as nat,
            height: self.height as nat,
            tiles: self.tiles@,
        }
    }
}

/// What the levels of a vector are.
pub open spec fn level_views(v: Seq<LevelTemplate>) -> Seq<LevelView> {
    Seq::new(v.len(), |i: int| v[i]@)
}

/// A cell inside a grid of the given width has an index below the number of
/// cells, and the index gives the cell back.
pub proof fn lemma_cell_index(col: int, row: int, width: int, height: int)
    requires
        0 <= col < width,
        0 <= row < height,
    ensures
        0 <= row * width + col < width * height,
        (row * width + col) % width == col,
        (row * width + col) / width == row,
{
    assert(row * width + col < width * height) by (nonlinear_arith)
        requires
            0 <= col < width,
            0 <= row < height,
    {
        assert((row + 1) * width <= height * width);
    }
    assert(0 <= row * width) by (nonlinear_arith)
        requires
            0 <= row,
            0 < width,
    ;
    vstd::arithmetic::div_mod::lemma_fundamental_div_mod_converse(
        row * width + col,
        width,
        row,
        col,
    );
}

impl LevelTemplate {
    #[verifier::type_invariant]
    spec fn inv(self) -> bool {
        self.tiles@.len() == self.width * self.height
    }

    /// The sizes of a level template fit in 32 bits.
    pub proof fn lemma_view_bounds(self)
        ensures
            self@.width <= u32::MAX,
            self@.height <= u32::MAX,
    {
    }

    /// Makes a level template, where there is one tile for each cell.
    pub fn new(name: String, width: u32, height: u32, tiles: Vec<TileVariant>) -> (r: Result<
        LevelTemplate,
        LevelError,
    >)
        ensures
            match r {
                Ok(level) => level@ == (LevelView {
                    name: name@,
                    width: width as nat,
                    height: height as nat,
                    tiles: tiles@,
                }) && level@.wf(),
                Err(e) => e == LevelError::DimensionMismatch && tiles@.len() != width * height,
            },
    {
        proof {
            lemma_mul_u32(width as int, height as int);
        }
        let cells: u64 = width as u64 * height as u64;
        if tiles.len() as u64 == cells {
            Ok(LevelTemplate { name, width, height, tiles })
        } else {
            Err(LevelError::DimensionMismatch)
        }
    }

    /// The name of the level.
    pub fn name(&self) -> (name: &String)
        ensures
            name@ == self@.name,
    {
        &self.name
    }

    /// Number of columns.
    pub fn width(&self) -> (w: u32)
        ensures
            w == self@.width,
    {
        self.width
    }

    /// Number of rows.
    pub fn height(&self) -> (h: u32)
        ensures
            h == self@.height,
    {
        self.height
    }

    /// The tiles, row by row; there are width times height of them.
    pub fn tiles(&self) -> (tiles: &Vec<TileVariant>)
        ensures
            tiles@ == self@.tiles,
            self@.wf(),
    {
        proof {
            use_type_invariant(self);
        }
        &self.tiles
    }

    /// The tile of a cell, or `None` where the cell lies outside the grid.
    pub fn tile_at(&self, col: u32, row: u32) -> (tile: Option<TileVariant>)
        ensures
            tile == self@.tile_at(col as int, row as int),
    {
        proof {
            use_type_invariant(self);
        }
        if col < self.width && row < self.height {
            proof {
                lemma_cell_index(col as int, row as int, self.width as int, self.height as int);
                lemma_mul_u32(row as int, self.width as int);
            }
            let index: u64 = row as u64 * self.width as u64 + col as u64;
            let cells = self.tiles.len();
            assert(index == row as int * self.width as int + col as int);
            assert(index < cells);
            Some(self.tiles[index as usize])
        } else {
            None
        }
    }

    /// Column and row of the first start tile, row by row, or `None` where
    /// the level has no start tile.
    pub fn start_cell(&self) -> (cell: Option<(u32, u32)>)
        ensures
            match cell {
                Some((col, row)) => self@.start_cell() == Some((col as int, row as int)),
                None => self@.start_cell() is None,
            },
    {
        proof {
            use_type_invariant(self);
        }
        let mut i: usize = 0;
        while i < self.tiles.len()
            invariant
                i <= self.tiles.len(),
                self.tiles@ == self@.tiles,
                self.tiles@.len() == self.width * self.height,
                self@.first_start_from(0) == self@.first_start_from(i as int),
            decreases self.tiles.len() - i,
        {
            if self.tiles[i] == TileVariant::Start {
                proof {
                    lemma_index_in_grid(i as int, self.width as int, self.height as int);
                }
                let col = (i as u64 % self.width as u64) as u32;
                let row = (i as u64 / self.width as u64) as u32;
                return Some((col, row));
            }
            i += 1;
        }
        None
    }

    /// A second template with the same name, size and tiles.
    pub fn duplicate(&self) -> (copy: LevelTemplate)
        ensures
            copy@ == self@,
    {
        proof {
            use_type_invariant(self);
        }
        let mut tiles: Vec<TileVariant> = Vec::new();
        let mut i: usize = 0;
        while i < self.tiles.len()
            invariant
                i <= self.tiles.len(),
                tiles@ == self.tiles@.take(i as int),
            decreases self.tiles.len() - i,
        {
            tiles.push(self.tiles[i]);
            i += 1;
        }
        assert(self.tiles@.take(i as int) =~= self.tiles@);
        LevelTemplate { name: self.name.clone(), width: self.width, height: self.height, tiles }
    }
}

/// The first start tile at or after `from` is a start tile, and no start
/// tile stands between `from` and it; where there is none, no start tile
/// stands at or after `from`.
pub proof fn lemma_first_start(level: LevelView, from: int)
    requires
        0 <= from,
    ensures
        match level.first_start_from(from) {
            Some(i) => from <= i < level.tiles.len() && level.tiles[i] == TileVariant::Start
                && forall|j: int| from <= j < i ==> level.tiles[j] != TileVariant::Start,
            None => forall|j: int|
                from <= j < level.tiles.len() ==> level.tiles[j] != TileVariant::Start,
        },
    decreases level.tiles.len() - from,
{
    if from < level.tiles.len() && level.tiles[from] != TileVariant::Start {
        lemma_first_start(level, from + 1);
    }
}

/// The start cell lies in the grid and holds a start tile.
pub proof fn lemma_start_cell(level: LevelView)
    requires
        level.wf(),
    ensures
        level.start_cell() matches Some((col, row)) ==> 0 <= col < level.width && 0 <= row
            < level.height && level.tile_at(col, row) == Some(TileVariant::Start),
        level.start_cell() is None ==> forall|j: int|
            0 <= j < level.tiles.len() ==> level.tiles[j] != TileVariant::Start,
{
    lemma_first_start(level, 0);
    match level.first_start_from(0) {
        Some(i) => {
            let w = level.width as int;
            lemma_index_in_grid(i, w, level.height as int);
            vstd::arithmetic::div_mod::lemma_fundamental_div_mod(i, w);
            assert((i / w) * w == w * (i / w)) by (nonlinear_arith);
        },
        None => {},
    }
}

/// The product of two 32-bit numbers fits in 64 bits.
pub proof fn lemma_mul_u32(a: int, b: int)
    requires
        0 <= a <= u32::MAX,
        0 <= b <= u32::MAX,
    ensures
        0 <= a * b <= 0xffff_fffe_0000_0001,
{
    assert(0 <= a * b <= 0xffff_ffff * 0xffff_ffff) by (nonlinear_arith)
        requires
            0 <= a <= 0xffff_ffff,
            0 <= b <= 0xffff_ffff,
    ;
}

/// An index below width times height lies in a row below the height.
proof fn lemma_index_in_grid(i: int, width: int, height: int)
    requires
        0 <= i < width * height,
        0 <= width,
        0 <= height,
    ensures
        0 < width,
        0 <= i % width < width,
        0 <= i / width < height,
{
    assert(0 < width) by (nonlinear_arith)
        requires
            0 <= i < width * height,
            0 <= width,
    ;
    vstd::arithmetic::div_mod::lemma_mod_bound(i, width);
    vstd::arithmetic::div_mod::lemma_div_pos_is_pos(i, width);
    vstd::arithmetic::mul::lemma_mul_is_commutative(width, height);
    vstd::arithmetic::div_mod::lemma_multiply_divide_lt(i, width, height);
}

} // verus!
