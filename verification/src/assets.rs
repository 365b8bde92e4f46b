//! Which picture shows which tile.
//!
//! Pictures are loaded by the host, which hands each one out as a number.
//! The table keeps the number for every tile whose picture could be loaded;
//! a tile without a picture has no entry, and is simply not drawn.

use vstd::prelude::*;
use crate::enumerable::{domain, lemma_enumerated_is_domain, Enumerable};
use crate::tile::TileVariant;

verus! {

/// The table that a list of entries makes: a later entry for a tile stands
/// in place of an earlier one.
pub open spec fn table_of(entries: Seq<(TileVariant, usize)>) -> Map<TileVariant, usize>
    decreases entries.len(),
{
    if entries.len() == 0 {
        Map::empty()
    } else {
        table_of(entries.drop_last()).insert(entries.last().0, entries.last().1)
    }
}

/// The table holds for a tile what the last entry for that tile says, and
/// nothing where there is no entry for it.
proof fn lemma_table_entry(entries: Seq<(TileVariant, usize)>, tile: TileVariant, from: int)
    requires
        0 <= from <= entries.len(),
        forall|k: int| from <= k < entries.len() ==> (#[trigger] entries[k]).0 != tile,
    ensures
        from > 0 && entries[from - 1].0 == tile ==> table_of(entries).dom().contains(tile)
            && table_of(entries)[tile] == entries[from - 1].1,
        from == 0 ==> !table_of(entries).dom().contains(tile),
    decreases entries.len(),
{
    if entries.len() > from {
        let shorter = entries.drop_last();
        assert(entries.last().0 != tile);
        assert forall|k: int| from <= k < shorter.len() implies (#[trigger] shorter[k]).0
            != tile by {
            assert(shorter[k] == entries[k]);
        }
        lemma_table_entry(shorter, tile, from);
        if from > 0 {
            assert(shorter[from - 1] == entries[from - 1]);
        }
    }
}

/// The pictures of the tiles, by the numbers the host gave them.
#[derive(Debug)]
pub struct AssetTable {
    entries: Vec<(TileVariant, usize)>,
}

impl View for AssetTable {
    type V = Map<TileVariant, usize>;

    closed spec fn view(&self) -> Map<TileVariant, usize> {
        table_of(self.entries@)
    }
}

impl AssetTable {
    /// The table without entries.
    pub fn new() -> (table: AssetTable)
        ensures
            table@ == Map::<TileVariant, usize>::empty(),
    {
        AssetTable { entries: Vec::new() }
    }

    /// Takes note of what loading the picture of a tile gave: the number of
    /// the picture, or `None` where it could not be loaded. In that case the
    /// table stays as it is.
    pub fn record(&mut self, tile: TileVariant, loaded: Option<usize>)
        ensures
            final(self)@ == match loaded {
                Some(picture) => old(self)@.insert(tile, picture),
                None => old(self)@,
            },
    {
        match loaded {
            Some(picture) => {
                self.entries.push((tile, picture));
                assert(self.entries@.drop_last() =~= old(self).entries@);
            },
            None => {},
        }
    }

    /// The number of the picture of a tile, or `None` where the table has no
    /// entry for it.
    pub fn lookup(&self, tile: TileVariant) -> (picture: Option<usize>)
        ensures
            picture == if self@.dom().contains(tile) {
                Some(self@[tile])
            } else {
                None
            },
    {
        let mut i: usize = self.entries.len();
        while i > 0
            invariant
                i <= self.entries.len(),
                forall|k: int| i <= k < self.entries@.len() ==> (#[trigger] self.entries@[k]).0
                    != tile,
            decreases i,
        {
            if self.entries[i - 1].0 == tile {
                proof {
                    lemma_table_entry(self.entries@, tile, i as int);
                }
                return Some(self.entries[i - 1].1);
            }
            i -= 1;
        }
        proof {
            lemma_table_entry(self.entries@, tile, 0);
        }
        None
    }
}

/// Every tile with its asset key, in the order of enumeration.
pub fn asset_keys() -> (keys: Vec<(TileVariant, String)>)
    ensures
        keys@.len() == domain::<TileVariant>().len(),
        forall|i: int|
            0 <= i < keys@.len() ==> (#[trigger] keys@[i]).0 == domain::<TileVariant>()[i]
                && keys@[i].1@ == keys@[i].0.asset_key(),
{
    let tiles = TileVariant::enumerate_all();
    proof {
        lemma_enumerated_is_domain::<TileVariant>(tiles@);
    }
    let mut keys: Vec<(TileVariant, String)> = Vec::new();
    let mut i: usize = 0;
    while i < tiles.len()
        invariant
            i <= tiles.len(),
            keys@.len() == i,
            forall|j: int|
                0 <= j < i ==> (#[trigger] keys@[j]).0 == tiles@[j] && keys@[j].1@
                    == keys@[j].0.asset_key(),
        decreases tiles.len() - i,
    {
        let tile = tiles[i];
        keys.push((tile, tile.resolve()));
        i += 1;
    }
    keys
}

} // verus!
