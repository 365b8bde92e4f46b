//! The tile model: what a cell of a level can hold, and the asset that
//! shows it.

use vstd::prelude::*;
use vstd::string::*;
use crate::bounded::Bounded;
use crate::enumerable::{
    domain, lemma_domain_complete, lemma_domain_distinct, lemma_domain_len, shape_count, shape_wf,
    Enumerable,
};
use crate::product::{fields_wf, tuple_count, FieldBound};

verus! {

/// To which of its four neighbours a wall piece is joined.
#[derive(Clone, Copy, Debug, PartialEq, Eq, Hash, Structural)]
pub struct Connections {
    pub up: bool,
    pub down: bool,
    pub left: bool,
    pub right: bool,
}

/// What a cell of a level holds.
#[derive(Clone, Copy, Debug, PartialEq, Eq, Hash, Structural)]
pub enum TileVariant {
    /// The cell the player has to reach.
    Goal { active: bool },
    /// The cell the player starts on.
    Start,
    /// Free floor.
    Path,
    /// A wall piece.
    Wall(Connections),
}

/// The number a flag stands for.
pub open spec fn bit(b: bool) -> nat {
    if b {
        1
    } else {
        0
    }
}

impl Bounded for Connections {
    open spec fn count() -> nat {
        16
    }

    /// The four flags read as a binary number, `up` first.
    open spec fn rank(&self) -> nat {
        8 * bit(self.up) + 4 * bit(self.down) + 2 * bit(self.left) + bit(self.right)
    }

    open spec fn at(r: nat) -> Connections {
        Connections {
            up: (r / 8) % 2 == 1,
            down: (r / 4) % 2 == 1,
            left: (r / 2) % 2 == 1,
            right: r % 2 == 1,
        }
    }

    proof fn lemma_rank(x: Connections) {
    }

    proof fn lemma_at(r: nat) {
    }

    fn min() -> (r: Connections) {
        Connections { up: false, down: false, left: false, right: false }
    }

    fn max() -> (r: Connections) {
        Connections { up: true, down: true, left: true, right: true }
    }

    /// Binary increment over the four flags.
    fn next(&self) -> (r: Option<Connections>) {
        if !self.right {
            Some(Connections { up: self.up, down: self.down, left: self.left, right: true })
        } else if !self.left {
            Some(Connections { up: self.up, down: self.down, left: true, right: false })
        } else if !self.down {
            Some(Connections { up: self.up, down: true, left: false, right: false })
        } else if !self.up {
            Some(Connections { up: true, down: false, left: false, right: false })
        } else {
            None
        }
    }

    fn ordinal(&self) -> (r: u32) {
        let mut r: u32 = 0;
        if self.up {
            r = r + 8;
        }
        if self.down {
            r = r + 4;
        }
        if self.left {
            r = r + 2;
        }
        if self.right {
            r = r + 1;
        }
        r
    }

    fn from_ordinal(r: u32) -> (x: Option<Connections>) {
        if r < 16 {
            Some(
                Connections {
                    up: (r / 8) % 2 == 1,
                    down: (r / 4) % 2 == 1,
                    left: (r / 2) % 2 == 1,
                    right: r % 2 == 1,
                },
            )
        } else {
            None
        }
    }
}

/// One character for a flag: `1` when set, `0` when not.
pub open spec fn flag_char(b: bool) -> char {
    if b {
        '1'
    } else {
        '0'
    }
}

impl TileVariant {
    /// The asset key of a tile: the variant's name in lower case, then for
    /// each field an underscore and the field's value.
    pub open spec fn asset_key(self) -> Seq<char> {
        match self {
            TileVariant::Goal { active } => seq!['g', 'o', 'a', 'l', '_', flag_char(active)],
            TileVariant::Start => seq!['s', 't', 'a', 'r', 't'],
            TileVariant::Path => seq!['p', 'a', 't', 'h'],
            TileVariant::Wall(c) => seq![
                'w',
                'a',
                'l',
                'l',
                '_',
                flag_char(c.up),
                '_',
                flag_char(c.down),
                '_',
                flag_char(c.left),
                '_',
                flag_char(c.right),
            ],
        }
    }

    /// The key under which the picture of this tile is kept.
    pub fn resolve(&self) -> (key: String)
        ensures
            key@ == self.asset_key(),
    {
        proof {
            reveal_strlit("goal_");
            reveal_strlit("start");
            reveal_strlit("path");
            reveal_strlit("wall");
            reveal_strlit("_1");
            reveal_strlit("_0");
            reveal_strlit("1");
            reveal_strlit("0");
        }
        match self {
            TileVariant::Goal { active } => {
                let mut key = String::from_str("goal_");
                key.append(flag_text(*active));
                assert(key@ =~= self.asset_key());
                key
            },
            TileVariant::Start => {
                let key = String::from_str("start");
                assert(key@ =~= self.asset_key());
                key
            },
            TileVariant::Path => {
                let key = String::from_str("path");
                assert(key@ =~= self.asset_key());
                key
            },
            TileVariant::Wall(c) => {
                let mut key = String::from_str("wall");
                key.append(field_text(c.up));
                key.append(field_text(c.down));
                key.append(field_text(c.left));
                key.append(field_text(c.right));
                assert(key@ =~= self.asset_key());
                key
            },
        }
    }
}

/// The text of a flag.
fn flag_text(b: bool) -> (s: &'static str)
    ensures
        s@ == seq![flag_char(b)],
{
    proof {
        reveal_strlit("1");
        reveal_strlit("0");
    }
    if b {
        let s = "1";
        assert(s@ =~= seq![flag_char(b)]);
        s
    } else {
        let s = "0";
        assert(s@ =~= seq![flag_char(b)]);
        s
    }
}

/// The text of a flag as a field of a key: an underscore, then the flag.
fn field_text(b: bool) -> (s: &'static str)
    ensures
        s@ == seq!['_', flag_char(b)],
{
    proof {
        reveal_strlit("_1");
        reveal_strlit("_0");
    }
    if b {
        let s = "_1";
        assert(s@ =~= seq!['_', flag_char(b)]);
        s
    } else {
        let s = "_0";
        assert(s@ =~= seq!['_', flag_char(b)]);
        s
    }
}

/// Two tiles with the same asset key are the same tile.
pub proof fn lemma_resolve_injective(a: TileVariant, b: TileVariant)
    requires
        a.asset_key() == b.asset_key(),
    ensures
        a == b,
{
    let ka = a.asset_key();
    let kb = b.asset_key();
    assert(ka.len() == kb.len());
    match (a, b) {
        (TileVariant::Goal { active: x }, TileVariant::Goal { active: y }) => {
            assert(ka[5] == kb[5]);
        },
        (TileVariant::Wall(c), TileVariant::Wall(d)) => {
            assert(ka[5] == kb[5]);
            assert(ka[7] == kb[7]);
            assert(ka[9] == kb[9]);
            assert(ka[11] == kb[11]);
        },
        _ => {},
    }
}

impl Enumerable for TileVariant {
    open spec fn shape() -> Seq<Seq<FieldBound>> {
        seq![
            seq![FieldBound { min: 0, max: 1 }],
            Seq::empty(),
            Seq::empty(),
            seq![FieldBound { min: 0, max: 15 }],
        ]
    }

    open spec fn decoded(variant: int, t: Seq<u32>) -> TileVariant {
        if variant == 0 {
            TileVariant::Goal { active: bool::at(t[0] as nat) }
        } else if variant == 1 {
            TileVariant::Start
        } else if variant == 2 {
            TileVariant::Path
        } else {
            TileVariant::Wall(Connections::at(t[0] as nat))
        }
    }

    open spec fn variant_of(&self) -> int {
        match self {
            TileVariant::Goal { .. } => 0,
            TileVariant::Start => 1,
            TileVariant::Path => 2,
            TileVariant::Wall(_) => 3,
        }
    }

    open spec fn codes_of(&self) -> Seq<u32> {
        match self {
            TileVariant::Goal { active } => seq![active.rank() as u32],
            TileVariant::Start => Seq::empty(),
            TileVariant::Path => Seq::empty(),
            TileVariant::Wall(c) => seq![c.rank() as u32],
        }
    }

    open spec fn covered(&self) -> bool {
        true
    }

    proof fn lemma_shape() {
        lemma_tile_shape_count();
    }

    proof fn lemma_decoded(variant: int, t: Seq<u32>) {
        let x = Self::decoded(variant, t);
        if variant == 0 {
            assert(Self::shape()[0][0].admits(t[0]));
            assert(x.codes_of() =~= t);
        } else if variant == 3 {
            assert(Self::shape()[3][0].admits(t[0]));
            Connections::lemma_at(t[0] as nat);
            assert(x.codes_of() =~= t);
        } else {
            assert(x.codes_of() =~= t);
        }
    }

    proof fn lemma_encoded(x: TileVariant) {
        match x {
            TileVariant::Goal { active } => {
                assert(Self::shape()[0][0].admits(x.codes_of()[0]));
            },
            TileVariant::Wall(c) => {
                Connections::lemma_rank(c);
                assert(Self::shape()[3][0].admits(x.codes_of()[0]));
            },
            _ => {},
        }
    }

    fn variant_count() -> (n: usize) {
        4
    }

    fn variant_fields(variant: usize) -> (fields: Vec<FieldBound>) {
        let mut fields: Vec<FieldBound> = Vec::new();
        if variant == 0 {
            fields.push(FieldBound::of::<bool>());
        } else if variant == 3 {
            fields.push(FieldBound::of::<Connections>());
        }
        assert(fields@ =~= Self::shape()[variant as int]);
        fields
    }

    fn decode(variant: usize, t: &Vec<u32>) -> (x: TileVariant) {
        if variant == 0 {
            assert(Self::shape()[0][0].admits(t@[0]));
            match bool::from_ordinal(t[0]) {
                Some(active) => TileVariant::Goal { active },
                None => TileVariant::Goal { active: false },
            }
        } else if variant == 1 {
            TileVariant::Start
        } else if variant == 2 {
            TileVariant::Path
        } else {
            assert(Self::shape()[3][0].admits(t@[0]));
            match Connections::from_ordinal(t[0]) {
                Some(c) => TileVariant::Wall(c),
                None => TileVariant::Wall(Connections::min()),
            }
        }
    }
}

/// The tile type has twenty values: two goals, the start, the path and
/// sixteen walls.
pub proof fn lemma_tile_shape_count()
    ensures
        shape_wf(TileVariant::shape()),
        shape_count(TileVariant::shape()) == 20,
{
    let shape = TileVariant::shape();
    let goal = shape[0];
    let wall = shape[3];
    let none = Seq::<FieldBound>::empty();
    assert(goal.drop_last() =~= none);
    assert(wall.drop_last() =~= none);
    assert(tuple_count(none) == 1);
    assert(tuple_count(goal) == 2) by {
        assert(tuple_count(goal) == tuple_count(goal.drop_last()) * goal.last().size());
    }
    assert(tuple_count(wall) == 16) by {
        assert(tuple_count(wall) == tuple_count(wall.drop_last()) * wall.last().size());
    }
    let s3 = shape.drop_last();
    let s2 = s3.drop_last();
    let s1 = s2.drop_last();
    let s0 = s1.drop_last();
    assert(shape_count(s0) == 0);
    assert(shape_count(s1) == 2) by {
        assert(s1.last() == goal);
    }
    assert(shape_count(s2) == 3) by {
        assert(s2.last() == none);
    }
    assert(shape_count(s3) == 4) by {
        assert(s3.last() == none);
    }
    assert(shape_count(shape) == 20) by {
        assert(shape.last() == wall);
    }
    assert(shape_wf(shape)) by {
        assert forall|v: int| 0 <= v < shape.len() implies fields_wf(#[trigger] shape[v]) by {
            if v == 0 {
                assert(shape[v][0].wf());
            } else if v == 3 {
                assert(shape[v][0].wf());
            }
        }
    }
}

/// The enumeration of the tiles lists each of the twenty tiles once.
pub proof fn lemma_tile_domain(t: TileVariant)
    ensures
        domain::<TileVariant>().len() == 20,
        domain::<TileVariant>().no_duplicates(),
        domain::<TileVariant>().contains(t),
{
    lemma_tile_shape_count();
    lemma_domain_len::<TileVariant>();
    lemma_domain_distinct::<TileVariant>();
    lemma_domain_complete::<TileVariant>(t);
}

} // verus!
