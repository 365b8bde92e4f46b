//! A level that is being played.
//!
//! Positions are counted in steps; a tile is `TILE_STEPS` steps wide and
//! high, and the cell in column 0 and row 0 starts at step 0. Turning is
//! counted in millionths of a radian, time in millionths of a second.

use vstd::prelude::*;
use crate::bounded::Bounded;
use crate::enumerable::{
    codes, domain, lemma_enumerated_is_domain, lemma_unit_variants, Enumerable,
};
use crate::keys::KeySet;
use crate::level::{lemma_start_cell, LevelTemplate, LevelView};
use crate::product::FieldBound;
use crate::tile::TileVariant;

verus! {

/// Steps across one tile.
pub const TILE_STEPS: i64 = 128;

/// Millionths of a radian turned in a millionth of a second.
pub const TURN_RATE: u64 = 8;

/// Code of the key that moves up.
pub const KEY_UP: u32 = 0x77;

/// Code of the key that moves left.
pub const KEY_LEFT: u32 = 0x61;

/// Code of the key that moves down.
pub const KEY_DOWN: u32 = 0x73;

/// Code of the key that moves right.
pub const KEY_RIGHT: u32 = 0x64;

/// A move of the player by one step.
#[derive(Clone, Copy, Debug, PartialEq, Eq, Hash, Structural)]
pub enum Action {
    UP,
    DOWN,
    LEFT,
    RIGHT,
}

/// Where the player stands, in steps from the corner of the level.
#[derive(Clone, Copy, Debug, PartialEq, Eq, Structural)]
pub struct Position {
    pub x: i64,
    pub y: i64,
}

/// Whether the level is still being played.
#[derive(Clone, Copy, Debug, PartialEq, Eq, Structural)]
pub enum Outcome {
    Playing,
    Won,
}

impl Bounded for Action {
    open spec fn count() -> nat {
        4
    }

    open spec fn rank(&self) -> nat {
        match self {
            Action::UP => 0,
            Action::DOWN => 1,
            Action::LEFT => 2,
            Action::RIGHT => 3,
        }
    }

    open spec fn at(r: nat) -> Action {
        if r == 0 {
            Action::UP
        } else if r == 1 {
            Action::DOWN
        } else if r == 2 {
            Action::LEFT
        } else {
            Action::RIGHT
        }
    }

    proof fn lemma_rank(x: Action) {
    }

    proof fn lemma_at(r: nat) {
    }

    fn min() -> (r: Action) {
        Action::UP
    }

    fn max() -> (r: Action) {
        Action::RIGHT
    }

    fn next(&self) -> (r: Option<Action>) {
        match self {
            Action::UP => Some(Action::DOWN),
            Action::DOWN => Some(Action::LEFT),
            Action::LEFT => Some(Action::RIGHT),
            Action::RIGHT => None,
        }
    }

    fn ordinal(&self) -> (r: u32) {
        match self {
            Action::UP => 0,
            Action::DOWN => 1,
            Action::LEFT => 2,
            Action::RIGHT => 3,
        }
    }

    fn from_ordinal(r: u32) -> (x: Option<Action>) {
        if r == 0 {
            Some(Action::UP)
        } else if r == 1 {
            Some(Action::DOWN)
        } else if r == 2 {
            Some(Action::LEFT)
        } else if r == 3 {
            Some(Action::RIGHT)
        } else {
            None
        }
    }
}

impl Enumerable for Action {
    open spec fn shape() -> Seq<Seq<FieldBound>> {
        seq![Seq::empty(), Seq::empty(), Seq::empty(), Seq::empty()]
    }

    open spec fn decoded(variant: int, t: Seq<u32>) -> Action {
        Action::at(variant as nat)
    }

    open spec fn variant_of(&self) -> int {
        self.rank() as int
    }

    open spec fn codes_of(&self) -> Seq<u32> {
        Seq::empty()
    }

    open spec fn covered(&self) -> bool {
        true
    }

    proof fn lemma_shape() {
        lemma_unit_variants(Self::shape(), 4);
        assert(Self::shape().take(4) =~= Self::shape());
    }

    proof fn lemma_decoded(variant: int, t: Seq<u32>) {
        assert(t =~= Seq::<u32>::empty());
    }

    proof fn lemma_encoded(x: Action) {
    }

    fn variant_count() -> (n: usize) {
        4
    }

    fn variant_fields(variant: usize) -> (fields: Vec<FieldBound>) {
        let fields: Vec<FieldBound> = Vec::new();
        assert(fields@ =~= Self::shape()[variant as int]);
        fields
    }

    fn decode(variant: usize, t: &Vec<u32>) -> (x: Action) {
        if variant == 0 {
            Action::UP
        } else if variant == 1 {
            Action::DOWN
        } else if variant == 2 {
            Action::LEFT
        } else {
            Action::RIGHT
        }
    }
}

/// The actions are enumerated as up, down, left, right.
pub proof fn lemma_action_domain()
    ensures
        domain::<Action>() == seq![Action::UP, Action::DOWN, Action::LEFT, Action::RIGHT],
{
    let shape = Action::shape();
    lemma_unit_variants(shape, 4);
    assert(shape.take(4) =~= shape);
    let d = domain::<Action>();
    assert(d.len() == 4);
    assert(codes(shape)[0] == (0int, Seq::<u32>::empty()));
    assert(codes(shape)[1] == (1int, Seq::<u32>::empty()));
    assert(codes(shape)[2] == (2int, Seq::<u32>::empty()));
    assert(codes(shape)[3] == (3int, Seq::<u32>::empty()));
    assert(d =~= seq![Action::UP, Action::DOWN, Action::LEFT, Action::RIGHT]);
}

impl Action {
    /// The key that asks for this action.
    pub open spec fn key_spec(self) -> u32 {
        match self {
            Action::UP => KEY_UP,
            Action::DOWN => KEY_DOWN,
            Action::LEFT => KEY_LEFT,
            Action::RIGHT => KEY_RIGHT,
        }
    }

    /// The key that asks for this action.
    pub fn key(&self) -> (k: u32)
        ensures
            k == self.key_spec(),
    {
        match self {
            Action::UP => KEY_UP,
            Action::DOWN => KEY_DOWN,
            Action::LEFT => KEY_LEFT,
            Action::RIGHT => KEY_RIGHT,
        }
    }

    /// Moves the player of a game that is being played by one step; a game
    /// that is won stays as it is.
    pub fn perform(&self, state: &mut GameState)
        ensures
            final(state)@ == old(state)@.performed(*self),
    {
        match state.outcome {
            Outcome::Playing => {
                state.position = state.position.step(*self);
            },
            Outcome::Won => {},
        }
    }
}

impl Position {
    /// The position one step further in the direction of the action. At the
    /// edge of the numbers the position stays.
    pub open spec fn moved(self, a: Action) -> Position {
        match a {
            Action::UP => Position {
                x: self.x,
                y: if self.y > i64::MIN {
                    (self.y - 1) as i64
                } else {
                    self.y
                },
            },
            Action::DOWN => Position {
                x: self.x,
                y: if self.y < i64::MAX {
                    (self.y + 1) as i64
                } else {
                    self.y
                },
            },
            Action::LEFT => Position {
                x: if self.x > i64::MIN {
                    (self.x - 1) as i64
                } else {
                    self.x
                },
                y: self.y,
            },
            Action::RIGHT => Position {
                x: if self.x < i64::MAX {
                    (self.x + 1) as i64
                } else {
                    self.x
                },
                y: self.y,
            },
        }
    }

    /// The position after the action where its key is held, else the same.
    pub open spec fn moved_if_held(self, held: Set<u32>, a: Action) -> Position {
        if held.contains(a.key_spec()) {
            self.moved(a)
        } else {
            self
        }
    }

    /// The position after each of the actions whose key is held, taken in
    /// the order given.
    pub open spec fn moved_by(self, held: Set<u32>, actions: Seq<Action>) -> Position
        decreases actions.len(),
    {
        if actions.len() == 0 {
            self
        } else {
            self.moved_by(held, actions.drop_last()).moved_if_held(held, actions.last())
        }
    }

    /// The position one step further in the direction of the action.
    pub fn step(self, a: Action) -> (p: Position)
        ensures
            p == self.moved(a),
    {
        match a {
            Action::UP => Position {
                x: self.x,
                y: if self.y > i64::MIN {
                    self.y - 1
                } else {
                    self.y
                },
            },
            Action::DOWN => Position {
                x: self.x,
                y: if self.y < i64::MAX {
                    self.y + 1
                } else {
                    self.y
                },
            },
            Action::LEFT => Position {
                x: if self.x > i64::MIN {
                    self.x - 1
                } else {
                    self.x
                },
                y: self.y,
            },
            Action::RIGHT => Position {
                x: if self.x < i64::MAX {
                    self.x + 1
                } else {
                    self.x
                },
                y: self.y,
            },
        }
    }
}

/// The middle of the cell in the given column and row.
pub open spec fn cell_centre(col: int, row: int) -> Position {
    Position {
        x: (col * TILE_STEPS + TILE_STEPS / 2) as i64,
        y: (row * TILE_STEPS + TILE_STEPS / 2) as i64,
    }
}

/// Where a game on the level starts: in the middle of the first start tile,
/// or of the first cell where the level has no start tile.
pub open spec fn start_position(level: LevelView) -> Position {
    match level.start_cell() {
        Some((col, row)) => cell_centre(col, row),
        None => cell_centre(0, 0),
    }
}

/// The player stands on a goal tile of the level.
pub open spec fn on_goal(level: LevelView, p: Position) -> bool {
    &&& p.x >= 0
    &&& p.y >= 0
    &&& level.tile_at(p.x as int / TILE_STEPS as int, p.y as int / TILE_STEPS as int) matches Some(
        TileVariant::Goal { .. },
    )
}

/// What a game is.
pub struct GameView {
    pub position: Position,
    pub rotation: nat,
    pub keys_down: Set<u32>,
    pub show_hud: bool,
    pub level: LevelView,
    pub outcome: Outcome,
}

impl GameView {
    /// A fresh game on a level.
    pub open spec fn fresh(level: LevelView) -> GameView {
        GameView {
            position: start_position(level),
            rotation: 0,
            keys_down: Set::empty(),
            show_hud: true,
            level,
            outcome: Outcome::Playing,
        }
    }

    /// The game after one action.
    pub open spec fn performed(self, a: Action) -> GameView {
        if self.outcome is Playing {
            GameView { position: self.position.moved(a), ..self }
        } else {
            self
        }
    }

    /// The game after a key went down.
    pub open spec fn pressed(self, key: u32) -> GameView {
        if self.outcome is Playing {
            GameView { keys_down: self.keys_down.insert(key), ..self }
        } else {
            self
        }
    }

    /// The game after a key went up.
    pub open spec fn released(self, key: u32) -> GameView {
        if self.outcome is Playing {
            GameView { keys_down: self.keys_down.remove(key), ..self }
        } else {
            self
        }
    }

    /// The turning after `dt` millionths of a second, held at the greatest
    /// number that can be kept.
    pub open spec fn turned(self, dt: u64) -> nat {
        if self.rotation + TURN_RATE * dt <= u64::MAX {
            (self.rotation + TURN_RATE * dt) as nat
        } else {
            u64::MAX as nat
        }
    }

    /// The game after a tick of `dt` millionths of a second: the held keys
    /// are taken, each action whose key was held moves the player, the
    /// turning advances, and the game is won where the player then stands on
    /// a goal. A game that is won stays as it is.
    pub open spec fn ticked(self, dt: u64) -> GameView {
        if self.outcome is Playing {
            let position = self.position.moved_by(self.keys_down, domain::<Action>());
            GameView {
                position,
                rotation: self.turned(dt),
                keys_down: Set::empty(),
                show_hud: self.show_hud,
                level: self.level,
                outcome: if on_goal(self.level, position) {
                    Outcome::Won
                } else {
                    Outcome::Playing
                },
            }
        } else {
            self
        }
    }
}

/// A level that is being played.
#[derive(Debug)]
pub struct GameState {
    position: Position,
    rotation: u64,
    keys_down: KeySet,
    show_hud: bool,
    level: LevelTemplate,
    outcome: Outcome,
}

impl View for GameState {
    type V = GameView;

    closed spec fn view(&self) -> GameView {
        GameView {
            position: self.position,
            rotation: self.rotation as nat,
            keys_down: self.keys_down@,
            show_hud: self.show_hud,
            level: self.level@,
            outcome: self.outcome,
        }
    }
}

/// The tick moves the player by the held keys in the order up, down, left,
/// right.
pub proof fn lemma_moved_by_actions(p: Position, held: Set<u32>)
    ensures
        p.moved_by(held, domain::<Action>()) == p.moved_if_held(held, Action::UP).moved_if_held(
            held,
            Action::DOWN,
        ).moved_if_held(held, Action::LEFT).moved_if_held(held, Action::RIGHT),
{
    lemma_action_domain();
    let a4 = domain::<Action>();
    let a3 = a4.drop_last();
    let a2 = a3.drop_last();
    let a1 = a2.drop_last();
    let a0 = a1.drop_last();
    assert(p.moved_by(held, a0) == p);
    assert(p.moved_by(held, a1) == p.moved_by(held, a0).moved_if_held(held, a1.last()));
    assert(p.moved_by(held, a2) == p.moved_by(held, a1).moved_if_held(held, a2.last()));
    assert(p.moved_by(held, a3) == p.moved_by(held, a2).moved_if_held(held, a3.last()));
    assert(p.moved_by(held, a4) == p.moved_by(held, a3).moved_if_held(held, a4.last()));
}

/// A game on a level with a start tile starts on that tile.
pub proof fn lemma_fresh_game_on_start(level: LevelView)
    requires
        level.wf(),
        level.width <= u32::MAX,
        level.height <= u32::MAX,
        level.start_cell() is Some,
    ensures
        ({
            let p = GameView::fresh(level).position;
            &&& p.x >= 0
            &&& p.y >= 0
            &&& level.tile_at(p.x as int / TILE_STEPS as int, p.y as int / TILE_STEPS as int)
                == Some(TileVariant::Start)
        }),
{
    lemma_start_cell(level);
}

/// With the up key held and no other, a tick moves the player by exactly one
/// step up, whatever its length.
pub proof fn lemma_tick_moves_up(g: GameView, dt: u64)
    requires
        g.outcome is Playing,
        g.keys_down == Set::<u32>::empty().insert(KEY_UP),
        g.position.y > i64::MIN,
    ensures
        g.ticked(dt).position == (Position { x: g.position.x, y: (g.position.y - 1) as i64 }),
{
    lemma_moved_by_actions(g.position, g.keys_down);
}

/// The turning never goes back.
pub proof fn lemma_turning_advances(g: GameView, dt: u64)
    requires
        g.rotation <= u64::MAX,
    ensures
        g.ticked(dt).rotation >= g.rotation,
{
    assert(TURN_RATE * dt >= 0) by (nonlinear_arith);
}

impl GameState {
    /// A fresh game on a level.
    pub fn new(level: LevelTemplate) -> (game: GameState)
        ensures
            game@ == GameView::fresh(level@),
    {
        let position = match level.start_cell() {
            Some((col, row)) => {
                Position {
                    x: col as i64 * TILE_STEPS + TILE_STEPS / 2,
                    y: row as i64 * TILE_STEPS + TILE_STEPS / 2,
                }
            },
            None => Position { x: TILE_STEPS / 2, y: TILE_STEPS / 2 },
        };
        GameState {
            position,
            rotation: 0,
            keys_down: KeySet::new(),
            show_hud: true,
            level,
            outcome: Outcome::Playing,
        }
    }

    /// Where the player stands.
    pub fn position(&self) -> (p: Position)
        ensures
            p == self@.position,
    {
        self.position
    }

    /// How far the picture has turned, in millionths of a radian.
    pub fn rotation(&self) -> (r: u64)
        ensures
            r == self@.rotation,
    {
        self.rotation
    }

    /// Whether the level is still being played.
    pub fn outcome(&self) -> (o: Outcome)
        ensures
            o == self@.outcome,
    {
        self.outcome
    }

    /// Whether the overlay is shown.
    pub fn show_hud(&self) -> (b: bool)
        ensures
            b == self@.show_hud,
    {
        self.show_hud
    }

    /// Shows or hides the overlay.
    pub fn set_show_hud(&mut self, show: bool)
        ensures
            final(self)@ == (GameView { show_hud: show, ..old(self)@ }),
    {
        self.show_hud = show;
    }

    /// The level that is played.
    pub fn level(&self) -> (level: &LevelTemplate)
        ensures
            level@ == self@.level,
    {
        &self.level
    }

    /// Tells whether a key is held.
    pub fn is_held(&self, key: u32) -> (b: bool)
        ensures
            b == self@.keys_down.contains(key),
    {
        self.keys_down.contains(key)
    }

    /// Takes note that a key went down. A game that is won takes no keys.
    pub fn press(&mut self, key: u32)
        ensures
            final(self)@ == old(self)@.pressed(key),
    {
        match self.outcome {
            Outcome::Playing => {
                self.keys_down.insert(key);
            },
            Outcome::Won => {},
        }
    }

    /// Takes note that a key went up. A game that is won takes no keys.
    pub fn release(&mut self, key: u32)
        ensures
            final(self)@ == old(self)@.released(key),
    {
        match self.outcome {
            Outcome::Playing => {
                self.keys_down.remove(key);
            },
            Outcome::Won => {},
        }
    }

    /// Tells whether the player stands on a goal tile.
    fn stands_on_goal(&self) -> (b: bool)
        ensures
            b == on_goal(self@.level, self@.position),
    {
        let p = self.position;
        if p.x < 0 || p.y < 0 {
            return false;
        }
        let col = p.x / TILE_STEPS;
        let row = p.y / TILE_STEPS;
        if col > u32::MAX as i64 || row > u32::MAX as i64 {
            proof {
                self.level.lemma_view_bounds();
            }
            return false;
        }
        match self.level.tile_at(col as u32, row as u32) {
            Some(TileVariant::Goal { .. }) => true,
            _ => false,
        }
    }

    /// Advances the game by a tick of `dt` millionths of a second.
    pub fn tick(&mut self, dt: u64)
        ensures
            final(self)@ == old(self)@.ticked(dt),
    {
        match self.outcome {
            Outcome::Won => {
                return ;
            },
            Outcome::Playing => {},
        }
        let held = self.keys_down.drain();
        let actions = Action::enumerate_all();
        proof {
            lemma_enumerated_is_domain::<Action>(actions@);
        }
        let ghost start = self.position;
        let mut p = self.position;
        let mut i: usize = 0;
        assert(actions@.take(0) =~= Seq::<Action>::empty());
        while i < actions.len()
            invariant
                i <= actions.len(),
                p == start.moved_by(held@, actions@.take(i as int)),
            decreases actions.len() - i,
        {
            proof {
                assert(actions@.take(i as int + 1).drop_last() =~= actions@.take(i as int));
            }
            let a = actions[i];
            if held.contains(a.key()) {
                p = p.step(a);
            }
            i += 1;
        }
        assert(actions@.take(i as int) =~= actions@);
        self.position = p;
        let turn: u128 = TURN_RATE as u128 * dt as u128 + self.rotation as u128;
        self.rotation = if turn <= u64::MAX as u128 {
            turn as u64
        } else {
            u64::MAX
        };
        if self.stands_on_goal() {
            self.outcome = Outcome::Won;
        }
    }
}

} // verus!
