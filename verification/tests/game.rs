use tile_maze::game::{
    Action, GameState, Outcome, Position, KEY_DOWN, KEY_LEFT, KEY_RIGHT, KEY_UP, TILE_STEPS,
    TURN_RATE,
};
use tile_maze::keys::KeySet;
use tile_maze::level::LevelTemplate;
use tile_maze::tile::TileVariant;

const STEP: f64 = 0.5 / 64.0;

fn corridor() -> LevelTemplate {
    let tiles = vec![TileVariant::Path, TileVariant::Start, TileVariant::Goal { active: false }];
    LevelTemplate::new(String::from("corridor"), 3, 1, tiles).unwrap()
}

#[test]
fn fresh_game_starts_in_the_middle_of_the_start_tile() {
    let game = GameState::new(corridor());
    assert_eq!(game.position(), Position { x: 128 + 64, y: 64 });
    assert_eq!(game.rotation(), 0);
    assert_eq!(game.outcome(), Outcome::Playing);
    assert!(game.show_hud());
    assert!(!game.is_held(KEY_UP));
    assert_eq!(game.level().name(), "corridor");
}

#[test]
fn level_without_start_begins_in_the_first_cell() {
    let level = LevelTemplate::new(String::from("n"), 1, 1, vec![TileVariant::Path]).unwrap();
    assert_eq!(GameState::new(level).position(), Position { x: 64, y: 64 });
    let empty = LevelTemplate::new(String::from("e"), 0, 0, Vec::new()).unwrap();
    assert_eq!(GameState::new(empty).position(), Position { x: 64, y: 64 });
}

#[test]
fn held_up_key_moves_one_step_up_in_one_tick() {
    assert_eq!(KEY_UP, 'w' as u32);
    assert_eq!(TILE_STEPS as f64 * STEP, 1.0);
    let mut game = GameState::new(corridor());
    let before = game.position();
    game.press(KEY_UP);
    assert!(game.is_held(KEY_UP));
    game.tick(1_000_000);
    let after = game.position();
    assert_eq!(after.x, before.x);
    assert_eq!(after.y, before.y - 1);
    assert_eq!((after.y - before.y) as f64 * STEP, -0.5 / 64.0);
    assert_eq!(game.rotation(), TURN_RATE * 1_000_000);
    assert_eq!(game.rotation() as f64 / 1e6, 8.0);
}

#[test]
fn tick_takes_the_held_keys() {
    let mut game = GameState::new(corridor());
    game.press(KEY_LEFT);
    game.tick(10);
    assert!(!game.is_held(KEY_LEFT));
    let once = game.position();
    game.tick(10);
    assert_eq!(game.position(), once);
    assert_eq!(game.rotation(), 160);
}

#[test]
fn each_key_has_its_direction() {
    assert_eq!(Action::UP.key(), KEY_UP);
    assert_eq!(Action::DOWN.key(), KEY_DOWN);
    assert_eq!(Action::LEFT.key(), KEY_LEFT);
    assert_eq!(Action::RIGHT.key(), KEY_RIGHT);
    assert_eq!((KEY_LEFT, KEY_DOWN, KEY_RIGHT), ('a' as u32, 's' as u32, 'd' as u32));
    let start = GameState::new(corridor()).position();
    let cases = [
        (KEY_UP, 0, -1),
        (KEY_DOWN, 0, 1),
        (KEY_LEFT, -1, 0),
        (KEY_RIGHT, 1, 0),
        (0x20, 0, 0),
    ];
    for (key, dx, dy) in cases.iter() {
        let mut game = GameState::new(corridor());
        game.press(*key);
        game.tick(0);
        assert_eq!(game.position(), Position { x: start.x + dx, y: start.y + dy });
    }
}

#[test]
fn opposite_keys_cancel_and_all_keys_add_up() {
    let mut game = GameState::new(corridor());
    let start = game.position();
    game.press(KEY_UP);
    game.press(KEY_DOWN);
    game.press(KEY_RIGHT);
    game.press(KEY_RIGHT);
    game.tick(1);
    assert_eq!(game.position(), Position { x: start.x + 1, y: start.y });
}

#[test]
fn released_key_is_not_held() {
    let mut game = GameState::new(corridor());
    let start = game.position();
    game.press(KEY_UP);
    game.press(KEY_LEFT);
    game.release(KEY_UP);
    game.release(KEY_DOWN);
    assert!(!game.is_held(KEY_UP));
    assert!(game.is_held(KEY_LEFT));
    game.tick(1);
    assert_eq!(game.position(), Position { x: start.x - 1, y: start.y });
}

#[test]
fn perform_moves_by_one_step() {
    let mut game = GameState::new(corridor());
    let start = game.position();
    Action::UP.perform(&mut game);
    assert_eq!(game.position(), Position { x: start.x, y: start.y - 1 });
    Action::DOWN.perform(&mut game);
    Action::DOWN.perform(&mut game);
    assert_eq!(game.position(), Position { x: start.x, y: start.y + 1 });
    Action::LEFT.perform(&mut game);
    assert_eq!(game.position(), Position { x: start.x - 1, y: start.y + 1 });
    Action::RIGHT.perform(&mut game);
    Action::RIGHT.perform(&mut game);
    assert_eq!(game.position(), Position { x: start.x + 1, y: start.y + 1 });
    assert_eq!(game.outcome(), Outcome::Playing);
}

#[test]
fn steps_stop_at_the_edge_of_the_numbers() {
    let low = Position { x: i64::MIN, y: i64::MIN };
    assert_eq!(low.step(Action::UP), low);
    assert_eq!(low.step(Action::LEFT), low);
    assert_eq!(low.step(Action::DOWN), Position { x: i64::MIN, y: i64::MIN + 1 });
    let high = Position { x: i64::MAX, y: i64::MAX };
    assert_eq!(high.step(Action::DOWN), high);
    assert_eq!(high.step(Action::RIGHT), high);
    assert_eq!(high.step(Action::LEFT), Position { x: i64::MAX - 1, y: i64::MAX });
}

#[test]
fn game_is_won_on_the_goal_tile() {
    let mut game = GameState::new(corridor());
    for _ in 0..63 {
        game.press(KEY_RIGHT);
        game.tick(1);
        assert_eq!(game.outcome(), Outcome::Playing);
    }
    assert_eq!(game.position().x, 255);
    game.press(KEY_RIGHT);
    game.tick(1);
    assert_eq!(game.position().x, 256);
    assert_eq!(game.outcome(), Outcome::Won);
    let won_at = game.position();
    let turned = game.rotation();
    game.press(KEY_LEFT);
    assert!(!game.is_held(KEY_LEFT));
    game.tick(5);
    Action::LEFT.perform(&mut game);
    assert_eq!(game.position(), won_at);
    assert_eq!(game.rotation(), turned);
    assert_eq!(game.outcome(), Outcome::Won);
}

#[test]
fn leaving_the_grid_does_not_win() {
    let mut game = GameState::new(corridor());
    for _ in 0..70 {
        game.press(KEY_UP);
        game.tick(1);
    }
    assert_eq!(game.position().y, -6);
    assert_eq!(game.outcome(), Outcome::Playing);
}

#[test]
fn turning_never_goes_back_and_stops_at_the_greatest_number() {
    let mut game = GameState::new(corridor());
    let mut last = game.rotation();
    for dt in [0u64, 1, 1000, u64::MAX / 8, 7, u64::MAX, 3] {
        game.tick(dt);
        assert!(game.rotation() >= last);
        last = game.rotation();
    }
    assert_eq!(last, u64::MAX);
}

#[test]
fn key_set_holds_each_key_once() {
    let mut keys = KeySet::new();
    assert!(keys.is_empty());
    keys.insert(5);
    keys.insert(9);
    keys.insert(5);
    assert!(keys.contains(5));
    assert!(keys.contains(9));
    assert!(!keys.contains(6));
    keys.remove(5);
    assert!(!keys.contains(5));
    assert!(keys.contains(9));
    keys.remove(7);
    let held = keys.drain();
    assert!(keys.is_empty());
    assert!(!keys.contains(9));
    assert!(held.contains(9));
    assert!(!held.contains(5));
    assert!(!held.is_empty());
}

#[test]
fn overlay_can_be_hidden() {
    let mut game = GameState::new(corridor());
    let start = game.position();
    game.set_show_hud(false);
    assert!(!game.show_hud());
    assert_eq!(game.position(), start);
    game.tick(3);
    assert!(!game.show_hud());
    game.set_show_hud(true);
    assert!(game.show_hud());
}
