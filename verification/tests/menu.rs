use tile_maze::game::{GameState, Outcome, Position, KEY_LEFT, KEY_UP};
use tile_maze::level::LevelTemplate;
use tile_maze::menu::{
    toggle_fullscreen, LevelEditorState, LevelSelectState, MenuEvent, MenuState, Session,
    UpdateAction, KEY_ESCAPE, KEY_FULLSCREEN,
};
use tile_maze::tile::TileVariant;

fn level(name: &str) -> LevelTemplate {
    let tiles = vec![TileVariant::Start, TileVariant::Goal { active: false }];
    LevelTemplate::new(String::from(name), 2, 1, tiles).unwrap()
}

fn levels() -> Vec<LevelTemplate> {
    vec![level("one"), level("two")]
}

fn position(menu: &MenuState) -> Position {
    match menu {
        MenuState::InGame(game) | MenuState::PauseMenu(game) => game.position(),
        _ => panic!("no game"),
    }
}

#[test]
fn start_then_escape_twice_returns_to_main_menu() {
    let mut menu = MenuState::new();
    assert!(matches!(menu, MenuState::MainMenu));
    menu.start(levels());
    match &menu {
        MenuState::LevelSelect(LevelSelectState(offered)) => {
            assert_eq!(offered.len(), 2);
            assert_eq!(offered[0].name(), "one");
            assert_eq!(offered[1].name(), "two");
        },
        _ => panic!("level selection expected"),
    }
    assert!(!menu.escape_reloads());
    assert_eq!(menu.handle_esc(Vec::new()), UpdateAction::Nothing);
    assert!(matches!(menu, MenuState::MainMenu));
    assert_eq!(menu.handle_esc(Vec::new()), UpdateAction::Close);
    assert!(matches!(menu, MenuState::MainMenu));
}

#[test]
fn escape_pauses_with_the_same_game_and_then_drops_it() {
    let mut menu = MenuState::new();
    menu.start(levels());
    menu.choose_level(1);
    let fresh = position(&menu);
    assert_eq!(fresh, Position { x: 64, y: 64 });
    menu.handle_input(KEY_UP, true);
    menu.update(1_000_000);
    menu.handle_input(KEY_LEFT, true);
    menu.update(1_000_000);
    let moved = position(&menu);
    assert_eq!(moved, Position { x: 63, y: 63 });
    assert_eq!(menu.handle_esc(Vec::new()), UpdateAction::Nothing);
    match &menu {
        MenuState::PauseMenu(game) => {
            assert_eq!(game.position(), moved);
            assert_eq!(game.rotation(), 16_000_000);
            assert_eq!(game.level().name(), "two");
        },
        _ => panic!("pause menu expected"),
    }
    assert!(menu.escape_reloads());
    assert_eq!(menu.handle_esc(levels()), UpdateAction::Nothing);
    match &menu {
        MenuState::LevelSelect(LevelSelectState(offered)) => assert_eq!(offered.len(), 2),
        _ => panic!("level selection expected"),
    }
    menu.choose_level(1);
    assert_eq!(position(&menu), fresh);
    match &menu {
        MenuState::InGame(game) => {
            assert_eq!(game.rotation(), 0);
            assert_eq!(game.outcome(), Outcome::Playing);
        },
        _ => panic!("game expected"),
    }
}

#[test]
fn continue_resumes_the_paused_game() {
    let mut menu = MenuState::new();
    menu.start(levels());
    menu.choose_level(0);
    menu.handle_input(KEY_UP, true);
    menu.update(5);
    let moved = position(&menu);
    menu.handle_esc(Vec::new());
    menu.update(5);
    menu.handle_input(KEY_UP, true);
    assert_eq!(position(&menu), moved);
    menu.resume();
    assert!(matches!(menu, MenuState::InGame(_)));
    assert_eq!(position(&menu), moved);
    menu.update(5);
    assert_eq!(position(&menu), moved);
}

#[test]
fn released_key_does_not_move() {
    let mut menu = MenuState::new();
    menu.start(levels());
    menu.choose_level(0);
    let fresh = position(&menu);
    menu.handle_input(KEY_UP, true);
    menu.handle_input(KEY_UP, false);
    menu.update(5);
    assert_eq!(position(&menu), fresh);
}

#[test]
fn events_that_do_not_fit_the_state_change_nothing() {
    let mut menu = MenuState::new();
    menu.choose_level(0);
    menu.resume();
    menu.handle_input(KEY_UP, true);
    menu.update(7);
    assert!(matches!(menu, MenuState::MainMenu));
    menu.start(levels());
    menu.start(Vec::new());
    menu.resume();
    menu.update(7);
    menu.handle_input(KEY_UP, false);
    menu.choose_level(2);
    match &menu {
        MenuState::LevelSelect(LevelSelectState(offered)) => assert_eq!(offered.len(), 2),
        _ => panic!("level selection expected"),
    }
    menu.choose_level(0);
    let fresh = position(&menu);
    menu.start(levels());
    menu.choose_level(1);
    menu.resume();
    assert!(matches!(menu, MenuState::InGame(_)));
    assert_eq!(position(&menu), fresh);
    menu.handle_esc(Vec::new());
    menu.start(levels());
    menu.choose_level(0);
    assert!(matches!(menu, MenuState::PauseMenu(_)));
}

#[test]
fn winning_keeps_the_game_screen() {
    let mut menu = MenuState::new();
    menu.start(levels());
    menu.choose_level(0);
    for _ in 0..64 {
        menu.handle_input(0x64, true);
        menu.update(1);
    }
    match &menu {
        MenuState::InGame(game) => {
            assert_eq!(game.outcome(), Outcome::Won);
            assert_eq!(game.position(), Position { x: 128, y: 64 });
        },
        _ => panic!("game expected"),
    }
}

#[test]
fn screens_have_their_titles() {
    let mut menu = MenuState::new();
    assert_eq!(menu.menu_name(), "Main Menu");
    menu.start(levels());
    assert_eq!(menu.menu_name(), "Level Selection");
    menu.choose_level(0);
    assert_eq!(menu.menu_name(), "");
    menu.handle_esc(Vec::new());
    assert_eq!(menu.menu_name(), "Pause Menu");
}

#[test]
fn level_selection_can_be_opened_from_any_screen() {
    let mut menu = MenuState::InGame(GameState::new(level("x")));
    menu.open_level_selection(levels());
    match &menu {
        MenuState::LevelSelect(LevelSelectState(offered)) => assert_eq!(offered[1].name(), "two"),
        _ => panic!("level selection expected"),
    }
}

#[test]
fn full_screen_is_toggled() {
    let mut full = false;
    assert!(toggle_fullscreen(&mut full));
    assert!(full);
    assert!(!toggle_fullscreen(&mut full));
    assert!(!full);
}

#[test]
fn editor_states_hold_their_level() {
    let empty = LevelEditorState::Empty;
    assert!(matches!(empty, LevelEditorState::Empty));
    let edit = LevelEditorState::Edit { level: level("e"), saved: false, file: None };
    match edit {
        LevelEditorState::Edit { level, saved, file } => {
            assert_eq!(level.name(), "e");
            assert!(!saved);
            assert_eq!(file, None);
        },
        _ => panic!("edit expected"),
    }
    let testing = LevelEditorState::Testing {
        level: level("t"),
        saved: true,
        file: Some(String::from("t.level")),
        state: GameState::new(level("t")),
    };
    match testing {
        LevelEditorState::Testing { state, saved, .. } => {
            assert!(saved);
            assert_eq!(state.position(), Position { x: 64, y: 64 });
        },
        _ => panic!("testing expected"),
    }
}

#[test]
fn events_follow_the_transition_table() {
    let mut menu = MenuState::new();
    assert_eq!(menu.handle(MenuEvent::Continue), UpdateAction::Nothing);
    assert_eq!(menu.handle(MenuEvent::LevelChosen(0)), UpdateAction::Nothing);
    assert!(matches!(menu, MenuState::MainMenu));
    assert_eq!(menu.handle(MenuEvent::Start(levels())), UpdateAction::Nothing);
    assert!(matches!(menu, MenuState::LevelSelect(_)));
    assert_eq!(menu.handle(MenuEvent::LevelChosen(1)), UpdateAction::Nothing);
    assert!(matches!(menu, MenuState::InGame(_)));
    assert_eq!(menu.handle(MenuEvent::Key { code: KEY_UP, pressed: true }), UpdateAction::Nothing);
    assert_eq!(menu.handle(MenuEvent::Tick(1_000_000)), UpdateAction::Nothing);
    assert_eq!(position(&menu), Position { x: 64, y: 63 });
    assert_eq!(menu.handle(MenuEvent::Escape(Vec::new())), UpdateAction::Nothing);
    assert!(matches!(menu, MenuState::PauseMenu(_)));
    assert_eq!(menu.handle(MenuEvent::Continue), UpdateAction::Nothing);
    assert!(matches!(menu, MenuState::InGame(_)));
    assert_eq!(menu.handle(MenuEvent::Escape(Vec::new())), UpdateAction::Nothing);
    assert_eq!(menu.handle(MenuEvent::Escape(levels())), UpdateAction::Nothing);
    assert!(matches!(menu, MenuState::LevelSelect(_)));
    assert_eq!(menu.handle(MenuEvent::Escape(Vec::new())), UpdateAction::Nothing);
    assert!(matches!(menu, MenuState::MainMenu));
    assert_eq!(menu.handle(MenuEvent::Escape(Vec::new())), UpdateAction::Close);
    assert!(matches!(menu, MenuState::MainMenu));
}

#[test]
fn full_screen_key_leaves_the_menu_alone() {
    let mut session = Session::new();
    assert!(!session.fullscreen);
    assert!(matches!(session.menu, MenuState::MainMenu));
    session.menu.start(levels());
    assert_eq!(session.key_released(KEY_FULLSCREEN, Vec::new()), UpdateAction::Nothing);
    assert!(session.fullscreen);
    assert!(matches!(session.menu, MenuState::LevelSelect(_)));
    assert_eq!(session.key_released(KEY_UP, Vec::new()), UpdateAction::Nothing);
    assert!(session.fullscreen);
    assert!(matches!(session.menu, MenuState::LevelSelect(_)));
    assert_eq!(session.key_released(KEY_ESCAPE, Vec::new()), UpdateAction::Nothing);
    assert!(session.fullscreen);
    assert!(matches!(session.menu, MenuState::MainMenu));
    assert_eq!(session.key_released(KEY_FULLSCREEN, Vec::new()), UpdateAction::Nothing);
    assert!(!session.fullscreen);
    assert_eq!(session.key_released(KEY_ESCAPE, Vec::new()), UpdateAction::Close);
    assert_eq!((KEY_ESCAPE, KEY_FULLSCREEN), (27, 0x4000_0044));
}
