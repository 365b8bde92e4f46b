//! The menu state machine: which screen is shown, and what each event makes
//! of it.
//!
//! | state       | event        | next state                         |
//! |-------------|--------------|------------------------------------|
//! | MainMenu    | start        | LevelSelect with the loaded levels |
//! | MainMenu    | escape       | MainMenu, and the host is closed   |
//! | LevelSelect | level chosen | InGame with a fresh game           |
//! | LevelSelect | escape       | MainMenu                           |
//! | InGame      | escape       | PauseMenu with the same game       |
//! | InGame      | key, tick    | InGame, the game advanced          |
//! | PauseMenu   | continue     | InGame with the same game          |
//! | PauseMenu   | escape       | LevelSelect with the loaded levels |
//!
//! Every other pair of state and event leaves the state as it is.

use vstd::prelude::*;
use vstd::string::*;
use crate::game::{GameState, GameView};
use crate::level::{level_views, LevelTemplate, LevelView};

verus! {

/// What the host has to do after an event.
#[derive(Clone, Copy, Debug, PartialEq, Eq, Structural)]
pub enum UpdateAction {
    Nothing,
    Close,
}

/// The levels offered on the level selection screen.
#[derive(Debug)]
pub struct LevelSelectState(pub Vec<LevelTemplate>);

/// The screen that is shown. Exactly one is shown at a time, and a game
/// belongs to the one screen that holds it.
#[derive(Debug)]
pub enum MenuState {
    MainMenu,
    PauseMenu(GameState),
    InGame(GameState),
    LevelSelect(LevelSelectState),
}

/// What the level editor is doing.
#[derive(Debug)]
pub enum LevelEditorState {
    Empty,
    Edit { level: LevelTemplate, saved: bool, file: Option<String> },
    Testing { level: LevelTemplate, saved: bool, file: Option<String>, state: GameState },
}

/// What a menu state is.
pub enum MenuView {
    MainMenu,
    PauseMenu(GameView),
    InGame(GameView),
    LevelSelect(Seq<LevelView>),
}

/// Something that happened and that the menu has to take note of.
#[derive(Debug)]
pub enum MenuEvent {
    /// "Start" was asked for; the levels were loaded for it.
    Start(Vec<LevelTemplate>),
    /// The escape key was released; the levels were loaded anew for it.
    Escape(Vec<LevelTemplate>),
    /// The level at this index of the selection was chosen.
    LevelChosen(usize),
    /// "Continue" was asked for.
    Continue,
    /// A key went down or up.
    Key { code: u32, pressed: bool },
    /// So many millionths of a second went by.
    Tick(u64),
}

/// What an event is.
pub enum EventView {
    Start(Seq<LevelView>),
    Escape(Seq<LevelView>),
    LevelChosen(int),
    Continue,
    Key { code: u32, pressed: bool },
    Tick(u64),
}

impl View for MenuEvent {
    type V = EventView;

    open spec fn view(&self) -> EventView {
        match self {
            MenuEvent::Start(levels) => EventView::Start(level_views(levels@)),
            MenuEvent::Escape(levels) => EventView::Escape(level_views(levels@)),
            MenuEvent::LevelChosen(index) => EventView::LevelChosen(*index as int),
            MenuEvent::Continue => EventView::Continue,
            MenuEvent::Key { code, pressed } => EventView::Key { code: *code, pressed: *pressed },
            MenuEvent::Tick(dt) => EventView::Tick(*dt),
        }
    }
}

impl View for LevelSelectState {
    type V = Seq<LevelView>;

    open spec fn view(&self) -> Seq<LevelView> {
        level_views(self.0@)
    }
}

impl View for MenuState {
    type V = MenuView;

    open spec fn view(&self) -> MenuView {
        match self {
            MenuState::MainMenu => MenuView::MainMenu,
            MenuState::PauseMenu(g) => MenuView::PauseMenu(g@),
            MenuState::InGame(g) => MenuView::InGame(g@),
            MenuState::LevelSelect(s) => MenuView::LevelSelect(s@),
        }
    }
}

impl MenuView {
    /// The title of the screen.
    pub open spec fn name(self) -> Seq<char> {
        match self {
            MenuView::MainMenu => "Main Menu"@,
            MenuView::PauseMenu(_) => "Pause Menu"@,
            MenuView::LevelSelect(_) => "Level Selection"@,
            MenuView::InGame(_) => ""@,
        }
    }

    /// The level selection screen with the given levels.
    pub open spec fn level_selection(levels: Seq<LevelView>) -> MenuView {
        MenuView::LevelSelect(levels)
    }

    /// The state after "start" with the levels that were loaded.
    pub open spec fn after_start(self, levels: Seq<LevelView>) -> MenuView {
        match self {
            MenuView::MainMenu => MenuView::LevelSelect(levels),
            _ => self,
        }
    }

    /// The state after the level at `index` was chosen.
    pub open spec fn after_choice(self, index: int) -> MenuView {
        match self {
            MenuView::LevelSelect(levels) => if 0 <= index < levels.len() {
                MenuView::InGame(GameView::fresh(levels[index]))
            } else {
                self
            },
            _ => self,
        }
    }

    /// The state after "continue".
    pub open spec fn after_continue(self) -> MenuView {
        match self {
            MenuView::PauseMenu(g) => MenuView::InGame(g),
            _ => self,
        }
    }

    /// Tells whether the escape key leads to the level selection screen, so
    /// that the levels are loaded anew.
    pub open spec fn escape_reloads(self) -> bool {
        self is PauseMenu
    }

    /// The state after the escape key, with the levels that were loaded
    /// anew, and what the host has to do.
    pub open spec fn after_escape(self, reloaded: Seq<LevelView>) -> (MenuView, UpdateAction) {
        match self {
            MenuView::MainMenu => (MenuView::MainMenu, UpdateAction::Close),
            MenuView::LevelSelect(_) => (MenuView::MainMenu, UpdateAction::Nothing),
            MenuView::InGame(g) => (MenuView::PauseMenu(g), UpdateAction::Nothing),
            MenuView::PauseMenu(_) => (MenuView::LevelSelect(reloaded), UpdateAction::Nothing),
        }
    }

    /// The state after a key went down or up.
    pub open spec fn after_key(self, key: u32, pressed: bool) -> MenuView {
        match self {
            MenuView::InGame(g) => MenuView::InGame(
                if pressed {
                    g.pressed(key)
                } else {
                    g.released(key)
                },
            ),
            _ => self,
        }
    }

    /// The state after a tick of `dt` millionths of a second.
    pub open spec fn after_tick(self, dt: u64) -> MenuView {
        match self {
            MenuView::InGame(g) => MenuView::InGame(g.ticked(dt)),
            _ => self,
        }
    }

    /// The state after an event, and what the host has to do. Only the
    /// escape key on the main menu asks the host to close.
    pub open spec fn step(self, event: EventView) -> (MenuView, UpdateAction) {
        match event {
            EventView::Start(levels) => (self.after_start(levels), UpdateAction::Nothing),
            EventView::Escape(reloaded) => self.after_escape(reloaded),
            EventView::LevelChosen(index) => (self.after_choice(index), UpdateAction::Nothing),
            EventView::Continue => (self.after_continue(), UpdateAction::Nothing),
            EventView::Key { code, pressed } => (
                self.after_key(code, pressed),
                UpdateAction::Nothing,
            ),
            EventView::Tick(dt) => (self.after_tick(dt), UpdateAction::Nothing),
        }
    }
}

/// From the main menu, "start" and then the escape key twice lead back to
/// the main menu; the second escape asks the host to close, the first does
/// not.
pub proof fn lemma_start_escape_escape(
    levels: Seq<LevelView>,
    first: Seq<LevelView>,
    second: Seq<LevelView>,
)
    ensures
        MenuView::MainMenu.after_start(levels).after_escape(first) == (
            MenuView::MainMenu,
            UpdateAction::Nothing,
        ),
        MenuView::MainMenu.after_start(levels).after_escape(first).0.after_escape(second) == (
            MenuView::MainMenu,
            UpdateAction::Close,
        ),
{
}

/// The escape key moves a running game to the pause menu as it is, and
/// "continue" moves it back. A second escape key drops the game: a level
/// chosen afterwards starts a fresh game.
pub proof fn lemma_pause_keeps_game(g: GameView, reloaded: Seq<LevelView>, index: int)
    requires
        0 <= index < reloaded.len(),
    ensures
        MenuView::InGame(g).after_escape(reloaded).0 == MenuView::PauseMenu(g),
        MenuView::PauseMenu(g).after_continue() == MenuView::InGame(g),
        MenuView::PauseMenu(g).after_escape(reloaded).0 == MenuView::LevelSelect(reloaded),
        MenuView::PauseMenu(g).after_escape(reloaded).0.after_choice(index) == MenuView::InGame(
            GameView::fresh(reloaded[index]),
        ),
{
}

impl MenuState {
    /// The state in which the program starts: the main menu.
    pub fn new() -> (menu: MenuState)
        ensures
            menu@ == MenuView::MainMenu,
    {
        MenuState::MainMenu
    }

    /// The title of the screen.
    pub fn menu_name(&self) -> (name: &'static str)
        ensures
            name@ == self@.name(),
    {
        match self {
            MenuState::MainMenu => "Main Menu",
            MenuState::PauseMenu(_) => "Pause Menu",
            MenuState::LevelSelect(_) => "Level Selection",
            MenuState::InGame(_) => "",
        }
    }

    /// Shows the level selection screen with the given levels, whatever was
    /// shown before.
    pub fn open_level_selection(&mut self, levels: Vec<LevelTemplate>)
        ensures
            final(self)@ == MenuView::level_selection(level_views(levels@)),
    {
        *self = MenuState::LevelSelect(LevelSelectState(levels));
    }

    /// Handles "start": from the main menu the level selection screen is
    /// shown with the levels that were loaded.
    pub fn start(&mut self, levels: Vec<LevelTemplate>)
        ensures
            final(self)@ == old(self)@.after_start(level_views(levels@)),
    {
        let from_main = match self {
            MenuState::MainMenu => true,
            _ => false,
        };
        if from_main {
            self.open_level_selection(levels);
        }
    }

    /// Handles the choice of a level: from the level selection screen a
    /// fresh game on the level at `index` is started.
    pub fn choose_level(&mut self, index: usize)
        ensures
            final(self)@ == old(self)@.after_choice(index as int),
    {
        let mut state = MenuState::MainMenu;
        core::mem::swap(self, &mut state);
        match state {
            MenuState::LevelSelect(LevelSelectState(mut levels)) => {
                if index < levels.len() {
                    let ghost chosen = levels@[index as int]@;
                    assert(level_views(levels@)[index as int] == chosen);
                    let level = levels.swap_remove(index);
                    *self = MenuState::InGame(GameState::new(level));
                } else {
                    *self = MenuState::LevelSelect(LevelSelectState(levels));
                }
            },
            other => {
                *self = other;
            },
        }
    }

    /// Handles "continue": from the pause menu the game goes on.
    pub fn resume(&mut self)
        ensures
            final(self)@ == old(self)@.after_continue(),
    {
        let mut state = MenuState::MainMenu;
        core::mem::swap(self, &mut state);
        match state {
            MenuState::PauseMenu(game) => {
                *self = MenuState::InGame(game);
            },
            other => {
                *self = other;
            },
        }
    }

    /// Tells whether the escape key leads to the level selection screen, so
    /// that the levels have to be loaded before it is handled.
    pub fn escape_reloads(&self) -> (b: bool)
        ensures
            b == self@.escape_reloads(),
    {
        match self {
            MenuState::PauseMenu(_) => true,
            _ => false,
        }
    }

    /// Handles the escape key. `reloaded` holds the levels that were loaded
    /// anew; they are shown where the pause menu is left, and dropped
    /// otherwise.
    pub fn handle_esc(&mut self, reloaded: Vec<LevelTemplate>) -> (action: UpdateAction)
        ensures
            (final(self)@, action) == old(self)@.after_escape(level_views(reloaded@)),
    {
        let mut state = MenuState::MainMenu;
        core::mem::swap(self, &mut state);
        match state {
            MenuState::MainMenu => UpdateAction::Close,
            MenuState::LevelSelect(_) => UpdateAction::Nothing,
            MenuState::InGame(game) => {
                *self = MenuState::PauseMenu(game);
                UpdateAction::Nothing
            },
            MenuState::PauseMenu(_) => {
                self.open_level_selection(reloaded);
                UpdateAction::Nothing
            },
        }
    }

    /// Handles a key that went down or up: a running game takes note of it.
    pub fn handle_input(&mut self, key: u32, pressed: bool)
        ensures
            final(self)@ == old(self)@.after_key(key, pressed),
    {
        let mut state = MenuState::MainMenu;
        core::mem::swap(self, &mut state);
        match state {
            MenuState::InGame(mut game) => {
                if pressed {
                    game.press(key);
                } else {
                    game.release(key);
                }
                *self = MenuState::InGame(game);
            },
            other => {
                *self = other;
            },
        }
    }

    /// Handles a tick of `dt` millionths of a second: a running game
    /// advances.
    pub fn update(&mut self, dt: u64)
        ensures
            final(self)@ == old(self)@.after_tick(dt),
    {
        let mut state = MenuState::MainMenu;
        core::mem::swap(self, &mut state);
        match state {
            MenuState::InGame(mut game) => {
                game.tick(dt);
                *self = MenuState::InGame(game);
            },
            other => {
                *self = other;
            },
        }
    }
}

impl MenuState {
    /// Handles an event: the state moves as the transition table says, and
    /// the answer tells what the host has to do.
    pub fn handle(&mut self, event: MenuEvent) -> (action: UpdateAction)
        ensures
            (final(self)@, action) == old(self)@.step(event@),
    {
        match event {
            MenuEvent::Start(levels) => {
                self.start(levels);
                UpdateAction::Nothing
            },
            MenuEvent::Escape(reloaded) => self.handle_esc(reloaded),
            MenuEvent::LevelChosen(index) => {
                self.choose_level(index);
                UpdateAction::Nothing
            },
            MenuEvent::Continue => {
                self.resume();
                UpdateAction::Nothing
            },
            MenuEvent::Key { code, pressed } => {
                self.handle_input(code, pressed);
                UpdateAction::Nothing
            },
            MenuEvent::Tick(dt) => {
                self.update(dt);
                UpdateAction::Nothing
            },
        }
    }
}

/// Code of the escape key.
pub const KEY_ESCAPE: u32 = 0x1B;

/// Code of the key that switches full-screen display.
pub const KEY_FULLSCREEN: u32 = 0x4000_0044;

/// The menu together with the display setting that no screen owns.
#[derive(Debug)]
pub struct Session {
    pub menu: MenuState,
    pub fullscreen: bool,
}

/// What a session is.
pub struct SessionView {
    pub menu: MenuView,
    pub fullscreen: bool,
}

impl View for Session {
    type V = SessionView;

    open spec fn view(&self) -> SessionView {
        SessionView { menu: self.menu@, fullscreen: self.fullscreen }
    }
}

impl SessionView {
    /// The session after a key was released, and what the host has to do.
    /// The full-screen key switches the display setting and leaves the menu
    /// alone; the escape key goes to the menu and leaves the display setting
    /// alone; no other key does anything.
    pub open spec fn after_release(self, key: u32, reloaded: Seq<LevelView>) -> (
        SessionView,
        UpdateAction,
    ) {
        if key == KEY_FULLSCREEN {
            (SessionView { fullscreen: !self.fullscreen, ..self }, UpdateAction::Nothing)
        } else if key == KEY_ESCAPE {
            (
                SessionView { menu: self.menu.after_escape(reloaded).0, ..self },
                self.menu.after_escape(reloaded).1,
            )
        } else {
            (self, UpdateAction::Nothing)
        }
    }
}

impl Session {
    /// The session in which the program starts: the main menu, in a window.
    pub fn new() -> (session: Session)
        ensures
            session@ == (SessionView { menu: MenuView::MainMenu, fullscreen: false }),
    {
        Session { menu: MenuState::new(), fullscreen: false }
    }

    /// Handles the release of a key. `reloaded` holds the levels that were
    /// loaded anew, for the case that the escape key leaves the pause menu.
    pub fn key_released(&mut self, key: u32, reloaded: Vec<LevelTemplate>) -> (action:
        UpdateAction)
        ensures
            (final(self)@, action) == old(self)@.after_release(key, level_views(reloaded@)),
    {
        if key == KEY_FULLSCREEN {
            toggle_fullscreen(&mut self.fullscreen);
            UpdateAction::Nothing
        } else if key == KEY_ESCAPE {
            self.menu.handle_esc(reloaded)
        } else {
            UpdateAction::Nothing
        }
    }
}

/// Turns full-screen display on where it was off, and off where it was on;
/// answers the new setting, which the host applies to its window.
pub fn toggle_fullscreen(current: &mut bool) -> (now: bool)
    ensures
        *final(current) == !*old(current),
        now == *final(current),
{
    *current = !*current;
    *current
}

} // verus!
