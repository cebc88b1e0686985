//! The program's state: which scene is active (one of the menus, or a
//! game), the chosen difficulty, and where on the terminal the game is
//! drawn; how events act on it and how one scene leads to the next.

use vstd::prelude::*;
use crate::events::{Event, Key, MouseEvent, MouseEventKind, is_click, is_submit_key};
use crate::game::{Difficulty, Game, GameResult, TOTAL_HEIGHT, TOTAL_WIDTH};
use crate::geometry::{
    Area, bordered_inner, centered, centered_area, rect_offset, rect_resize, spec_bordered_inner,
    spec_offset, spec_resize,
};
use crate::main_widget::{always_room, can_draw, can_draw_words, placement_can_stall};
use crate::menu::{Menu, MenuResult, menu_head, OPTIONS_HEIGHT};
use crate::text::{spec_line_count, decimal, parse_decimal, spec_decimal, spec_parse_decimal, lemma_parse_decimal_round_trip};
use crate::wordlists::WordLists;

verus! {

/// Width the terminal needs for the game.
pub const TERMINAL_WIDTH: u16 = TOTAL_WIDTH;
/// Height the terminal needs for the game.
pub const TERMINAL_HEIGHT: u16 = TOTAL_HEIGHT;

/// The options of the main menu.
pub open spec fn main_menu_options() -> Seq<Seq<char>> {
    seq!["Play"@, "Change Difficulty: Word Length"@, "Change Difficulty: Word Count"@]
}

/// The options of the word-length menu.
pub open spec fn word_length_options() -> Seq<Seq<char>> {
    seq!["Novice (4)"@, "Advanced (6)"@, "Expert (8)"@, "Master (10)"@]
}

/// The word lengths the word-length menu offers, in its order.
pub open spec fn word_lengths() -> Seq<usize> {
    seq![4usize, 6usize, 8usize, 10usize]
}

/// The options of the word-count menu: the numbers 5 to 20.
pub open spec fn word_count_options() -> Seq<Seq<char>> {
    Seq::new(16, |i: int| spec_decimal((i + 5) as nat))
}

/// The word length an option of the word-length menu stands for.
pub open spec fn spec_option_to_word_length(option: Seq<char>) -> Option<usize> {
    if option == "Novice (4)"@ {
        Some(4)
    } else if option == "Advanced (6)"@ {
        Some(6)
    } else if option == "Expert (8)"@ {
        Some(8)
    } else if option == "Master (10)"@ {
        Some(10)
    } else {
        None
    }
}

/// A freshly opened menu with the given text, options and selection.
pub open spec fn is_fresh_menu(m: Menu, text: Seq<char>, options: Seq<Seq<char>>, selected: nat) -> bool {
    &&& m.wf()
    &&& m.head() == menu_head()
    &&& m.text_view() == text
    &&& m.option_texts() == options
    &&& m.selection() == selected
    &&& m.outcome() is None
    &&& !m.clickable()
}

/// The main menu as it opens.
pub open spec fn is_main_menu(scene: ActiveScene) -> bool {
    scene matches ActiveScene::MainMenu(m) && is_fresh_menu(m, "What do you want to do?"@, main_menu_options(), 0)
}

/// The word-length menu as it opens, the current length selected.
pub open spec fn is_word_length_menu(scene: ActiveScene, word_length: usize) -> bool {
    scene matches ActiveScene::WordLengthMenu(m) && is_fresh_menu(
        m,
        "Choose a difficulty:"@,
        word_length_options(),
        word_lengths().index_of(word_length) as nat,
    )
}

/// The word-count menu as it opens, the current count selected.
pub open spec fn is_word_count_menu(scene: ActiveScene, word_count: usize) -> bool {
    scene matches ActiveScene::WordCountMenu(m) && is_fresh_menu(
        m,
        "Choose the number of words:"@,
        word_count_options(),
        (word_count - 5) as nat,
    )
}

/// A difficulty the menus can show: one of their word lengths and a word
/// count from 5 to 20.
pub open spec fn difficulty_valid(d: Difficulty) -> bool {
    &&& word_lengths().contains(d.word_length)
    &&& 5 <= d.word_count <= 20
}

/// The word lists hold, for every length the menus offer, at least twenty
/// different ASCII words of that length.
pub open spec fn lists_adequate(wordlists: Seq<(usize, Vec<String>)>) -> bool {
    forall|i: int| 0 <= i < 4 ==> can_draw_words(wordlists, #[trigger] word_lengths()[i], 20)
}

/// Tells whether the word lists are adequate: for every length the menus
/// offer, at least twenty different ASCII words of that length.
pub fn check_word_lists(wordlists: &WordLists) -> (b: bool)
    ensures
        b == lists_adequate(wordlists@),
{
    let lengths: Vec<usize> = vec![4, 6, 8, 10];
    assert(lengths@ =~= word_lengths());
    let mut i: usize = 0;
    while i < lengths.len()
        invariant
            i <= lengths.len(),
            lengths@ == word_lengths(),
            forall|k: int| 0 <= k < i ==> can_draw_words(wordlists@, #[trigger] word_lengths()[k], 20),
        decreases lengths.len() - i,
    {
        if !can_draw(wordlists, lengths[i], 20) {
            return false;
        }
        i = i + 1;
    }
    true
}

/// The scene that is shown.
pub enum ActiveScene {
    MainMenu(Menu),
    WordLengthMenu(Menu),
    WordCountMenu(Menu),
    Game(Game),
}

/// Every menu is consistent, has its own options and a text that fits above
/// them; a game is consistent.
pub open spec fn scene_wf(scene: ActiveScene) -> bool {
    match scene {
        ActiveScene::MainMenu(m) => m.wf() && m.option_texts() == main_menu_options() && spec_line_count(m.text_view())
            <= OPTIONS_HEIGHT,
        ActiveScene::WordLengthMenu(m) => m.wf() && m.option_texts() == word_length_options() && spec_line_count(
            m.text_view(),
        ) <= OPTIONS_HEIGHT,
        ActiveScene::WordCountMenu(m) => m.wf() && m.option_texts() == word_count_options() && spec_line_count(
            m.text_view(),
        ) <= OPTIONS_HEIGHT,
        ActiveScene::Game(g) => g.wf(),
    }
}

/// The menu of a menu scene.
pub open spec fn scene_menu(scene: ActiveScene) -> Option<Menu> {
    match scene {
        ActiveScene::MainMenu(m) => Some(m),
        ActiveScene::WordLengthMenu(m) => Some(m),
        ActiveScene::WordCountMenu(m) => Some(m),
        ActiveScene::Game(_) => None,
    }
}

/// The scene can take the key: a menu can take `e` only while an option is
/// selected (else choosing would index past the options).
pub open spec fn scene_accepts_key(scene: ActiveScene, key: Key) -> bool {
    match scene_menu(scene) {
        Some(m) => is_submit_key(key) ==> m.selection() < m.option_texts().len(),
        None => true,
    }
}

/// The scene can take the mouse event: a menu can take a click only while
/// it is not clickable or an option is selected.
pub open spec fn scene_accepts_mouse(scene: ActiveScene, mouse_event: MouseEvent) -> bool {
    match scene_menu(scene) {
        Some(m) => is_click(mouse_event.kind) && m.clickable() ==> m.selection() < m.option_texts().len(),
        None => true,
    }
}

/// Same kind of scene, and the key acted on it as on that menu or game.
pub open spec fn scene_key_handled(pre: ActiveScene, post: ActiveScene, key: Key) -> bool {
    match (pre, post) {
        (ActiveScene::MainMenu(a), ActiveScene::MainMenu(b)) => Menu::key_handled(&a, &b, key),
        (ActiveScene::WordLengthMenu(a), ActiveScene::WordLengthMenu(b)) => Menu::key_handled(&a, &b, key),
        (ActiveScene::WordCountMenu(a), ActiveScene::WordCountMenu(b)) => Menu::key_handled(&a, &b, key),
        (ActiveScene::Game(a), ActiveScene::Game(b)) => Game::key_handled(&a, &b, key),
        _ => false,
    }
}

/// Same kind of scene, and the mouse event acted on it as on that menu or
/// game.
pub open spec fn scene_mouse_handled(pre: ActiveScene, post: ActiveScene, mouse_event: MouseEvent) -> bool {
    match (pre, post) {
        (ActiveScene::MainMenu(a), ActiveScene::MainMenu(b)) => Menu::mouse_handled(&a, &b, mouse_event),
        (ActiveScene::WordLengthMenu(a), ActiveScene::WordLengthMenu(b)) => Menu::mouse_handled(&a, &b, mouse_event),
        (ActiveScene::WordCountMenu(a), ActiveScene::WordCountMenu(b)) => Menu::mouse_handled(&a, &b, mouse_event),
        (ActiveScene::Game(a), ActiveScene::Game(b)) => Game::mouse_handled(&a, &b, mouse_event),
        _ => false,
    }
}

/// What a tick does to the scene, and whether it asks for a redraw: a menu
/// stays as it is and asks for none; a game ticks (see `Game::ticked`).
pub open spec fn scene_ticked(pre: ActiveScene, post: ActiveScene, redraw: bool) -> bool {
    match pre {
        ActiveScene::Game(a) => post matches ActiveScene::Game(b) && Game::ticked(&a, &b, redraw),
        _ => post == pre && !redraw,
    }
}

impl ActiveScene {
    /// One tick; tells whether the scene needs to be drawn again.
    pub fn tick(&mut self) -> (redraw: bool)
        requires
            scene_wf(*old(self)),
        ensures
            scene_wf(*final(self)),
            scene_ticked(*old(self), *final(self), redraw),
    {
        match self {
            ActiveScene::MainMenu(menu) => menu.tick(),
            ActiveScene::WordLengthMenu(menu) => menu.tick(),
            ActiveScene::WordCountMenu(menu) => menu.tick(),
            ActiveScene::Game(game) => game.tick(),
        }
    }

    /// Hands the key to the menu or game.
    pub fn handle_key_event(&mut self, key: Key)
        requires
            scene_wf(*old(self)),
            scene_accepts_key(*old(self), key),
        ensures
            scene_wf(*final(self)),
            scene_key_handled(*old(self), *final(self), key),
    {
        match self {
            ActiveScene::MainMenu(menu) => menu.handle_key_event(key),
            ActiveScene::WordLengthMenu(menu) => menu.handle_key_event(key),
            ActiveScene::WordCountMenu(menu) => menu.handle_key_event(key),
            ActiveScene::Game(game) => game.handle_key_event(key),
        }
    }

    /// Hands the mouse event to the menu or game.
    pub fn handle_mouse_event(&mut self, mouse_event: MouseEvent)
        requires
            scene_wf(*old(self)),
            scene_accepts_mouse(*old(self), mouse_event),
        ensures
            scene_wf(*final(self)),
            scene_mouse_handled(*old(self), *final(self), mouse_event),
    {
        match self {
            ActiveScene::MainMenu(menu) => menu.handle_mouse_event(mouse_event),
            ActiveScene::WordLengthMenu(menu) => menu.handle_mouse_event(mouse_event),
            ActiveScene::WordCountMenu(menu) => menu.handle_mouse_event(mouse_event),
            ActiveScene::Game(game) => game.handle_mouse_event(mouse_event),
        }
    }
}

/// The main menu.
pub struct MainMenu;

impl MainMenu {
    /// The main menu as it opens: play, or change one part of the
    /// difficulty.
    pub fn create() -> (scene: ActiveScene)
        ensures
            is_main_menu(scene),
            scene_wf(scene),
    {
        let mut options: Vec<String> = Vec::new();
        options.push(String::from_str("Play"));
        options.push(String::from_str("Change Difficulty: Word Length"));
        options.push(String::from_str("Change Difficulty: Word Count"));
        proof {
            reveal_strlit("What do you want to do?");
            crate::menu::lemma_no_newline_one_line("What do you want to do?"@);
            assert(options@.map_values(|s: String| s@) =~= main_menu_options());
        }
        ActiveScene::MainMenu(Menu::with_options(options, "What do you want to do?", 0))
    }
}

/// The menu that chooses the word length.
pub struct WordLengthMenu;

impl WordLengthMenu {
    /// The word length an option stands for.
    pub fn option_to_word_length(option: &str) -> (r: Option<usize>)
        ensures
            r == spec_option_to_word_length(option@),
    {
        let s = String::from_str(option);
        proof {
            reveal_strlit("Novice (4)");
            reveal_strlit("Advanced (6)");
            reveal_strlit("Expert (8)");
            reveal_strlit("Master (10)");
        }
        if s == String::from_str("Novice (4)") {
            Some(4)
        } else if s == String::from_str("Advanced (6)") {
            Some(6)
        } else if s == String::from_str("Expert (8)") {
            Some(8)
        } else if s == String::from_str("Master (10)") {
            Some(10)
        } else {
            None
        }
    }

    /// The word-length menu as it opens, the given length selected.
    pub fn create(word_length: usize) -> (scene: ActiveScene)
        requires
            word_lengths().contains(word_length),
        ensures
            is_word_length_menu(scene, word_length),
            scene_wf(scene),
    {
        let mut options: Vec<String> = Vec::new();
        options.push(String::from_str("Novice (4)"));
        options.push(String::from_str("Advanced (6)"));
        options.push(String::from_str("Expert (8)"));
        options.push(String::from_str("Master (10)"));
        let lengths: Vec<usize> = vec![4, 6, 8, 10];
        assert(lengths@ =~= word_lengths());
        let mut preselected: usize = 0;
        while preselected < lengths.len() && lengths[preselected] != word_length
            invariant
                lengths@ == word_lengths(),
                word_lengths().contains(word_length),
                preselected <= lengths.len(),
                forall|j: int| 0 <= j < preselected ==> lengths@[j] != word_length,
            decreases lengths.len() - preselected,
        {
            preselected = preselected + 1;
        }
        proof {
            if preselected == lengths.len() {
                let j = choose|j: int| 0 <= j < 4 && word_lengths()[j] == word_length;
                assert(lengths@[j] == word_length);
            }
            assert(word_lengths()[preselected as int] == word_length);
            assert(word_lengths().index_of(word_length) == preselected) by {
                word_lengths().index_of_first_ensures(word_length);
                assert(word_lengths().index_of_first(word_length) is Some);
            }
            reveal_strlit("Choose a difficulty:");
            crate::menu::lemma_no_newline_one_line("Choose a difficulty:"@);
            assert(options@.map_values(|s: String| s@) =~= word_length_options());
        }
        ActiveScene::WordLengthMenu(Menu::with_options(options, "Choose a difficulty:", preselected))
    }
}

/// The menu that chooses the word count.
pub struct WordCountMenu;

impl WordCountMenu {
    /// The word count an option stands for: the number it shows.
    pub fn option_to_word_count(option: &str) -> (r: Option<usize>)
        ensures
            r matches Some(n) ==> spec_parse_decimal(option@) == Some(n as nat),
            r is None ==> spec_parse_decimal(option@) is None,
    {
        parse_decimal(option)
    }

    /// The word-count menu as it opens, the given count selected.
    pub fn create(word_count: usize) -> (scene: ActiveScene)
        requires
            5 <= word_count <= 20,
        ensures
            is_word_count_menu(scene, word_count),
            scene_wf(scene),
    {
        let mut options: Vec<String> = Vec::new();
        let mut n: usize = 5;
        while n <= 20
            invariant
                5 <= n <= 21,
                options@.map_values(|s: String| s@) == word_count_options().subrange(0, n - 5),
            decreases 21 - n,
        {
            let ghost before = options@.map_values(|s: String| s@);
            let d = decimal(n);
            options.push(d);
            assert(options@.map_values(|s: String| s@) =~= before.push(d@));
            assert(word_count_options()[n - 5] == spec_decimal(n as nat));
            assert(word_count_options().subrange(0, n - 4) =~= word_count_options().subrange(0, n - 5).push(
                spec_decimal(n as nat),
            ));
            n = n + 1;
        }
        assert(word_count_options().subrange(0, 16) =~= word_count_options());
        let mut preselected: usize = 0;
        let mut found = false;
        while !found && preselected < options.len()
            invariant
                options@.map_values(|s: String| s@) == word_count_options(),
                options.len() == 16,
                5 <= word_count <= 20,
                preselected <= word_count - 5,
                found ==> preselected == word_count - 5,
            decreases options.len() - preselected + if found { 0int } else { 1int },
        {
            let text = options[preselected].as_str();
            proof {
                assert(options@.map_values(|s: String| s@)[preselected as int] == options@[preselected as int]@);
                lemma_parse_decimal_round_trip((preselected + 5) as usize);
            }
            let value = match WordCountMenu::option_to_word_count(text) {
                Some(v) => v,
                None => {
                    assert(false);
                    0
                },
            };
            if value == word_count {
                found = true;
            } else {
                preselected = preselected + 1;
            }
        }
        proof {
            reveal_strlit("Choose the number of words:");
            crate::menu::lemma_no_newline_one_line("Choose the number of words:"@);
        }
        ActiveScene::WordCountMenu(Menu::with_options(options, "Choose the number of words:", preselected))
    }
}

/// The program's state.
pub struct App {
    should_exit: bool,
    active_scene: ActiveScene,
    areas: Option<(Option<Area>, Area)>,
    difficulty: Difficulty,
    wordlists: WordLists,
}

/// The whole terminal of the given size.
pub open spec fn screen(columns: u16, rows: u16) -> Area {
    Area { x: 0, y: 0, width: columns, height: rows }
}

/// Where the game goes inside its border: the inside of the border, one
/// column narrower on each side.
pub open spec fn spec_terminal_area_in(border: Area) -> Area {
    let inner = spec_bordered_inner(border);
    spec_offset(spec_resize(inner, (inner.width - 2) as u16, inner.height), 1, 0)
}

/// The areas `resize` gives for a terminal of the given size: none when it
/// is too small; a border and the game inside it when there is room for
/// the border; else the game alone, centred. `None` would stand for a border
/// whose inside is less than two columns wide; `resize` shows that the
/// border it centres is never so narrow.
pub open spec fn spec_areas(columns: u16, rows: u16) -> Option<Option<(Option<Area>, Area)>> {
    if columns < TERMINAL_WIDTH || rows < TERMINAL_HEIGHT {
        Some(None)
    } else if columns >= TERMINAL_WIDTH + 4 && rows >= TERMINAL_HEIGHT + 2 {
        let border = centered_area(screen(columns, rows), (TERMINAL_WIDTH + 4) as u16, (TERMINAL_HEIGHT + 2) as u16);
        if spec_bordered_inner(border).width >= 2 {
            Some(Some((Some(border), spec_terminal_area_in(border))))
        } else {
            None
        }
    } else {
        Some(Some((None, centered_area(screen(columns, rows), TERMINAL_WIDTH, TERMINAL_HEIGHT))))
    }
}

/// The key leaves the program.
pub open spec fn is_quit_key(key: Key) -> bool {
    key == Key::Char('q') || key == Key::Char('Q') || key == Key::Esc
}

/// The mouse event moved from terminal coordinates into those of the game
/// area at `(x, y)`.
pub open spec fn shifted(m: MouseEvent, x: u16, y: u16) -> MouseEvent {
    MouseEvent { kind: m.kind, column: (m.column - x) as u16, row: (m.row - y) as u16 }
}

/// The terminal area's edges fit in `u16`.
pub open spec fn area_edges_fit(a: Area) -> bool {
    a.x + a.width <= u16::MAX && a.y + a.height <= u16::MAX
}

/// The cell lies inside the area.
pub open spec fn in_area(a: Area, column: u16, row: u16) -> bool {
    a.x <= column < a.x + a.width && a.y <= row < a.y + a.height
}

impl App {
    /// The active scene.
    pub closed spec fn scene(&self) -> ActiveScene {
        self.active_scene
    }

    /// The program is to end.
    pub closed spec fn exiting(&self) -> bool {
        self.should_exit
    }

    /// Where the border and the game are drawn, if the terminal is big enough.
    pub closed spec fn areas(&self) -> Option<(Option<Area>, Area)> {
        self.areas
    }

    /// The chosen difficulty.
    pub closed spec fn difficulty(&self) -> Difficulty {
        self.difficulty
    }

    /// The word lists.
    pub closed spec fn wordlists(&self) -> Seq<(usize, Vec<String>)> {
        self.wordlists@
    }

    /// The scene, the difficulty and the word lists are consistent.
    pub open spec fn wf(&self) -> bool {
        &&& scene_wf(self.scene())
        &&& difficulty_valid(self.difficulty())
        &&& lists_adequate(self.wordlists())
    }

    /// Everything but the scene kept.
    pub open spec fn same_but_scene(&self, other: &App) -> bool {
        &&& self.exiting() == other.exiting()
        &&& self.areas() == other.areas()
        &&& self.difficulty() == other.difficulty()
        &&& self.wordlists() == other.wordlists()
    }

    /// The program at its start: the main menu, novice difficulty, no areas.
    pub fn new(wordlists: WordLists) -> (app: App)
        requires
            lists_adequate(wordlists@),
        ensures
            app.wf(),
            is_main_menu(app.scene()),
            !app.exiting(),
            app.areas() is None,
            app.difficulty() == Difficulty::novice_spec(),
            app.wordlists() == wordlists@,
    {
        let app = App {
            should_exit: false,
            active_scene: MainMenu::create(),
            areas: None,
            difficulty: Difficulty::novice(),
            wordlists,
        };
        assert(word_lengths()[0] == 4);
        app
    }

    /// Ends the program.
    fn exit(&mut self)
        ensures
            final(self).exiting(),
            final(self).scene() == old(self).scene(),
            final(self).areas() == old(self).areas(),
            final(self).difficulty() == old(self).difficulty(),
            final(self).wordlists() == old(self).wordlists(),
    {
        self.should_exit = true;
    }

    /// The program is to end.
    pub fn should_exit(&self) -> (b: bool)
        ensures
            b == self.exiting(),
    {
        self.should_exit
    }

    /// One tick of the active scene; tells whether to draw again.
    pub fn tick(&mut self) -> (redraw: bool)
        requires
            old(self).wf(),
        ensures
            final(self).wf(),
            final(self).same_but_scene(old(self)),
            scene_ticked(old(self).scene(), final(self).scene(), redraw),
    {
        self.active_scene.tick()
    }

    /// The chosen difficulty.
    pub fn current_difficulty(&self) -> (d: Difficulty)
        ensures
            d == self.difficulty(),
    {
        self.difficulty
    }

    /// The active scene, for drawing.
    pub fn active_scene(&self) -> (s: &ActiveScene)
        ensures
            *s == self.scene(),
    {
        &self.active_scene
    }

    /// Where the border and the game are drawn.
    pub fn layout_areas(&self) -> (a: Option<(Option<Area>, Area)>)
        ensures
            a == self.areas(),
    {
        self.areas
    }

    /// The area of the game inside a border drawn over `border`.
    pub fn terminal_area_in(border: Area) -> (a: Area)
        requires
            spec_bordered_inner(border).width >= 2,
        ensures
            a == spec_terminal_area_in(border),
    {
        let inner_area = bordered_inner(border);
        rect_offset(rect_resize(inner_area, inner_area.width - 2, inner_area.height), 1, 0)
    }

    /// Lays the game out on a terminal of the given size: the game area is
    /// always 54 by 22 cells, its border 58 by 24.
    pub fn resize(&mut self, columns: u16, rows: u16)
        ensures
            final(self).areas() == match spec_areas(columns, rows) {
                Some(a) => a,
                None => old(self).areas(),
            },
            spec_areas(columns, rows) is Some,
            spec_areas(columns, rows) matches Some(Some((border, game))) ==> {
                &&& game.width == TERMINAL_WIDTH
                &&& game.height == TERMINAL_HEIGHT
                &&& border matches Some(b) ==> b.width == TERMINAL_WIDTH + 4 && b.height == TERMINAL_HEIGHT + 2
            },
            final(self).scene() == old(self).scene(),
            final(self).exiting() == old(self).exiting(),
            final(self).difficulty() == old(self).difficulty(),
            final(self).wordlists() == old(self).wordlists(),
    {
        let area = Area { x: 0, y: 0, width: columns, height: rows };
        if area.width < TERMINAL_WIDTH || area.height < TERMINAL_HEIGHT {
            self.areas = None;
            return;
        }
        if area.width >= TERMINAL_WIDTH + 4 && area.height >= TERMINAL_HEIGHT + 2 {
            let border_area = centered(area, TERMINAL_WIDTH + 4, TERMINAL_HEIGHT + 2);
            if bordered_inner(border_area).width < 2 {
                return;
            }
            let terminal_area = App::terminal_area_in(border_area);
            self.areas = Some((Some(border_area), terminal_area));
        } else {
            self.areas = Some((None, centered(area, TERMINAL_WIDTH, TERMINAL_HEIGHT)));
        }
    }
}

/// The event can be handled: a key or click that would choose a menu option
/// while the selection lies past the last option cannot (see
/// `scene_accepts_key` and `scene_accepts_mouse`).
pub open spec fn app_accepts(app: &App, event: Event) -> bool {
    match event {
        Event::Key(k) => !is_quit_key(k) && app.areas() is Some ==> scene_accepts_key(app.scene(), k),
        Event::Mouse(m) => match app.areas() {
            Some((_, t)) => area_edges_fit(t) && in_area(t, m.column, m.row) ==> scene_accepts_mouse(
                app.scene(),
                shifted(m, t.x, t.y),
            ),
            None => true,
        },
        _ => true,
    }
}

/// What an event does to the program, from `pre` to `post`: a quit key ends
/// it, a new terminal size lays the game out anew; without a layout nothing
/// else has an effect; other keys go to the scene, and so do mouse events
/// inside the game area, in the game area's coordinates. A mouse event is
/// dropped when the game area's right or bottom edge is past `u16::MAX`.
pub open spec fn event_handled(pre: &App, post: &App, event: Event) -> bool {
    match event {
        Event::Key(k) => if is_quit_key(k) {
            &&& post.exiting()
            &&& post.scene() == pre.scene()
            &&& post.areas() == pre.areas()
            &&& post.difficulty() == pre.difficulty()
            &&& post.wordlists() == pre.wordlists()
        } else if pre.areas() is None {
            *post == *pre
        } else {
            &&& post.same_but_scene(pre)
            &&& scene_key_handled(pre.scene(), post.scene(), k)
        },
        Event::Resize(columns, rows) => {
            &&& post.areas() == match spec_areas(columns, rows) {
                Some(a) => a,
                None => pre.areas(),
            }
            &&& post.scene() == pre.scene()
            &&& post.exiting() == pre.exiting()
            &&& post.difficulty() == pre.difficulty()
            &&& post.wordlists() == pre.wordlists()
        },
        Event::Mouse(m) => match pre.areas() {
            Some((_, t)) => if area_edges_fit(t) && in_area(t, m.column, m.row) {
                &&& post.same_but_scene(pre)
                &&& scene_mouse_handled(pre.scene(), post.scene(), shifted(m, t.x, t.y))
            } else {
                *post == *pre
            },
            None => *post == *pre,
        },
        Event::Other => *post == *pre,
    }
}

impl App {
    /// Tells whether the event can be handled (see `app_accepts`).
    pub fn accepts(&self, event: Event) -> (b: bool)
        ensures
            b == app_accepts(self, event),
    {
        let menu = match &self.active_scene {
            ActiveScene::MainMenu(m) => m,
            ActiveScene::WordLengthMenu(m) => m,
            ActiveScene::WordCountMenu(m) => m,
            ActiveScene::Game(_) => {
                return true;
            },
        };
        match event {
            Event::Key(k) => {
                if k == Key::Char('q') || k == Key::Char('Q') || k == Key::Esc || self.areas.is_none() {
                    return true;
                }
                !(k == Key::Char('e')) || menu.selected() < menu.options().len()
            },
            Event::Mouse(m) => match self.areas {
                Some((_, t)) => {
                    if (t.x as u32) + (t.width as u32) > 65535 || (t.y as u32) + (t.height as u32) > 65535 {
                        return true;
                    }
                    let inside = t.x <= m.column && (m.column as u32) < (t.x as u32) + (t.width as u32)
                        && t.y <= m.row && (m.row as u32) < (t.y as u32) + (t.height as u32);
                    if !inside {
                        return true;
                    }
                    !(crate::events::is_left_or_right_click(m.kind) && menu.is_clickable()) || menu.selected()
                        < menu.options().len()
                },
                None => true,
            },
            _ => true,
        }
    }

    /// Acts on an input event.
    pub fn handle_event(&mut self, event: Event)
        requires
            old(self).wf(),
            app_accepts(old(self), event),
        ensures
            final(self).wf(),
            event_handled(old(self), final(self), event),
    {
        match event {
            Event::Key(key) => {
                if key == Key::Char('q') || key == Key::Char('Q') || key == Key::Esc {
                    self.exit();
                    return;
                }
            },
            Event::Resize(columns, rows) => {
                self.resize(columns, rows);
                return;
            },
            _ => (),
        }
        let terminal_area = match self.areas {
            Some((_, t)) => t,
            None => {
                return;
            },
        };
        match event {
            Event::Key(key) => self.active_scene.handle_key_event(key),
            Event::Mouse(mouse_event) => {
                if (terminal_area.x as u32) + (terminal_area.width as u32) > 65535 || (terminal_area.y as u32)
                    + (terminal_area.height as u32) > 65535 {
                    return;
                }
                let col_start = terminal_area.x;
                let col_end = terminal_area.x + terminal_area.width;
                let row_start = terminal_area.y;
                let row_end = terminal_area.y + terminal_area.height;
                if col_start <= mouse_event.column && mouse_event.column < col_end && row_start <= mouse_event.row
                    && mouse_event.row < row_end {
                    let shifted_event = MouseEvent {
                        kind: mouse_event.kind,
                        column: mouse_event.column - col_start,
                        row: mouse_event.row - row_start,
                    };
                    self.active_scene.handle_mouse_event(shifted_event);
                }
            },
            _ => (),
        }
    }
}

/// What `handle_scene_transition` does, from `pre` to `post` with result
/// `r`: a menu that was left leads to the next scene (a chosen word length or
/// count becomes the difficulty, "Play" starts a game), a game left with Tab
/// leads back to the main menu, and a game that was won or lost ends the
/// program with its result. A scene that was not left stays as it is. A
/// game fails to start only when its random placement of the words stalled,
/// which can happen only where a stall is possible at all.
pub open spec fn transitioned(pre: &App, post: &App, r: Option<GameResult>) -> bool {
    match pre.scene() {
        ActiveScene::MainMenu(m) => match m.outcome() {
            None => *post == *pre && r is None,
            Some(None) => {
                &&& post.exiting()
                &&& post.scene() == pre.scene()
                &&& post.areas() == pre.areas()
                &&& post.difficulty() == pre.difficulty()
                &&& post.wordlists() == pre.wordlists()
                &&& r is None
            },
            Some(Some(option)) => {
                &&& post.same_but_scene(pre)
                &&& r is None
                &&& if option == "Play"@ {
                    ||| post.scene() matches ActiveScene::Game(g) && Game::is_new_game(&g, pre.wordlists(), pre.difficulty())
                    ||| post.scene() == pre.scene() && !always_room(
                        pre.difficulty().word_count,
                        pre.difficulty().word_length,
                    ) && placement_can_stall(pre.difficulty().word_count, pre.difficulty().word_length)
                } else if option == "Change Difficulty: Word Length"@ {
                    is_word_length_menu(post.scene(), pre.difficulty().word_length)
                } else {
                    is_word_count_menu(post.scene(), pre.difficulty().word_count)
                }
            },
        },
        ActiveScene::WordLengthMenu(m) => match m.outcome() {
            None => *post == *pre && r is None,
            Some(choice) => {
                &&& is_main_menu(post.scene())
                &&& post.exiting() == pre.exiting()
                &&& post.areas() == pre.areas()
                &&& post.wordlists() == pre.wordlists()
                &&& post.difficulty() == match choice {
                    Some(option) => Difficulty {
                        word_length: spec_option_to_word_length(option)->0,
                        word_count: pre.difficulty().word_count,
                    },
                    None => pre.difficulty(),
                }
                &&& r is None
            },
        },
        ActiveScene::WordCountMenu(m) => match m.outcome() {
            None => *post == *pre && r is None,
            Some(choice) => {
                &&& is_main_menu(post.scene())
                &&& post.exiting() == pre.exiting()
                &&& post.areas() == pre.areas()
                &&& post.wordlists() == pre.wordlists()
                &&& post.difficulty() == match choice {
                    Some(option) => Difficulty {
                        word_length: pre.difficulty().word_length,
                        word_count: spec_parse_decimal(option)->0 as usize,
                    },
                    None => pre.difficulty(),
                }
                &&& r is None
            },
        },
        ActiveScene::Game(g) => if !g.exiting() {
            *post == *pre && r is None
        } else if g.outcome() == GameResult::Terminated {
            &&& is_main_menu(post.scene())
            &&& post.same_but_scene(pre)
            &&& r is None
        } else {
            *post == *pre && r == Some(g.outcome())
        },
    }
}

/// Adequate word lists let a game of any valid difficulty draw its words.
proof fn lemma_adequate_can_draw(wordlists: Seq<(usize, Vec<String>)>, d: Difficulty)
    requires
        lists_adequate(wordlists),
        difficulty_valid(d),
    ensures
        can_draw_words(wordlists, d.word_length, d.word_count),
{
    let i = choose|i: int| 0 <= i < 4 && word_lengths()[i] == d.word_length;
    assert(can_draw_words(wordlists, word_lengths()[i], 20));
}

impl App {
    /// Moves on from a scene that was left (see `transitioned`).
    pub fn handle_scene_transition(&mut self) -> (r: Option<GameResult>)
        requires
            old(self).wf(),
        ensures
            final(self).wf(),
            transitioned(old(self), final(self), r),
    {
        proof {
            reveal_strlit("Play");
            reveal_strlit("Change Difficulty: Word Length");
            reveal_strlit("Change Difficulty: Word Count");
            reveal_strlit("Novice (4)");
            reveal_strlit("Advanced (6)");
            reveal_strlit("Expert (8)");
            reveal_strlit("Master (10)");
        }
        match &self.active_scene {
            ActiveScene::MainMenu(menu) => {
                let result = menu.should_exit();
                match result {
                    None => {},
                    Some(MenuResult::Exit) => self.exit(),
                    Some(MenuResult::Selected(selected_option)) => {
                        let option = selected_option;
                        if option == String::from_str("Play") {
                            proof {
                                lemma_adequate_can_draw(self.wordlists@, self.difficulty);
                            }
                            match Game::new(self.difficulty, &self.wordlists) {
                                Some(game) => self.active_scene = ActiveScene::Game(game),
                                None => {},
                            }
                        } else if option == String::from_str("Change Difficulty: Word Length") {
                            self.active_scene = WordLengthMenu::create(self.difficulty.word_length);
                        } else if option == String::from_str("Change Difficulty: Word Count") {
                            self.active_scene = WordCountMenu::create(self.difficulty.word_count);
                        } else {
                            proof {
                                assert(main_menu_options().contains(option@));
                                assert(false);
                            }
                        }
                    },
                }
            },
            ActiveScene::WordLengthMenu(menu) => {
                let result = menu.should_exit();
                match result {
                    None => {},
                    Some(menu_result) => {
                        match menu_result {
                            MenuResult::Exit => {},
                            MenuResult::Selected(selected_option) => {
                                proof {
                                    assert(word_length_options().contains(selected_option@));
                                }
                                match WordLengthMenu::option_to_word_length(selected_option.as_str()) {
                                    Some(word_length) => self.difficulty.word_length = word_length,
                                    None => {
                                        assert(false);
                                    },
                                }
                            },
                        }
                        self.active_scene = MainMenu::create();
                    },
                }
            },
            ActiveScene::WordCountMenu(menu) => {
                let result = menu.should_exit();
                match result {
                    None => {},
                    Some(menu_result) => {
                        match menu_result {
                            MenuResult::Exit => {},
                            MenuResult::Selected(selected_option) => {
                                proof {
                                    let k = choose|k: int| 0 <= k < 16 && word_count_options()[k] == selected_option@;
                                    lemma_parse_decimal_round_trip((k + 5) as usize);
                                }
                                match WordCountMenu::option_to_word_count(selected_option.as_str()) {
                                    Some(word_count) => self.difficulty.word_count = word_count,
                                    None => {
                                        assert(false);
                                    },
                                }
                            },
                        }
                        self.active_scene = MainMenu::create();
                    },
                }
            },
            ActiveScene::Game(game) => {
                if let Some(game_result) = game.should_exit() {
                    match game_result {
                        GameResult::Terminated => self.active_scene = MainMenu::create(),
                        GameResult::Hacked | GameResult::LockedOut => {
                            return Some(game_result);
                        },
                    }
                }
            },
        }
        None
    }
}

/// Every difficulty the menus offer leaves room for all its words, except
/// twenty words of ten letters, which may not fit.
pub proof fn lemma_room_for_difficulties(d: Difficulty)
    requires
        difficulty_valid(d),
        !(d.word_length == 10 && d.word_count == 20),
    ensures
        always_room(d.word_count, d.word_length),
{
    let c = d.word_count as int;
    let l = d.word_length as int;
    assert(word_lengths().contains(d.word_length));
    let i = choose|i: int| 0 <= i < 4 && word_lengths()[i] == d.word_length;
    assert((c - 1) * (2 * l + 1) + l < 408) by (nonlinear_arith)
        requires
            5 <= c <= 20,
            l == 4 || l == 6 || l == 8 || l == 10,
            !(l == 10 && c == 20),
    ;
}

/// Each option of the word-length menu gives the length it shows: the
/// option reads a name, a space, and the length in decimal in parentheses,
/// and choosing it gives that length; the `i`-th option gives the `i`-th
/// length, the one for which the menu opens with that option selected.
pub proof fn lemma_word_length_options_give_their_lengths(i: int)
    requires
        0 <= i < 4,
    ensures
        spec_option_to_word_length(word_length_options()[i]) == Some(word_lengths()[i]),
        exists|name: Seq<char>|
            word_length_options()[i] == name + seq![' ', '('] + spec_decimal(word_lengths()[i] as nat) + seq![')'],
{
    reveal_strlit("Novice (4)");
    reveal_strlit("Advanced (6)");
    reveal_strlit("Expert (8)");
    reveal_strlit("Master (10)");
    reveal_strlit("Novice");
    reveal_strlit("Advanced");
    reveal_strlit("Expert");
    reveal_strlit("Master");
    assert(spec_decimal(4) =~= seq!['4']);
    assert(spec_decimal(6) =~= seq!['6']);
    assert(spec_decimal(8) =~= seq!['8']);
    assert(spec_decimal(1) =~= seq!['1']);
    assert(spec_decimal(10) =~= seq!['1', '0']);
    assert("Novice (4)"@[0] == 'N' && "Advanced (6)"@[0] == 'A' && "Expert (8)"@[0] == 'E' && "Master (10)"@[0] == 'M');
    if i == 2 {
        assert("Expert (8)"@ != "Novice (4)"@ && "Expert (8)"@ != "Advanced (6)"@);
    } else if i == 3 {
        assert("Master (10)"@ != "Novice (4)"@ && "Master (10)"@ != "Advanced (6)"@ && "Master (10)"@ != "Expert (8)"@);
    } else if i == 1 {
        assert("Advanced (6)"@ != "Novice (4)"@);
    }
    if i == 0 {
        assert(word_length_options()[i] =~= "Novice"@ + seq![' ', '('] + spec_decimal(4) + seq![')']);
    } else if i == 1 {
        assert(word_length_options()[i] =~= "Advanced"@ + seq![' ', '('] + spec_decimal(6) + seq![')']);
    } else if i == 2 {
        assert(word_length_options()[i] =~= "Expert"@ + seq![' ', '('] + spec_decimal(8) + seq![')']);
    } else {
        assert(word_length_options()[i] =~= "Master"@ + seq![' ', '('] + spec_decimal(10) + seq![')']);
    }
}

/// Each option of the word-count menu gives the number it shows, and the
/// `i`-th option gives `i + 5`, the count for which the menu opens with that
/// option selected.
pub proof fn lemma_word_count_options_give_their_counts(i: int)
    requires
        0 <= i < 16,
    ensures
        spec_parse_decimal(word_count_options()[i]) == Some((i + 5) as nat),
        word_count_options()[i] == spec_decimal((i + 5) as nat),
{
    lemma_parse_decimal_round_trip((i + 5) as usize);
}

} // verus!
