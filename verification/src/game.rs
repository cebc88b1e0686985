//! A game: the three widgets together, how keys and the mouse act on them,
//! and how a game ends.

use vstd::prelude::*;
use crate::events::{Key, MouseEvent, MouseEventKind, MouseButton, is_click, is_submit_key};
use crate::geometry::{rect_contains, rect_new};
use crate::main_widget::{
    ClickResultKind, MainWidget, always_room, can_draw_words, generated, placement_can_stall, spec_cursor_at, spec_cursor_down,
    spec_cursor_left, spec_cursor_right, spec_cursor_up, lemma_click_ascii,
};
use crate::right_widget::{RightWidget, Submission, SubmissionKind, history_entries};
use crate::top_widget::TopWidget;
use crate::wordlists::WordLists;
use crate::cursor::CHARACTERS_TOTAL;

verus! {

/// Space between the widgets.
pub const WIDGET_SPACING: u16 = 1;
/// Width of the game: main widget, space, right widget.
pub const TOTAL_WIDTH: u16 = 54;
/// Height of the game: top widget, space, main widget.
pub const TOTAL_HEIGHT: u16 = 22;
/// Left edge of the main widget.
pub const MAIN_X: u16 = 0;
/// Top edge of the main widget.
pub const MAIN_Y: u16 = 5;
/// Left edge of the right widget.
pub const RIGHT_X: u16 = 40;
/// Top edge of the right widget.
pub const RIGHT_Y: u16 = 5;

/// How long the words are and how many there are.
#[derive(Debug, Clone, Copy, PartialEq, Eq, Structural)]
pub struct Difficulty {
    pub word_length: usize,
    pub word_count: usize,
}

impl Difficulty {
    /// A difficulty with the given word length and word count.
    pub fn new(word_length: usize, word_count: usize) -> (d: Difficulty)
        ensures
            d.word_length == word_length,
            d.word_count == word_count,
    {
        Difficulty { word_length, word_count }
    }

    /// Fifteen words of four letters.
    pub open spec fn novice_spec() -> Difficulty {
        Difficulty { word_length: 4, word_count: 15 }
    }

    /// Fifteen words of four letters.
    pub fn novice() -> (d: Difficulty)
        ensures
            d == (Difficulty { word_length: 4, word_count: 15 }),
    {
        Difficulty::new(4, 15)
    }

    /// Fifteen words of six letters.
    pub fn advanced() -> (d: Difficulty)
        ensures
            d == (Difficulty { word_length: 6, word_count: 15 }),
    {
        Difficulty::new(6, 15)
    }

    /// Fifteen words of eight letters.
    pub fn expert() -> (d: Difficulty)
        ensures
            d == (Difficulty { word_length: 8, word_count: 15 }),
    {
        Difficulty::new(8, 15)
    }

    /// Fifteen words of ten letters.
    pub fn master() -> (d: Difficulty)
        ensures
            d == (Difficulty { word_length: 10, word_count: 15 }),
    {
        Difficulty::new(10, 15)
    }

    /// The difficulty of the given name: "Novice", "Advanced", "Expert" or
    /// "Master"; any other text is an error.
    pub fn from_name(name: &str) -> (r: Result<Difficulty, ()>)
        ensures
            r == spec_difficulty_named(name@),
    {
        let s = String::from_str(name);
        proof {
            reveal_strlit("Novice");
            reveal_strlit("Advanced");
            reveal_strlit("Expert");
            reveal_strlit("Master");
        }
        if s == String::from_str("Novice") {
            Ok(Difficulty::novice())
        } else if s == String::from_str("Advanced") {
            Ok(Difficulty::advanced())
        } else if s == String::from_str("Expert") {
            Ok(Difficulty::expert())
        } else if s == String::from_str("Master") {
            Ok(Difficulty::master())
        } else {
            Err(())
        }
    }
}

/// The difficulty a name stands for.
pub open spec fn spec_difficulty_named(name: Seq<char>) -> Result<Difficulty, ()> {
    if name == "Novice"@ {
        Ok(Difficulty { word_length: 4, word_count: 15 })
    } else if name == "Advanced"@ {
        Ok(Difficulty { word_length: 6, word_count: 15 })
    } else if name == "Expert"@ {
        Ok(Difficulty { word_length: 8, word_count: 15 })
    } else if name == "Master"@ {
        Ok(Difficulty { word_length: 10, word_count: 15 })
    } else {
        Err(())
    }
}

impl core::str::FromStr for Difficulty {
    type Err = ();

    fn from_str(string: &str) -> (r: Result<Self, Self::Err>)
        ensures
            r == spec_difficulty_named(string@),
    {
        Difficulty::from_name(string)
    }
}

/// How a game ended: left by the player, locked out, or hacked.
#[derive(Debug, Clone, Copy, PartialEq, Eq, Structural)]
pub enum GameResult {
    Terminated,
    LockedOut,
    Hacked,
}

/// A game in progress.
pub struct Game {
    should_exit: bool,
    rng: rand::rngs::ThreadRng,
    top_widget: TopWidget,
    right_widget: RightWidget,
    main_widget: MainWidget,
    main_widget_clickable: bool,
    result: GameResult,
}

/// The screen cell `(column, row)` of the game lies on the main widget.
pub open spec fn on_main_widget(column: u16, row: u16) -> bool {
    column < crate::main_widget::WIDTH && MAIN_Y <= row < MAIN_Y + crate::main_widget::HEIGHT
}

impl Game {
    /// The main widget.
    pub closed spec fn main_view(&self) -> MainWidget {
        self.main_widget
    }

    /// The top widget.
    pub closed spec fn top(&self) -> TopWidget {
        self.top_widget
    }

    /// The right widget.
    pub closed spec fn right(&self) -> RightWidget {
        self.right_widget
    }

    /// The game is over.
    pub closed spec fn exiting(&self) -> bool {
        self.should_exit
    }

    /// How the game ended (meaningful once it is over, or once locked out).
    pub closed spec fn outcome(&self) -> GameResult {
        self.result
    }

    /// The mouse is over the grid, so that a click submits.
    pub closed spec fn clickable(&self) -> bool {
        self.main_widget_clickable
    }

    /// The widgets are consistent, and the history holds ASCII lines only.
    pub open spec fn wf(&self) -> bool {
        &&& self.main_view().wf()
        &&& self.right().wf()
        &&& self.right().history_ascii()
    }

    /// Nothing but the main widget's cursor and what follows from it changed.
    pub open spec fn same_but_cursor(&self, other: &Game) -> bool {
        &&& self.top() == other.top()
        &&& self.exiting() == other.exiting()
        &&& self.outcome() == other.outcome()
        &&& self.right().history() == other.right().history()
        &&& self.right().tick_count() == other.right().tick_count()
        &&& self.right().cursor_shown() == other.right().cursor_shown()
        &&& self.main_view().grid() == other.main_view().grid()
        &&& self.main_view().words() == other.main_view().words()
        &&& self.main_view().solution() == other.main_view().solution()
        &&& self.main_view().first_offset() == other.main_view().first_offset()
    }

    /// The prompt shows what the main widget highlights.
    pub open spec fn prompt_follows_cursor(&self) -> bool {
        self.right().selected() == seq!['>'] + self.main_view().spec_highlighted_string()
    }

    /// What submitting the highlighted thing does, from `pre` to `post`: a
    /// single character is an error; a word other than the password costs an
    /// attempt, and the last attempt locks the player out; the password ends
    /// the game as hacked. Everything but the password is added to the
    /// history.
    pub open spec fn submitted(pre: &Game, post: &Game) -> bool {
        let (kind, string) = pre.main_view().spec_click();
        &&& post.main_view() == pre.main_view()
        &&& post.clickable() == pre.clickable()
        &&& post.right().selected() == pre.right().selected()
        &&& post.right().tick_count() == pre.right().tick_count()
        &&& post.right().cursor_shown() == pre.right().cursor_shown()
        &&& match kind {
            ClickResultKind::Char => {
                &&& post.top() == pre.top()
                &&& post.exiting() == pre.exiting()
                &&& post.outcome() == pre.outcome()
                &&& post.right().history() == pre.right().history() + history_entries(string, SubmissionKind::Error)
            },
            ClickResultKind::Word { likeness } => {
                let lockout = post.top().attempts() == 0;
                &&& post.top().attempts() == if pre.top().attempts() > 0 {
                    pre.top().attempts() - 1
                } else {
                    0
                }
                &&& post.top().head() == pre.top().head()
                &&& post.exiting() == pre.exiting()
                &&& post.outcome() == if lockout {
                    GameResult::LockedOut
                } else {
                    pre.outcome()
                }
                &&& post.right().history() == pre.right().history() + history_entries(
                    string,
                    SubmissionKind::Word { likeness, lockout },
                )
            },
            ClickResultKind::Solution => {
                &&& post.top() == pre.top()
                &&& post.exiting()
                &&& post.outcome() == GameResult::Hacked
                &&& post.right().history() == pre.right().history()
            },
        }
    }

    /// What a key does to the game, from `pre` to `post`.
    pub open spec fn key_handled(pre: &Game, post: &Game, key: Key) -> bool {
        &&& key == Key::Tab ==> {
            &&& post.exiting()
            &&& post.outcome() == GameResult::Terminated
            &&& post.main_view() == pre.main_view()
            &&& post.top() == pre.top()
            &&& post.right() == pre.right()
            &&& post.clickable() == pre.clickable()
        }
        &&& key != Key::Tab && pre.top().attempts() == 0 ==> *post == *pre
        &&& key != Key::Tab && pre.top().attempts() != 0 ==> {
            if is_submit_key(key) {
                Game::submitted(pre, post)
            } else if key == Key::Up || key == Key::Char('w') || key == Key::Down || key == Key::Char('s')
                || key == Key::Left || key == Key::Char('a') || key == Key::Right || key == Key::Char('d') {
                &&& post.same_but_cursor(pre)
                &&& !post.clickable()
                &&& post.prompt_follows_cursor()
                &&& post.main_view().cursor() == if key == Key::Up || key == Key::Char('w') {
                    spec_cursor_up(pre.main_view().cursor())
                } else if key == Key::Down || key == Key::Char('s') {
                    spec_cursor_down(pre.main_view().cursor())
                } else if key == Key::Left || key == Key::Char('a') {
                    spec_cursor_left(pre.main_view().cursor())
                } else {
                    spec_cursor_right(pre.main_view().cursor())
                }
            } else {
                *post == *pre
            }
        }
    }

    /// What a mouse event does to the game, from `pre` to `post`.
    pub open spec fn mouse_handled(pre: &Game, post: &Game, mouse_event: MouseEvent) -> bool {
        &&& pre.top().attempts() == 0 ==> *post == *pre
        &&& pre.top().attempts() != 0 && mouse_event.kind == MouseEventKind::Moved ==> {
            if on_main_widget(mouse_event.column, mouse_event.row) {
                let cell = spec_cursor_at(mouse_event.column, (mouse_event.row - MAIN_Y) as u16);
                &&& post.same_but_cursor(pre)
                &&& post.clickable() == cell is Some
                &&& post.prompt_follows_cursor()
                &&& post.main_view().cursor() == match cell {
                    Some(c) => c,
                    None => pre.main_view().cursor(),
                }
            } else {
                &&& !post.clickable()
                &&& post.main_view() == pre.main_view()
                &&& post.top() == pre.top()
                &&& post.right() == pre.right()
                &&& post.exiting() == pre.exiting()
                &&& post.outcome() == pre.outcome()
            }
        }
        &&& pre.top().attempts() != 0 && is_click(mouse_event.kind) ==> if pre.clickable() {
            Game::submitted(pre, post)
        } else {
            *post == *pre
        }
        &&& !(mouse_event.kind == MouseEventKind::Moved) && !is_click(mouse_event.kind) ==> *post == *pre
    }

    /// A game as `new` starts it: words drawn from the word lists at the
    /// difficulty, all attempts left, an empty history, the prompt showing
    /// what the cursor highlights, not over and nothing clickable.
    pub open spec fn is_new_game(g: &Game, wordlists: Seq<(usize, Vec<String>)>, difficulty: Difficulty) -> bool {
        &&& g.wf()
        &&& generated(g.main_view(), wordlists, difficulty.word_length, difficulty.word_count)
        &&& g.top().attempts() == crate::top_widget::INITIAL_ATTEMPTS
        &&& g.right().history() == Seq::<Seq<char>>::empty()
        &&& g.prompt_follows_cursor()
        &&& !g.exiting()
        &&& !g.clickable()
        &&& g.outcome() == GameResult::Terminated
    }

    /// A new game at the given difficulty: its words drawn from the word
    /// lists, all attempts left, the prompt showing what the cursor
    /// highlights. `None` when the random placement of the words left no
    /// free place for one of them: only where such a stall is possible at
    /// all (`placement_can_stall`), never when there is `always_room`.
    pub fn new(difficulty: Difficulty, wordlists: &WordLists) -> (r: Option<Game>)
        requires
            can_draw_words(wordlists@, difficulty.word_length, difficulty.word_count),
            difficulty.word_length < CHARACTERS_TOTAL,
            difficulty.word_count > 0,
        ensures
            r matches Some(g) ==> Game::is_new_game(&g, wordlists@, difficulty),
            always_room(difficulty.word_count, difficulty.word_length) ==> r is Some,
            r is None ==> placement_can_stall(difficulty.word_count, difficulty.word_length),
    {
        let word_length = difficulty.word_length;
        let word_count = difficulty.word_count;
        let mut rng = crate::random::thread_rng();
        let top_widget = TopWidget::default();
        let main_widget = match MainWidget::new(&mut rng, wordlists, word_length, word_count) {
            Some(w) => w,
            None => {
                return None;
            },
        };
        let mut right_widget = RightWidget::default();
        right_widget.set_selected_string(main_widget.get_highlighted_string());
        Some(Game {
            should_exit: false,
            rng,
            top_widget,
            right_widget,
            main_widget,
            main_widget_clickable: false,
            result: GameResult::Terminated,
        })
    }

    /// Submits what the cursor highlights.
    fn submit_element_under_cursor(&mut self)
        requires
            old(self).wf(),
        ensures
            final(self).wf(),
            Game::submitted(old(self), final(self)),
    {
        proof {
            lemma_click_ascii(self.main_widget);
        }
        let click_result = self.main_widget.click();
        let submission = match click_result.kind {
            ClickResultKind::Char => Submission { string: click_result.string, kind: SubmissionKind::Error },
            ClickResultKind::Word { likeness } => {
                self.top_widget.remove_attempt();
                let lockout = self.top_widget.locked_out();
                if lockout {
                    self.result = GameResult::LockedOut;
                }
                Submission { string: click_result.string, kind: SubmissionKind::Word { likeness, lockout } }
            },
            ClickResultKind::Solution => {
                self.exit(GameResult::Hacked);
                return;
            },
        };
        self.right_widget.add_to_history(&submission);
    }

    /// Ends the game with the given result.
    fn exit(&mut self, game_result: GameResult)
        ensures
            final(self).exiting(),
            final(self).outcome() == game_result,
            final(self).main_view() == old(self).main_view(),
            final(self).top() == old(self).top(),
            final(self).right() == old(self).right(),
            final(self).clickable() == old(self).clickable(),
    {
        self.result = game_result;
        self.should_exit = true;
    }

    /// How the game ended, once it is over.
    pub fn should_exit(&self) -> (r: Option<GameResult>)
        ensures
            r == if self.exiting() {
                Some(self.outcome())
            } else {
                None::<GameResult>
            },
    {
        if self.should_exit {
            Some(self.result)
        } else {
            None
        }
    }

    /// What a tick does to the game, from `pre` to `post`, and whether it
    /// asks for a redraw: the prompt cursor takes one blink step (see
    /// `tick_step`); nothing else changes.
    pub open spec fn ticked(pre: &Game, post: &Game, redraw: bool) -> bool {
        &&& (post.right().tick_count(), post.right().cursor_shown(), redraw) == crate::right_widget::tick_step(
            pre.right().tick_count(),
            pre.right().cursor_shown(),
        )
        &&& post.main_view() == pre.main_view()
        &&& post.top() == pre.top()
        &&& post.exiting() == pre.exiting()
        &&& post.outcome() == pre.outcome()
        &&& post.clickable() == pre.clickable()
        &&& post.right().history() == pre.right().history()
        &&& post.right().selected() == pre.right().selected()
    }

    /// One tick: the prompt cursor blinks; tells whether to redraw.
    pub fn tick(&mut self) -> (redraw: bool)
        requires
            old(self).wf(),
        ensures
            final(self).wf(),
            redraw == (old(self).right().tick_count() + 1 == crate::right_widget::BLINK_TICKS),
            Game::ticked(old(self), final(self), redraw),
    {
        self.right_widget.tick()
    }

    /// Tab ends the game; once locked out nothing else has an effect; `e`
    /// submits what the cursor highlights; the arrow keys (or `w`, `s`, `a`,
    /// `d`) move the cursor, which makes nothing clickable and shows the new
    /// highlight in the prompt.
    pub fn handle_key_event(&mut self, key: Key)
        requires
            old(self).wf(),
        ensures
            final(self).wf(),
            Game::key_handled(old(self), final(self), key),
    {
        if key == Key::Tab {
            self.exit(GameResult::Terminated);
            return;
        }
        if self.top_widget.locked_out() {
            return;
        }
        if key == Key::Char('e') {
            self.submit_element_under_cursor();
            return;
        }
        let cursor_moved = match key {
            Key::Up | Key::Char('w') => {
                self.main_widget.move_cursor_up();
                true
            },
            Key::Down | Key::Char('s') => {
                self.main_widget.move_cursor_down();
                true
            },
            Key::Left | Key::Char('a') => {
                self.main_widget.move_cursor_left();
                true
            },
            Key::Right | Key::Char('d') => {
                self.main_widget.move_cursor_right();
                true
            },
            _ => false,
        };
        if cursor_moved {
            self.main_widget_clickable = false;
            self.right_widget.set_selected_string(self.main_widget.get_highlighted_string());
        }
    }

    /// Once locked out the mouse has no effect. Moving it over the grid puts
    /// the cursor there (clickable when it is over a character of the grid)
    /// and shows the highlight in the prompt; moving it elsewhere makes
    /// nothing clickable. A left or right click submits when clickable.
    pub fn handle_mouse_event(&mut self, mouse_event: MouseEvent)
        requires
            old(self).wf(),
        ensures
            final(self).wf(),
            Game::mouse_handled(old(self), final(self), mouse_event),
    {
        if self.top_widget.locked_out() {
            return;
        }
        match mouse_event.kind {
            MouseEventKind::Moved => {
                let main_area = rect_new(MAIN_X, MAIN_Y, crate::main_widget::WIDTH, crate::main_widget::HEIGHT);
                let column = mouse_event.column;
                let row = mouse_event.row;
                if !rect_contains(main_area, column, row) {
                    self.main_widget_clickable = false;
                    return;
                }
                self.main_widget_clickable = self.main_widget.move_cursor(column - main_area.x, row - main_area.y);
                self.right_widget.set_selected_string(self.main_widget.get_highlighted_string());
            },
            MouseEventKind::Down(mouse_button) => match mouse_button {
                MouseButton::Left | MouseButton::Right => {
                    if self.main_widget_clickable {
                        self.submit_element_under_cursor();
                    }
                },
                MouseButton::Middle => (),
            },
            _ => (),
        }
    }

    /// The top widget, for drawing.
    pub fn top_widget(&self) -> (w: &TopWidget)
        ensures
            *w == self.top(),
    {
        &self.top_widget
    }

    /// The right widget, for drawing.
    pub fn right_widget(&self) -> (w: &RightWidget)
        ensures
            *w == self.right(),
    {
        &self.right_widget
    }

    /// The main widget, for drawing.
    pub fn main_widget(&self) -> (w: &MainWidget)
        ensures
            *w == self.main_view(),
    {
        &self.main_widget
    }
}

/// `a` is a prefix of `b`.
pub open spec fn is_prefix(a: Seq<Seq<char>>, b: Seq<Seq<char>>) -> bool {
    a.len() <= b.len() && b.subrange(0, a.len() as int) == a
}

proof fn lemma_submitted_monotone(pre: &Game, post: &Game)
    requires
        Game::submitted(pre, post),
    ensures
        post.top().attempts() <= pre.top().attempts(),
        is_prefix(pre.right().history(), post.right().history()),
{
    let h = pre.right().history();
    let (kind, string) = pre.main_view().spec_click();
    match kind {
        ClickResultKind::Char => {
            assert(post.right().history().subrange(0, h.len() as int) =~= h);
        },
        ClickResultKind::Word { likeness } => {
            assert(post.right().history().subrange(0, h.len() as int) =~= h);
        },
        ClickResultKind::Solution => {
            assert(post.right().history().subrange(0, h.len() as int) =~= h);
        },
    }
}

/// No key gives attempts back, and no key takes anything out of the
/// history: it only grows at its end.
pub proof fn lemma_key_monotone(pre: &Game, post: &Game, key: Key)
    requires
        Game::key_handled(pre, post, key),
    ensures
        post.top().attempts() <= pre.top().attempts(),
        is_prefix(pre.right().history(), post.right().history()),
{
    let h = pre.right().history();
    if key != Key::Tab && pre.top().attempts() != 0 && is_submit_key(key) {
        lemma_submitted_monotone(pre, post);
    } else {
        assert(post.right().history().subrange(0, h.len() as int) =~= h);
    }
}

/// No mouse event gives attempts back, and none takes anything out of the
/// history: it only grows at its end.
pub proof fn lemma_mouse_monotone(pre: &Game, post: &Game, mouse_event: MouseEvent)
    requires
        Game::mouse_handled(pre, post, mouse_event),
    ensures
        post.top().attempts() <= pre.top().attempts(),
        is_prefix(pre.right().history(), post.right().history()),
{
    let h = pre.right().history();
    if pre.top().attempts() != 0 && is_click(mouse_event.kind) && pre.clickable() {
        lemma_submitted_monotone(pre, post);
    } else {
        assert(post.right().history().subrange(0, h.len() as int) =~= h);
    }
}

/// Clicking the password ends the game as hacked, whatever else held; any
/// other submission leaves a game that was not over still not over.
pub proof fn lemma_only_the_password_ends_a_game(pre: &Game, post: &Game)
    requires
        Game::submitted(pre, post),
        !pre.exiting(),
    ensures
        post.exiting() <==> pre.main_view().spec_click().0 == ClickResultKind::Solution,
        post.exiting() ==> post.outcome() == GameResult::Hacked,
{
}

/// Once no attempt is left, no key but Tab changes the game.
pub proof fn lemma_locked_out_ignores_keys(pre: &Game, post: &Game, key: Key)
    requires
        pre.top().attempts() == 0,
        key != Key::Tab,
        Game::key_handled(pre, post, key),
    ensures
        *post == *pre,
{
}

/// Once no attempt is left, no mouse event changes the game.
pub proof fn lemma_locked_out_ignores_mouse(pre: &Game, post: &Game, mouse_event: MouseEvent)
    requires
        pre.top().attempts() == 0,
        Game::mouse_handled(pre, post, mouse_event),
    ensures
        *post == *pre,
{
}

/// A word other than the password submitted with one attempt left locks
/// the player out: no attempt is left, the game's result is a lockout, and
/// the history ends with the lockout line.
pub proof fn lemma_last_attempt_locks_out(pre: &Game, post: &Game)
    requires
        Game::submitted(pre, post),
        pre.top().attempts() == 1,
        pre.main_view().spec_click().0 is Word,
    ensures
        post.top().attempts() == 0,
        post.outcome() == GameResult::LockedOut,
        post.right().history().last() == ">Init Lockout"@,
        post.exiting() == pre.exiting(),
{
}

/// In a game that is not locked out, each letter key moves the cursor as its
/// arrow does: `w` as up, `s` as down, `a` as left, `d` as right.
pub proof fn lemma_letter_keys_move_like_arrows(pre: &Game, by_letter: &Game, by_arrow: &Game, letter: char, arrow: Key)
    requires
        pre.top().attempts() != 0,
        (letter == 'w' && arrow == Key::Up) || (letter == 's' && arrow == Key::Down) || (letter == 'a' && arrow
            == Key::Left) || (letter == 'd' && arrow == Key::Right),
        Game::key_handled(pre, by_letter, Key::Char(letter)),
        Game::key_handled(pre, by_arrow, arrow),
    ensures
        by_letter.main_view().cursor() == by_arrow.main_view().cursor(),
        by_letter.clickable() == by_arrow.clickable(),
        by_letter.top() == by_arrow.top(),
        by_letter.right().history() == by_arrow.right().history(),
{
}

/// In a game that is not locked out, up (or `w`) moves the cursor exactly
/// one row up, unless it is on the top row, and down (or `s`) then brings it
/// back.
pub proof fn lemma_up_moves_one_row(pre: &Game, post: &Game, back: &Game, key: Key, down: Key)
    requires
        pre.wf(),
        pre.top().attempts() != 0,
        key == Key::Up || key == Key::Char('w'),
        down == Key::Down || down == Key::Char('s'),
        Game::key_handled(pre, post, key),
        Game::key_handled(post, back, down),
        pre.main_view().cursor().row > 0,
    ensures
        post.main_view().cursor().flat_index() == pre.main_view().cursor().flat_index() - crate::cursor::CHARACTERS_PER_ROW,
        back.main_view().cursor() == pre.main_view().cursor(),
{
    crate::main_widget::lemma_cursor_moves_are_steps(pre.main_view().cursor());
}

} // verus!
