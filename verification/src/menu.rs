//! A menu: a head line, a text, and a list of options of which one is
//! selected, chosen with the keyboard or the mouse.

use vstd::prelude::*;
use crate::events::{Key, MouseEvent, MouseEventKind, MouseButton, is_click, is_submit_key};
use crate::geometry::{rect_contains, rect_new, rect_offset, rect_resize};
use crate::text::{line_count, spec_line_count};

verus! {

/// Width of a menu in cells (that of the whole game).
pub const WIDTH: u16 = 54;
/// Height of a menu in cells (that of the whole game).
pub const HEIGHT: u16 = 22;
/// Rows of the head line.
pub const HEAD_HEIGHT: u16 = 2;
/// Empty rows between head line and text.
pub const SPACING: u16 = 1;
/// Row where the text starts.
pub const OPTIONS_Y: u16 = 3;
/// Rows below the head line for text and options.
pub const OPTIONS_HEIGHT: u16 = 19;

/// How a menu was left: without a choice, or by choosing an option.
#[derive(Debug, Clone, PartialEq, Eq)]
pub enum MenuResult {
    Exit,
    Selected(String),
}

/// A menu and its state.
#[derive(Debug)]
pub struct Menu {
    head_line: String,
    result: Option<MenuResult>,
    text: String,
    selected: usize,
    options: Vec<String>,
    clickable: bool,
}

/// How a menu was left, as plain values: `None` while it is open,
/// `Some(None)` when it was left without a choice, `Some(Some(option))` when
/// an option was chosen.
pub open spec fn outcome_of(r: Option<MenuResult>) -> Option<Option<Seq<char>>> {
    match r {
        None => None,
        Some(MenuResult::Exit) => Some(None),
        Some(MenuResult::Selected(s)) => Some(Some(s@)),
    }
}

/// The option under the screen cell `(column, row)`, counted from the first
/// option, when the text above the options has `text_height` lines: the
/// options start on the row after the text and run to the bottom.
pub open spec fn spec_option_at(text_height: nat, column: u16, row: u16) -> Option<nat> {
    if column < WIDTH && OPTIONS_Y + text_height <= row < HEIGHT {
        Some((row - OPTIONS_Y - text_height) as nat)
    } else {
        None
    }
}

/// The head line of every menu.
pub open spec fn menu_head() -> Seq<char> {
    "Welcome to ROBCO Industries (TM) Termlink\nFallout 4 Hacking Minigame"@
}

impl Menu {
    /// The head line.
    pub closed spec fn head(&self) -> Seq<char> {
        self.head_line@
    }

    /// The text above the options.
    pub closed spec fn text_view(&self) -> Seq<char> {
        self.text@
    }

    /// The options.
    pub closed spec fn option_texts(&self) -> Seq<Seq<char>> {
        self.options@.map_values(|s: String| s@)
    }

    /// The index of the selected option.
    pub closed spec fn selection(&self) -> nat {
        self.selected as nat
    }

    /// The mouse is over an option, so that a click chooses it.
    pub closed spec fn clickable(&self) -> bool {
        self.clickable
    }

    /// How the menu was left, if it was.
    pub closed spec fn outcome(&self) -> Option<Option<Seq<char>>> {
        outcome_of(self.result)
    }

    /// A chosen option is one of the options.
    pub open spec fn wf(&self) -> bool {
        &&& self.outcome() matches Some(Some(s)) ==> self.option_texts().contains(s)
    }

    /// The same menu in another state: head line, text and options kept.
    pub open spec fn same_menu(&self, other: &Menu) -> bool {
        &&& self.head() == other.head()
        &&& self.text_view() == other.text_view()
        &&& self.option_texts() == other.option_texts()
    }

    /// The difficulty menu: the four difficulties, the first selected.
    pub fn new() -> (m: Menu)
        ensures
            m.wf(),
            m.head() == menu_head(),
            m.text_view() == "Choose a difficulty:"@,
            m.option_texts() == seq!["Novice"@, "Advanced"@, "Expert"@, "Master"@],
            m.selection() == 0,
            m.outcome() is None,
            !m.clickable(),
    {
        let mut options: Vec<String> = Vec::new();
        options.push(String::from_str("Novice"));
        options.push(String::from_str("Advanced"));
        options.push(String::from_str("Expert"));
        options.push(String::from_str("Master"));
        let m = Menu {
            head_line: String::from_str("Welcome to ROBCO Industries (TM) Termlink\nFallout 4 Hacking Minigame"),
            result: None,
            text: String::from_str("Choose a difficulty:"),
            selected: 0,
            options,
            clickable: false,
        };
        proof {
            reveal_strlit("Choose a difficulty:");
            assert(m.option_texts() =~= seq!["Novice"@, "Advanced"@, "Expert"@, "Master"@]);
        }
        m
    }

    /// A menu with the given options and text, `preselected` selected.
    pub fn with_options(options: Vec<String>, text: &str, preselected: usize) -> (m: Menu)
        ensures
            m.wf(),
            m.head() == menu_head(),
            m.text_view() == text@,
            m.option_texts() == options@.map_values(|s: String| s@),
            m.selection() == preselected,
            m.outcome() is None,
            !m.clickable(),
    {
        Menu {
            head_line: String::from_str("Welcome to ROBCO Industries (TM) Termlink\nFallout 4 Hacking Minigame"),
            result: None,
            text: String::from_str(text),
            selected: preselected,
            options,
            clickable: false,
        }
    }

    /// Leaves the menu with the given result.
    fn exit(&mut self, menu_result: MenuResult)
        ensures
            final(self).result == Some(menu_result),
            final(self).head_line == old(self).head_line,
            final(self).text == old(self).text,
            final(self).options == old(self).options,
            final(self).selected == old(self).selected,
            final(self).clickable == old(self).clickable,
    {
        self.result = Some(menu_result);
    }

    /// How the menu was left, if it was.
    pub fn should_exit(&self) -> (r: Option<MenuResult>)
        ensures
            outcome_of(r) == self.outcome(),
    {
        match &self.result {
            None => None,
            Some(MenuResult::Exit) => Some(MenuResult::Exit),
            Some(MenuResult::Selected(s)) => Some(MenuResult::Selected(s.clone())),
        }
    }

    /// Chooses the selected option.
    fn submit_selection(&mut self)
        requires
            old(self).wf(),
            old(self).selection() < old(self).option_texts().len(),
        ensures
            final(self).wf(),
            final(self).same_menu(old(self)),
            final(self).outcome() == Some(Some(old(self).option_texts()[old(self).selection() as int])),
            final(self).selection() == old(self).selection(),
            final(self).clickable() == old(self).clickable(),
    {
        let chosen = self.options[self.selected].clone();
        proof {
            assert(self.option_texts()[self.selected as int] == chosen@);
        }
        self.exit(MenuResult::Selected(chosen));
    }

    /// A menu needs no redrawing on a tick.
    pub fn tick(&mut self) -> (redraw: bool)
        ensures
            !redraw,
            *final(self) == *old(self),
    {
        false
    }

    /// What a key does to the menu, from `pre` to `post`.
    pub open spec fn key_handled(pre: &Menu, post: &Menu, key: Key) -> bool {
        &&& (post.same_menu(pre))
        &&& (post.clickable() == pre.clickable())
        &&& (key == Key::Tab ==> post.outcome() == Some(None::<Seq<char>>)
                    && post.selection() == pre.selection())
        &&& (is_submit_key(key) ==> post.outcome() == Some(Some(pre.option_texts()[pre.selection() as int]))
                    && post.selection() == pre.selection())
        &&& (key == Key::Up || key == Key::Char('w') ==> post.outcome() == pre.outcome()
                    && post.selection() == if pre.selection() > 0 {
                        pre.selection() - 1
                    } else {
                        0
                    })
        &&& (key == Key::Down || key == Key::Char('s') ==> post.outcome() == pre.outcome()
                    && post.selection() == if pre.selection() + 1 <= pre.option_texts().len() {
                        pre.selection() + 1
                    } else {
                        pre.option_texts().len()
                    })
        &&& (!(key == Key::Tab || is_submit_key(key) || key == Key::Up || key == Key::Char('w') || key == Key::Down
                    || key == Key::Char('s')) ==> *post == *pre)
    }

    /// Tab leaves the menu, `e` chooses the selected option, up (or `w`)
    /// and down (or `s`) move the selection; down stops one past the last
    /// option (and brings a selection further down back there).
    pub fn handle_key_event(&mut self, key: Key)
        requires
            old(self).wf(),
            is_submit_key(key) ==> old(self).selection() < old(self).option_texts().len(),
        ensures
            final(self).wf(),
            Menu::key_handled(old(self), final(self), key),
    {
        if key == Key::Tab {
            self.exit(MenuResult::Exit);
            return;
        }
        if key == Key::Char('e') {
            self.submit_selection();
            return;
        }
        match key {
            Key::Up | Key::Char('w') => self.selected = self.selected.saturating_sub(1),
            Key::Down | Key::Char('s') => {
                self.selected = if self.options.len() <= self.selected {
                    self.options.len()
                } else {
                    self.selected + 1
                };
            },
            _ => (),
        }
    }

    /// What a mouse event does to the menu, from `pre` to `post`.
    pub open spec fn mouse_handled(pre: &Menu, post: &Menu, mouse_event: MouseEvent) -> bool {
        &&& (post.same_menu(pre))
        &&& (mouse_event.kind == MouseEventKind::Moved ==> {
                    &&& post.outcome() == pre.outcome()
                    &&& match spec_option_at(spec_line_count(pre.text_view()), mouse_event.column, mouse_event.row) {
                        Some(r) => if r < pre.option_texts().len() {
                            post.selection() == r && post.clickable()
                        } else {
                            post.selection() == pre.selection() && !post.clickable()
                        },
                        None => post.selection() == pre.selection() && !post.clickable(),
                    }
                })
        &&& (is_click(mouse_event.kind) && pre.clickable() ==> {
                    &&& post.outcome() == Some(Some(pre.option_texts()[pre.selection() as int]))
                    &&& post.selection() == pre.selection()
                    &&& post.clickable()
                })
        &&& (!(mouse_event.kind == MouseEventKind::Moved) && !(is_click(mouse_event.kind) && pre.clickable())
                    ==> *post == *pre)
    }

    /// Moving the mouse over an option selects it and makes it clickable;
    /// moving it elsewhere makes nothing clickable. A left or right click
    /// chooses the selected option when it is clickable.
    pub fn handle_mouse_event(&mut self, mouse_event: MouseEvent)
        requires
            old(self).wf(),
            is_click(mouse_event.kind) && old(self).clickable() ==> old(self).selection() < old(self).option_texts().len(),
            mouse_event.kind == MouseEventKind::Moved ==> spec_line_count(old(self).text_view()) <= OPTIONS_HEIGHT,
        ensures
            final(self).wf(),
            Menu::mouse_handled(old(self), final(self), mouse_event),
    {
        match mouse_event.kind {
            MouseEventKind::Moved => {
                let area = rect_new(0, 0, WIDTH, HEIGHT);
                let options_area = rect_offset(
                    rect_resize(area, area.width, area.height - HEAD_HEIGHT - SPACING),
                    0,
                    OPTIONS_Y as i32,
                );
                let text_height = line_count(self.text.as_str());
                let options_area = rect_offset(
                    rect_resize(options_area, options_area.width, options_area.height - text_height as u16),
                    0,
                    text_height as i32,
                );
                assert(options_area == crate::geometry::Area {
                    x: 0,
                    y: (OPTIONS_Y + text_height) as u16,
                    width: WIDTH,
                    height: (OPTIONS_HEIGHT - text_height) as u16,
                });
                if rect_contains(options_area, mouse_event.column, mouse_event.row) {
                    let row = (mouse_event.row - options_area.y) as usize;
                    if row < self.options.len() {
                        self.selected = row;
                        self.clickable = true;
                        return;
                    }
                }
                self.clickable = false;
            },
            MouseEventKind::Down(mouse_button) => match mouse_button {
                MouseButton::Left | MouseButton::Right => {
                    if self.clickable {
                        self.submit_selection();
                    }
                },
                MouseButton::Middle => (),
            },
            _ => (),
        }
    }

    /// The line that shows option `i`: its text in square brackets.
    pub fn option_line(&self, i: usize) -> (line: String)
        requires
            i < self.option_texts().len(),
        ensures
            line@ == seq!['['] + self.option_texts()[i as int] + seq![']'],
    {
        let mut line = String::new();
        crate::text::push_char(&mut line, '[');
        line.append(self.options[i].as_str());
        crate::text::push_char(&mut line, ']');
        line
    }

    /// The head line.
    pub fn head_line(&self) -> (s: &str)
        ensures
            s@ == self.head(),
    {
        self.head_line.as_str()
    }

    /// The text above the options.
    pub fn text(&self) -> (s: &str)
        ensures
            s@ == self.text_view(),
    {
        self.text.as_str()
    }

    /// The options.
    pub fn options(&self) -> (o: &Vec<String>)
        ensures
            o@.map_values(|s: String| s@) == self.option_texts(),
    {
        &self.options
    }

    /// The mouse is over an option, so that a click chooses it.
    pub fn is_clickable(&self) -> (b: bool)
        ensures
            b == self.clickable(),
    {
        self.clickable
    }

    /// The index of the selected option.
    pub fn selected(&self) -> (i: usize)
        ensures
            i == self.selection(),
    {
        self.selected
    }
}

/// A text without a line break is one line (when it is not empty).
pub proof fn lemma_no_newline_one_line(s: Seq<char>)
    requires
        forall|i: int| 0 <= i < s.len() ==> s[i] != '\n',
    ensures
        spec_line_count(s) <= 1,
        s.len() > 0 ==> spec_line_count(s) == 1,
    decreases s.len(),
{
    if s.len() > 0 {
        let t = s.drop_last();
        assert forall|i: int| 0 <= i < t.len() implies t[i] != '\n' by {
            assert(t[i] == s[i]);
        }
        lemma_no_newline_one_line(t);
        if t.len() > 0 {
            assert(t.last() == s[s.len() - 2]);
        }
    }
}

/// In a menu, `w` moves the selection as up does and `s` as down does.
pub proof fn lemma_menu_letter_keys_like_arrows(pre: &Menu, by_letter: &Menu, by_arrow: &Menu, letter: char, arrow: Key)
    requires
        (letter == 'w' && arrow == Key::Up) || (letter == 's' && arrow == Key::Down),
        Menu::key_handled(pre, by_letter, Key::Char(letter)),
        Menu::key_handled(pre, by_arrow, arrow),
    ensures
        by_letter.selection() == by_arrow.selection(),
        by_letter.outcome() == by_arrow.outcome(),
        by_letter.clickable() == by_arrow.clickable(),
{
}

/// Up moves the selection one option back, down one option on (stopping one
/// past the last option); from a selection that is neither the first nor past
/// the options, up then down comes back to it, and down then up too.
pub proof fn lemma_menu_up_down(pre: &Menu, up: &Menu, up_down: &Menu, down: &Menu, down_up: &Menu)
    requires
        0 < pre.selection() < pre.option_texts().len(),
        Menu::key_handled(pre, up, Key::Up),
        Menu::key_handled(up, up_down, Key::Down),
        Menu::key_handled(pre, down, Key::Down),
        Menu::key_handled(down, down_up, Key::Up),
    ensures
        up.selection() + 1 == pre.selection(),
        down.selection() == pre.selection() + 1,
        up_down.selection() == pre.selection(),
        down_up.selection() == pre.selection(),
        up.outcome() == pre.outcome(),
        down.outcome() == pre.outcome(),
{
}

} // verus!
