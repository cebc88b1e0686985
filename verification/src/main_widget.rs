//! The main widget: the grid of characters with the hidden words, the cursor
//! over it, and what a click on the highlighted thing gives.
//!
//! The grid is held as one sequence of `CHARACTERS_TOTAL` characters, row by
//! row, first block first; the row of flat index `i` is `i / CHARACTERS_PER_ROW`.

use vstd::prelude::*;
use vstd::utf8::is_ascii_chars;
use crate::cursor::{
    CursorPosition, BLOCKS, CHARACTERS_PER_ROW, CHARACTERS_TOTAL, COLUMNS_PER_BLOCK,
    ROWS_PER_BLOCK, lemma_index_round_trip,
};
use crate::search::{first_where, lemma_first_where, lemma_first_where_is, lemma_first_where_none};
use crate::geometry::{Area, rect_contains, rect_new, rect_offset, rect_resize, position_offset};
use crate::random::Draws;
use crate::text::{push_char, to_uppercase, ascii_upper, chars_of, one_char_string};
use crate::wordlists::{WordLists, by_word_length, spec_by_word_length};

verus! {

/// Width of the widget in cells: two blocks and the space between them.
pub const WIDTH: u16 = 39;
/// Height of the widget in cells: one row per grid row of a block.
pub const HEIGHT: u16 = 17;
/// Width of one block: the address column, a space, and the characters.
pub const BLOCK_WIDTH: u16 = 19;
/// Width of the address shown at the left of each row.
pub const OFFSET_WIDTH: u16 = 6;
/// Space between the parts of the widget.
pub const SPACING: u16 = 1;
/// The largest address the grid can show.
pub const MAX_OFFSET: usize = 0xFFFF;
/// How many row addresses fit below `MAX_OFFSET`.
pub const POSSIBLE_OFFSET_COUNT: usize = 5461;
/// How many row addresses are shown at once.
pub const SHOWN_OFFSET_COUNT: usize = 34;
/// How many first rows are possible.
pub const MAX_FIRST_OFFSET: usize = 5427;

/// The grid cell under the screen cell `(column, row)` of the widget, if it
/// shows one: the characters of the first block start at column 7, those of
/// the second block at column 27, twelve columns each.
pub open spec fn spec_cursor_at(column: u16, row: u16) -> Option<CursorPosition> {
    if 7 <= column < 19 && row < 17 {
        Some(CursorPosition { block: 0, column: (column - 7) as usize, row: row as usize })
    } else if 27 <= column < 39 && row < 17 {
        Some(CursorPosition { block: 1, column: (column - 27) as usize, row: row as usize })
    } else {
        None
    }
}

/// What the cursor highlights: one character (by flat index) or a whole
/// word (by its first flat index and its length).
#[derive(Debug, Clone, Copy, PartialEq, Eq, Structural)]
pub enum CursorHighlight {
    Char(usize),
    Word { start_index: usize, length: usize },
}

/// What a click gave, and the text that was clicked.
#[derive(Debug)]
pub struct ClickResult {
    pub kind: ClickResultKind,
    pub string: String,
}

/// A click on a single character, on a word that is not the password (with
/// the number of places in which it agrees with the password), or on the
/// password.
#[derive(Debug, Clone, Copy, PartialEq, Eq, Structural)]
pub enum ClickResultKind {
    Char,
    Word { likeness: usize },
    Solution,
}

/// The grid, the words hidden in it, the password among them, and the cursor.
#[derive(Debug)]
pub struct MainWidget {
    first_offset: usize,
    content: Vec<char>,
    cursor: CursorPosition,
    highlight: CursorHighlight,
    words: Vec<(String, usize)>,
    solution: String,
}

/// The words with their text as character sequences.
pub open spec fn word_views(words: Seq<(String, usize)>) -> Seq<(Seq<char>, usize)> {
    words.map_values(|w: (String, usize)| (w.0@, w.1))
}

/// The word covers flat index `index`.
pub open spec fn covers(index: int) -> spec_fn((Seq<char>, usize)) -> bool {
    |w: (Seq<char>, usize)| w.1 <= index < w.1 + w.0.len()
}

/// What the cursor at flat index `index` highlights: the first word that
/// covers the index, else the single character there.
pub open spec fn spec_highlight(words: Seq<(Seq<char>, usize)>, index: usize) -> CursorHighlight {
    match first_where(words, covers(index as int)) {
        Some(i) => CursorHighlight::Word {
            start_index: words[i].1,
            length: words[i].0.len() as usize,
        },
        None => CursorHighlight::Char(index),
    }
}

/// The grid after writing `word` from flat index `pos` on.
pub open spec fn place_word(grid: Seq<char>, word: Seq<char>, pos: int) -> Seq<char> {
    Seq::new(
        grid.len(),
        |i: int|
            if pos <= i < pos + word.len() {
                word[i - pos]
            } else {
                grid[i]
            },
    )
}

/// The grid after writing each word at its position, in order.
pub open spec fn place_all(grid: Seq<char>, words: Seq<(Seq<char>, usize)>) -> Seq<char>
    decreases words.len(),
{
    if words.len() == 0 {
        grid
    } else {
        place_word(place_all(grid, words.drop_last()), words.last().0, words.last().1 as int)
    }
}

/// The number of places `i < n` in which `a` and `b` have the same character.
pub open spec fn count_matching(a: Seq<char>, b: Seq<char>, n: nat) -> nat
    decreases n,
{
    if n == 0 {
        0
    } else {
        count_matching(a, b, (n - 1) as nat) + if a[n - 1] == b[n - 1] {
            1nat
        } else {
            0nat
        }
    }
}

/// In how many places two words agree, comparing them character by
/// character up to the end of the shorter one.
pub open spec fn likeness(a: Seq<char>, b: Seq<char>) -> nat {
    count_matching(a, b, if a.len() <= b.len() { a.len() } else { b.len() })
}

/// The word starts before or at `start` and reaches past it, measured with
/// the given length.
pub open spec fn spans(start: usize, length: usize) -> spec_fn((Seq<char>, usize)) -> bool {
    |w: (Seq<char>, usize)| start >= w.1 && start < w.1 + length
}

/// The word starts exactly at `start`.
pub open spec fn starts_at(start: usize) -> spec_fn((Seq<char>, usize)) -> bool {
    |w: (Seq<char>, usize)| w.1 == start
}

/// Every word is ASCII and lies inside the grid.
pub open spec fn words_fit(words: Seq<(Seq<char>, usize)>) -> bool {
    forall|i: int|
        #![trigger words[i]]
        0 <= i < words.len() ==> {
            &&& words[i].1 + words[i].0.len() <= CHARACTERS_TOTAL
            &&& is_ascii_chars(words[i].0)
        }
}

impl MainWidget {
    /// The grid, row by row.
    pub closed spec fn grid(&self) -> Seq<char> {
        self.content@
    }

    /// The hidden words with their flat positions.
    pub closed spec fn words(&self) -> Seq<(Seq<char>, usize)> {
        word_views(self.words@)
    }

    /// The password.
    pub closed spec fn solution(&self) -> Seq<char> {
        self.solution@
    }

    /// The cursor.
    pub closed spec fn cursor(&self) -> CursorPosition {
        self.cursor
    }

    /// What the cursor highlights.
    pub closed spec fn highlight(&self) -> CursorHighlight {
        self.highlight
    }

    /// The address of the grid's first row, as shown on screen.
    pub closed spec fn first_offset(&self) -> usize {
        self.first_offset
    }

    /// The widget is consistent: a full ASCII grid, ASCII words inside it, a
    /// cursor inside it, and the highlight that belongs to the cursor.
    pub open spec fn wf(&self) -> bool {
        &&& self.grid().len() == CHARACTERS_TOTAL
        &&& is_ascii_chars(self.grid())
        &&& words_fit(self.words())
        &&& self.cursor().is_valid()
        &&& self.highlight() == spec_highlight(self.words(), self.cursor().flat_index() as usize)
    }

    /// The text `get_highlighted_string` gives.
    pub open spec fn spec_highlighted_string(&self) -> Seq<char> {
        match self.highlight() {
            CursorHighlight::Char(position) => seq![
                self.grid()[self.cursor().row * CHARACTERS_PER_ROW + position
                    % CHARACTERS_PER_ROW],
            ],
            CursorHighlight::Word { start_index, length } => {
                let i = first_where(self.words(), spans(start_index, length))->0;
                self.words()[i].0
            },
        }
    }

    /// The kind and text of what `click` gives.
    pub open spec fn spec_click(&self) -> (ClickResultKind, Seq<char>) {
        match self.highlight() {
            CursorHighlight::Char(position) => {
                let pos = CursorPosition::spec_from_index(position);
                (ClickResultKind::Char, seq![self.grid()[pos.row * CHARACTERS_PER_ROW + pos.column]])
            },
            CursorHighlight::Word { start_index, .. } => {
                let i = first_where(self.words(), starts_at(start_index))->0;
                let word = self.words()[i].0;
                if word == self.solution() {
                    (ClickResultKind::Solution, word)
                } else {
                    (
                        ClickResultKind::Word { likeness: likeness(self.solution(), word) as usize },
                        word,
                    )
                }
            },
        }
    }
}

/// Writes `chars[from..from + n]` into the grid from flat index `at` on.
fn write_run(content: &mut Vec<char>, at: usize, chars: &Vec<char>, from: usize, n: usize)
    requires
        at + n <= old(content).len(),
        from + n <= chars.len(),
    ensures
        final(content)@.len() == old(content)@.len(),
        forall|i: int|
            0 <= i < old(content)@.len() ==> #[trigger] final(content)@[i] == if at <= i < at + n {
                chars@[i - at + from]
            } else {
                old(content)@[i]
            },
{
    let mut t: usize = 0;
    while t < n
        invariant
            t <= n,
            at + n <= old(content).len(),
            from + n <= chars.len(),
            content@.len() == old(content)@.len(),
            forall|i: int|
                0 <= i < old(content)@.len() ==> #[trigger] content@[i] == if at <= i < at + t {
                    chars@[i - at + from]
                } else {
                    old(content)@[i]
                },
        decreases n - t,
    {
        content.set(at + t, chars[from + t]);
        t = t + 1;
    }
}

/// Writes `word` into the grid from flat index `position` on, one row at a
/// time, moving to the next row (and block) as a row fills up.
fn write_word(content: &mut Vec<char>, word: &str, position: usize)
    requires
        old(content).len() == CHARACTERS_TOTAL,
        position + word@.len() <= CHARACTERS_TOTAL,
    ensures
        final(content)@ == place_word(old(content)@, word@, position as int),
{
    let chars = chars_of(word);
    let len = chars.len();
    let mut k: usize = 0;
    let mut cursor = CursorPosition::from_index(position);
    while len - k > CHARACTERS_PER_ROW - cursor.column
        invariant
            len == word@.len(),
            chars@ == word@,
            position + len <= CHARACTERS_TOTAL,
            k <= len,
            content@.len() == CHARACTERS_TOTAL,
            cursor.flat_index() == position + k,
            cursor.row < ROWS_PER_BLOCK,
            cursor.column < CHARACTERS_PER_ROW,
            forall|i: int|
                0 <= i < CHARACTERS_TOTAL ==> #[trigger] content@[i] == if position <= i < position + k {
                    word@[i - position]
                } else {
                    old(content)@[i]
                },
        decreases len - k,
    {
        let part = CHARACTERS_PER_ROW - cursor.column;
        let row = cursor.row_index();
        write_run(content, row * CHARACTERS_PER_ROW + cursor.column, &chars, k, part);
        k = k + part;
        cursor = cursor.next_row();
    }
    let row = cursor.row_index();
    write_run(content, row * CHARACTERS_PER_ROW + cursor.column, &chars, k, len - k);
    assert(content@ =~= place_word(old(content)@, word@, position as int));
}

/// Writes every word at its position, in order.
fn write_words(content: &mut Vec<char>, words: &Vec<(String, usize)>)
    requires
        old(content).len() == CHARACTERS_TOTAL,
        words_fit(word_views(words@)),
    ensures
        final(content)@ == place_all(old(content)@, word_views(words@)),
{
    let mut i: usize = 0;
    while i < words.len()
        invariant
            i <= words.len(),
            words_fit(word_views(words@)),
            content.len() == CHARACTERS_TOTAL,
            content@ == place_all(old(content)@, word_views(words@.subrange(0, i as int))),
        decreases words.len() - i,
    {
        proof {
            assert(word_views(words@)[i as int] == (words@[i as int].0@, words@[i as int].1));
        }
        write_word(content, words[i].0.as_str(), words[i].1);
        proof {
            let ws = word_views(words@.subrange(0, i + 1));
            assert(ws.drop_last() =~= word_views(words@.subrange(0, i as int)));
            assert(ws.last() == (words@[i as int].0@, words@[i as int].1));
        }
        i = i + 1;
    }
    assert(words@.subrange(0, words.len() as int) == words@);
}

proof fn lemma_place_word_ascii(grid: Seq<char>, word: Seq<char>, pos: int)
    requires
        is_ascii_chars(grid),
        is_ascii_chars(word),
    ensures
        is_ascii_chars(place_word(grid, word, pos)),
{
    let g = place_word(grid, word, pos);
    assert forall|i| 0 <= i < g.len() implies '\0' <= #[trigger] g[i] <= '\u{7f}' by {
        if pos <= i < pos + word.len() {
            assert(word[i - pos] == g[i]);
        } else {
            assert(grid[i] == g[i]);
        }
    }
}

/// Writing ASCII words into an ASCII grid keeps it ASCII and keeps its size.
pub proof fn lemma_place_all_ascii(grid: Seq<char>, words: Seq<(Seq<char>, usize)>)
    requires
        is_ascii_chars(grid),
        words_fit(words),
    ensures
        is_ascii_chars(place_all(grid, words)),
        place_all(grid, words).len() == grid.len(),
    decreases words.len(),
{
    if words.len() > 0 {
        let rest = words.drop_last();
        assert forall|i: int| #![trigger rest[i]] 0 <= i < rest.len() implies {
            &&& rest[i].1 + rest[i].0.len() <= CHARACTERS_TOTAL
            &&& is_ascii_chars(rest[i].0)
        } by {
            assert(rest[i] == words[i]);
        }
        lemma_place_all_ascii(grid, rest);
        assert(words.last() == words[words.len() - 1]);
        lemma_place_word_ascii(place_all(grid, rest), words.last().0, words.last().1 as int);
    }
}

impl MainWidget {
    /// A widget over the given grid with the given words written into it, the
    /// cursor on the first character and the highlight that belongs there.
    /// This is the part of building a widget that chance plays no part in.
    pub fn from_layout(
        first_offset: usize,
        background: Vec<char>,
        words: Vec<(String, usize)>,
        solution: String,
    ) -> (w: MainWidget)
        requires
            background.len() == CHARACTERS_TOTAL,
            is_ascii_chars(background@),
            words_fit(word_views(words@)),
        ensures
            w.wf(),
            w.grid() == place_all(background@, word_views(words@)),
            w.words() == word_views(words@),
            w.solution() == solution@,
            w.first_offset() == first_offset,
            w.cursor() == (CursorPosition { block: 0, row: 0, column: 0 }),
    {
        let mut content = background;
        write_words(&mut content, &words);
        proof {
            lemma_place_all_ascii(background@, word_views(words@));
        }
        let mut s = MainWidget {
            first_offset,
            content,
            cursor: CursorPosition { block: 0, row: 0, column: 0 },
            highlight: CursorHighlight::Char(0),
            words,
            solution,
        };
        s.fix_cursor_highlight();
        s
    }

    /// Moves the cursor and recomputes the highlight.
    fn set_cursor(&mut self, cursor: CursorPosition)
        requires
            old(self).wf(),
            cursor.is_valid(),
        ensures
            final(self).wf(),
            final(self).cursor() == cursor,
            final(self).grid() == old(self).grid(),
            final(self).words() == old(self).words(),
            final(self).solution() == old(self).solution(),
            final(self).first_offset() == old(self).first_offset(),
    {
        self.cursor = cursor;
        self.fix_cursor_highlight();
    }

    /// Sets the highlight to the first word under the cursor, or to the
    /// character under it when no word is there.
    fn fix_cursor_highlight(&mut self)
        requires
            old(self).cursor.is_valid(),
            words_fit(word_views(old(self).words@)),
        ensures
            final(self).highlight == spec_highlight(
                word_views(old(self).words@),
                old(self).cursor.flat_index() as usize,
            ),
            final(self).cursor == old(self).cursor,
            final(self).content == old(self).content,
            final(self).words == old(self).words,
            final(self).solution == old(self).solution,
            final(self).first_offset == old(self).first_offset,
    {
        proof {
            lemma_index_round_trip(self.cursor);
        }
        let cursor_index = self.cursor.index();
        let ghost ws = word_views(self.words@);
        let mut i: usize = 0;
        while i < self.words.len()
            invariant
                i <= self.words.len(),
                ws == word_views(self.words@),
                words_fit(ws),
                *self == *old(self),
                cursor_index == old(self).cursor.flat_index(),
                forall|j: int| 0 <= j < i ==> !covers(cursor_index as int)(#[trigger] ws[j]),
            decreases self.words.len() - i,
        {
            let position = self.words[i].1;
            let length = self.words[i].0.as_str().unicode_len();
            assert(ws[i as int] == (self.words@[i as int].0@, position));
            assert(position + length <= CHARACTERS_TOTAL);
            let end = position + length;
            if cursor_index >= position && cursor_index < end {
                proof {
                    lemma_first_where_is(ws, covers(cursor_index as int), i as int);
                }
                self.highlight = CursorHighlight::Word { start_index: position, length };
                return;
            }
            i = i + 1;
        }
        proof {
            lemma_first_where_none(ws, covers(cursor_index as int));
        }
        self.highlight = CursorHighlight::Char(cursor_index);
    }

    /// The number of places in which `word` agrees with the password,
    /// character by character up to the end of the shorter of the two.
    fn likeness_score(&self, word: &str) -> (n: usize)
        ensures
            n == likeness(self.solution@, word@),
    {
        let a = self.solution.as_str();
        let la = a.unicode_len();
        let lb = word.unicode_len();
        let n = if la <= lb { la } else { lb };
        let mut count: usize = 0;
        let mut i: usize = 0;
        while i < n
            invariant
                i <= n,
                la == a@.len(),
                lb == word@.len(),
                a@ == self.solution@,
                n == if la <= lb { la } else { lb },
                count == count_matching(a@, word@, i as nat),
                count <= i,
            decreases n - i,
        {
            if a.get_char(i) == word.get_char(i) {
                count = count + 1;
            }
            i = i + 1;
        }
        count
    }

    /// The text under the highlight: the highlighted character (read from the
    /// cursor's row within its block), or the first word that spans the
    /// highlight's start.
    pub fn get_highlighted_string(&self) -> (s: String)
        requires
            self.wf(),
        ensures
            s@ == self.spec_highlighted_string(),
    {
        match self.highlight {
            CursorHighlight::Char(position) => {
                one_char_string(self.content[self.cursor.row * CHARACTERS_PER_ROW + position % CHARACTERS_PER_ROW])
            },
            CursorHighlight::Word { start_index, length } => {
                let ghost ws = word_views(self.words@);
                proof {
                    lemma_first_where(ws, covers(self.cursor.flat_index()));
                    let k = first_where(ws, covers(self.cursor.flat_index()))->0;
                    assert(spans(start_index, length)(ws[k]));
                    assert(length <= CHARACTERS_TOTAL);
                }
                let mut i: usize = 0;
                while i < self.words.len()
                    invariant
                        i <= self.words.len(),
                        ws == word_views(self.words@),
                        words_fit(ws),
                        length <= CHARACTERS_TOTAL,
                        self.highlight == (CursorHighlight::Word { start_index, length }),
                        exists|k: int| 0 <= k < ws.len() && #[trigger] spans(start_index, length)(ws[k]),
                        forall|j: int| 0 <= j < i ==> !spans(start_index, length)(#[trigger] ws[j]),
                    decreases self.words.len() - i,
                {
                    let position = self.words[i].1;
                    assert(ws[i as int] == (self.words@[i as int].0@, position));
                    assert(position + length <= 2 * CHARACTERS_TOTAL);
                    if start_index >= position && start_index < position + length {
                        proof {
                            lemma_first_where_is(ws, spans(start_index, length), i as int);
                        }
                        return self.words[i].0.clone();
                    }
                    i = i + 1;
                }
                proof {
                    let k = choose|k: int| 0 <= k < ws.len() && #[trigger] spans(start_index, length)(ws[k]);
                    assert(!spans(start_index, length)(ws[k]));
                }
                String::new()
            },
        }
    }

    /// Clicks the highlighted thing: a single character gives its text, a
    /// word gives either the password or the word with its likeness.
    pub fn click(&mut self) -> (r: ClickResult)
        requires
            old(self).wf(),
        ensures
            *final(self) == *old(self),
            (r.kind, r.string@) == old(self).spec_click(),
    {
        match self.highlight {
            CursorHighlight::Char(position) => {
                let cursor = CursorPosition::from_index(position);
                let c = self.content[cursor.row * CHARACTERS_PER_ROW + cursor.column];
                ClickResult { kind: ClickResultKind::Char, string: one_char_string(c) }
            },
            CursorHighlight::Word { start_index, .. } => {
                let ghost ws = word_views(self.words@);
                proof {
                    lemma_first_where(ws, covers(self.cursor.flat_index()));
                    let k = first_where(ws, covers(self.cursor.flat_index()))->0;
                    assert(starts_at(start_index)(ws[k]));
                }
                let mut i: usize = 0;
                while i < self.words.len()
                    invariant
                        i <= self.words.len(),
                        ws == word_views(self.words@),
                        *self == *old(self),
                        self.highlight matches CursorHighlight::Word { start_index: st, .. } && st == start_index,
                        exists|k: int| 0 <= k < ws.len() && #[trigger] starts_at(start_index)(ws[k]),
                        forall|j: int| 0 <= j < i ==> !starts_at(start_index)(#[trigger] ws[j]),
                    decreases self.words.len() - i,
                {
                    assert(ws[i as int] == (self.words@[i as int].0@, self.words@[i as int].1));
                    if self.words[i].1 == start_index {
                        proof {
                            lemma_first_where_is(ws, starts_at(start_index), i as int);
                        }
                        let clicked_word = self.words[i].0.clone();
                        let kind = if clicked_word == self.solution {
                            ClickResultKind::Solution
                        } else {
                            let likeness = self.likeness_score(clicked_word.as_str());
                            ClickResultKind::Word { likeness }
                        };
                        return ClickResult { kind, string: clicked_word };
                    }
                    i = i + 1;
                }
                proof {
                    let k = choose|k: int| 0 <= k < ws.len() && #[trigger] starts_at(start_index)(ws[k]);
                    assert(!starts_at(start_index)(ws[k]));
                }
                ClickResult { kind: ClickResultKind::Char, string: String::new() }
            },
        }
    }
}

impl MainWidget {
    /// Moves the cursor to the grid cell under the screen cell
    /// `(column, row)` of the widget, if there is one; tells whether there was.
    pub fn move_cursor(&mut self, column: u16, row: u16) -> (moved: bool)
        requires
            old(self).wf(),
        ensures
            final(self).wf(),
            moved == spec_cursor_at(column, row) is Some,
            moved ==> final(self).cursor() == spec_cursor_at(column, row)->0,
            !moved ==> *final(self) == *old(self),
            final(self).grid() == old(self).grid(),
            final(self).words() == old(self).words(),
            final(self).solution() == old(self).solution(),
            final(self).first_offset() == old(self).first_offset(),
    {
        let area = rect_new(0, 0, WIDTH, HEIGHT);
        let first = rect_resize(area, BLOCK_WIDTH, HEIGHT);
        let second = rect_offset(rect_resize(area, BLOCK_WIDTH, HEIGHT), BLOCK_WIDTH as i32 + SPACING as i32, 0);
        let blocks: Vec<Area> = vec![first, second];
        assert(blocks@[0] == Area { x: 0, y: 0, width: 19, height: 17 });
        assert(blocks@[1] == Area { x: 20, y: 0, width: 19, height: 17 });
        let mut block_index: usize = 0;
        while block_index < blocks.len()
            invariant
                block_index <= blocks.len(),
                blocks.len() == 2,
                blocks@[0] == (Area { x: 0, y: 0, width: 19, height: 17 }),
                blocks@[1] == (Area { x: 20, y: 0, width: 19, height: 17 }),
                *self == *old(self),
                self.wf(),
                block_index >= 1 ==> !(7 <= column < 19 && row < 17),
                block_index >= 2 ==> !(27 <= column < 39 && row < 17),
            decreases blocks.len() - block_index,
        {
            let block_area = blocks[block_index];
            let content_area = rect_offset(
                rect_resize(block_area, COLUMNS_PER_BLOCK as u16, block_area.height),
                OFFSET_WIDTH as i32 + SPACING as i32,
                0,
            );
            if rect_contains(content_area, column, row) {
                let projected = position_offset(column, row, -(content_area.x as i32), -(content_area.y as i32));
                self.set_cursor(CursorPosition {
                    block: block_index,
                    column: projected.0 as usize,
                    row: projected.1 as usize,
                });
                return true;
            }
            block_index = block_index + 1;
        }
        false
    }
}

/// The characters the grid is filled with around the words.
pub open spec fn background_chars() -> Seq<char> {
    seq![
        ';', '$', '@', ':', '!', '%', '+', '_', '?', '/', ',', '.', '"', '\'', '-', '\\', '#', '*',
        '<', '>', '(', ')', '[', ']', '{', '}', '^', '=', '`',
    ]
}

/// The number of background characters.
pub const BACKGROUND_COUNT: usize = 29;

/// The `i`-th background character.
fn background_char(i: usize) -> (c: char)
    requires
        i < BACKGROUND_COUNT,
    ensures
        c == background_chars()[i as int],
        '\0' <= c <= '\u{7f}',
{
    let chars: Vec<char> = vec![
        ';', '$', '@', ':', '!', '%', '+', '_', '?', '/', ',', '.', '"', '\'', '-', '\\', '#', '*',
        '<', '>', '(', ')', '[', ']', '{', '}', '^', '=', '`',
    ];
    assert(chars@ == background_chars());
    chars[i]
}

/// Every character of the grid is a background character.
pub open spec fn is_background(grid: Seq<char>) -> bool {
    forall|i: int| 0 <= i < grid.len() ==> background_chars().contains(#[trigger] grid[i])
}

/// A grid of random background characters: the character of each cell is
/// the background character at the position drawn for that cell.
fn random_background(rng: &mut rand::rngs::ThreadRng) -> (r: (Vec<char>, Draws))
    ensures
        r.0.len() == CHARACTERS_TOTAL,
        is_background(r.0@),
        is_ascii_chars(r.0@),
        r.1.values().len() == CHARACTERS_TOTAL,
        forall|i: int|
            0 <= i < CHARACTERS_TOTAL ==> #[trigger] r.1.values()[i] < BACKGROUND_COUNT && r.0@[i]
                == background_chars()[r.1.values()[i] as int],
{
    let mut draws = Draws::new();
    let mut v: Vec<char> = Vec::new();
    let mut i: usize = 0;
    while i < CHARACTERS_TOTAL
        invariant
            i <= CHARACTERS_TOTAL,
            v.len() == i,
            draws.values().len() == i,
            is_background(v@),
            is_ascii_chars(v@),
            forall|j: int|
                0 <= j < i ==> #[trigger] draws.values()[j] < BACKGROUND_COUNT && v@[j]
                    == background_chars()[draws.values()[j] as int],
        decreases CHARACTERS_TOTAL - i,
    {
        let k = draws.below(rng, BACKGROUND_COUNT);
        let c = background_char(k);
        v.push(c);
        assert(v@[i as int] == background_chars()[k as int]);
        i = i + 1;
    }
    (v, draws)
}

/// A random first address: the row drawn below `MAX_FIRST_OFFSET`, times the
/// row length.
fn random_first_offset(rng: &mut rand::rngs::ThreadRng) -> (r: (usize, Draws))
    ensures
        r.0 % CHARACTERS_PER_ROW == 0,
        r.0 < MAX_FIRST_OFFSET * CHARACTERS_PER_ROW,
        r.1.values().len() == 1,
        r.1.values()[0] < MAX_FIRST_OFFSET,
        r.0 == r.1.values()[0] * CHARACTERS_PER_ROW,
{
    let mut draws = Draws::new();
    let k = draws.below(rng, MAX_FIRST_OFFSET);
    (k * COLUMNS_PER_BLOCK, draws)
}

/// The password: the word at the position drawn among the words.
fn pick_solution(rng: &mut rand::rngs::ThreadRng, words: &Vec<(String, usize)>) -> (r: (String, Draws))
    requires
        words.len() > 0,
    ensures
        r.1.values().len() == 1,
        r.1.values()[0] < words.len(),
        r.0@ == words@[r.1.values()[0] as int].0@,
{
    let mut draws = Draws::new();
    let s = draws.below(rng, words.len());
    (words[s].0.clone(), draws)
}

/// The texts of a list of strings.
pub open spec fn texts(list: Seq<String>) -> Seq<Seq<char>> {
    list.map_values(|w: String| w@)
}

/// How many different words a list holds.
pub open spec fn distinct_count(list: Seq<String>) -> nat {
    texts(list).to_set().len()
}

/// No text occurs twice.
pub open spec fn all_distinct(s: Seq<Seq<char>>) -> bool {
    forall|i: int, j: int| 0 <= i < j < s.len() ==> s[i] != s[j]
}

/// Every word of the list is ASCII and has the given length.
///
/// ASCII because a word goes into the grid in upper case, one character per
/// cell, and its cells are counted from its length: upper case keeps the
/// length of ASCII text and keeps it ASCII (`lemma_ascii_upper`), while of
/// other text `uppercase_of` promises neither (`ß` becomes `SS`). ASCII also
/// makes a row of twelve characters a row of twelve bytes, the unit in which
/// the grid's text is drawn.
pub open spec fn list_words_fit(list: Seq<String>, word_length: usize) -> bool {
    forall|i: int| 0 <= i < list.len() ==> {
        &&& (#[trigger] list[i])@.len() == word_length
        &&& is_ascii_chars(list[i]@)
    }
}

/// The word list for `word_length` exists, holds at least `count` different
/// words, and all its words are ASCII words of that length.
pub open spec fn can_draw_words(wordlists: Seq<(usize, Vec<String>)>, word_length: usize, count: usize) -> bool {
    &&& spec_by_word_length(wordlists, word_length) is Some
    &&& distinct_count(spec_by_word_length(wordlists, word_length)->0@) >= count
    &&& list_words_fit(spec_by_word_length(wordlists, word_length)->0@, word_length)
}

/// Tells whether the word list for `word_length` exists, holds at least
/// `count` different words, and holds only ASCII words of that length.
pub fn can_draw(wordlists: &WordLists, word_length: usize, count: usize) -> (b: bool)
    ensures
        b == can_draw_words(wordlists@, word_length, count),
{
    let list = match by_word_length(wordlists, word_length) {
        Some(l) => l,
        None => {
            return false;
        },
    };
    let mut i: usize = 0;
    while i < list.len()
        invariant
            i <= list.len(),
            spec_by_word_length(wordlists@, word_length) == Some(*list),
            list_words_fit(list@.subrange(0, i as int), word_length),
        decreases list.len() - i,
    {
        let w = &list[i];
        let len_ok = w.as_str().unicode_len() == word_length;
        let ascii = w.is_ascii();
        if !len_ok || !ascii {
            proof {
                assert(list@[i as int]@.len() != word_length || !is_ascii_chars(list@[i as int]@));
                assert(!list_words_fit(list@, word_length));
            }
            return false;
        }
        proof {
            let sub = list@.subrange(0, i + 1);
            assert forall|k: int| 0 <= k < sub.len() implies {
                &&& (#[trigger] sub[k])@.len() == word_length
                &&& is_ascii_chars(sub[k]@)
            } by {
                if k < i {
                    assert(sub[k] == list@.subrange(0, i as int)[k]);
                }
            }
        }
        i = i + 1;
    }
    assert(list@.subrange(0, list.len() as int) == list@);
    let n = distinct_at_least(list, count);
    n
}

/// Tells whether the list holds at least `count` different words.
fn distinct_at_least(list: &Vec<String>, count: usize) -> (b: bool)
    ensures
        b == (distinct_count(list@) >= count),
{
    let mut seen: Vec<String> = Vec::new();
    let mut i: usize = 0;
    while i < list.len() && seen.len() < count
        invariant
            i <= list.len(),
            seen.len() <= count,
            all_distinct(texts(seen@)),
            forall|k: int| 0 <= k < seen.len() ==> texts(list@).contains(#[trigger] texts(seen@)[k]),
            forall|j: int| 0 <= j < i ==> texts(seen@).contains(#[trigger] list@[j]@),
        decreases list.len() - i,
    {
        let ghost before = texts(seen@);
        if !contains_text(&seen, &list[i]) {
            seen.push(list[i].clone());
            proof {
                assert(texts(seen@) =~= before.push(list@[i as int]@));
                assert(texts(list@)[i as int] == list@[i as int]@);
                assert forall|j: int| 0 <= j < i + 1 implies texts(seen@).contains(#[trigger] list@[j]@) by {
                    if j < i {
                        let m = choose|m: int| 0 <= m < before.len() && before[m] == list@[j]@;
                        assert(texts(seen@)[m] == list@[j]@);
                    } else {
                        assert(texts(seen@)[before.len() as int] == list@[j]@);
                    }
                }
            }
        }
        i = i + 1;
    }
    proof {
        let ts = texts(seen@);
        let tl = texts(list@);
        assert(ts.no_duplicates());
        ts.unique_seq_to_set();
        vstd::seq_lib::seq_to_set_is_finite(tl);
        vstd::seq_lib::seq_to_set_is_finite(ts);
        assert forall|x| ts.to_set().contains(x) implies tl.to_set().contains(x) by {
            let k = choose|k: int| 0 <= k < ts.len() && ts[k] == x;
            assert(tl.contains(ts[k]));
        }
        vstd::set_lib::lemma_len_subset(ts.to_set(), tl.to_set());
        if seen.len() < count {
            assert forall|x| tl.to_set().contains(x) implies ts.to_set().contains(x) by {
                let j = choose|j: int| 0 <= j < tl.len() && tl[j] == x;
                assert(tl[j] == list@[j]@);
                assert(ts.contains(list@[j]@));
            }
            assert(ts.to_set() =~= tl.to_set());
        }
    }
    seen.len() >= count
}

/// `words` are the upper-case forms of `count` different words of `list`.
pub open spec fn drawn_from(words: Seq<Seq<char>>, list: Seq<String>, count: usize) -> bool {
    exists|sources: Seq<Seq<char>>| {
        &&& sources.len() == count
        &&& words.len() == count
        &&& all_distinct(sources)
        &&& forall|i: int| 0 <= i < count ==> {
            &&& texts(list).contains(#[trigger] sources[i])
            &&& words[i] == ascii_upper(sources[i])
        }
    }
}

/// The text of `w` is among those of `chosen`.
pub(crate) fn contains_text(chosen: &Vec<String>, w: &String) -> (b: bool)
    ensures
        b == texts(chosen@).contains(w@),
{
    let mut i: usize = 0;
    while i < chosen.len()
        invariant
            i <= chosen.len(),
            forall|j: int| 0 <= j < i ==> (#[trigger] chosen@[j])@ != w@,
        decreases chosen.len() - i,
    {
        if chosen[i] == *w {
            assert(texts(chosen@)[i as int] == w@);
            return true;
        }
        i = i + 1;
    }
    assert forall|j: int| 0 <= j < texts(chosen@).len() implies texts(chosen@)[j] != w@ by {
        assert(texts(chosen@)[j] == chosen@[j]@);
    }
    false
}

/// The indices of the list whose word is none of the `taken` texts.
pub open spec fn untaken(list: Seq<String>, taken: Seq<Seq<char>>) -> Set<int> {
    Set::new(|j: int| 0 <= j < list.len() && !taken.contains(list[j]@))
}

/// The texts of the list at the given indices.
pub open spec fn texts_at(list: Seq<String>, picks: Seq<int>) -> Seq<Seq<char>> {
    picks.map_values(|k: int| list[k]@)
}

/// The `i`-th pick is the index the draw `d` picked among those whose word
/// was not picked before: its word is new, exactly `d` such indices come
/// before it, and `d` is below their number, so that any of them could have
/// been picked.
pub open spec fn word_picked_by_draw(list: Seq<String>, picks: Seq<int>, i: int, d: usize) -> bool {
    let open_indices = untaken(list, texts_at(list, picks.subrange(0, i)));
    &&& open_indices.contains(picks[i])
    &&& open_indices.filter(|q: int| q < picks[i]).len() == d
    &&& d < open_indices.len()
}

/// Each word is the upper case of the word at the index its draw picked:
/// one pick and one word per draw, the `i`-th picked by the `i`-th draw.
pub open spec fn words_picked_by_draws(list: Seq<String>, picks: Seq<int>, draws: Seq<usize>, words: Seq<Seq<char>>) -> bool {
    &&& picks.len() == draws.len()
    &&& words.len() == draws.len()
    &&& forall|i: int|
        0 <= i < draws.len() ==> word_picked_by_draw(list, picks, i, #[trigger] draws[i]) && words[i] == ascii_upper(
            list[picks[i]]@,
        )
}

/// `count` different words of the given length, drawn at random from the
/// word lists and put in upper case: the `i`-th word is the word at the
/// index that the `i`-th draw picked among the indices whose word was not
/// drawn yet.
fn random_unique_words(
    rng: &mut rand::rngs::ThreadRng,
    wordlists: &WordLists,
    word_length: usize,
    count: usize,
) -> (r: (Vec<String>, Draws))
    requires
        can_draw_words(wordlists@, word_length, count),
    ensures
        drawn_from(texts(r.0@), spec_by_word_length(wordlists@, word_length)->0@, count),
        r.0.len() == count,
        forall|i: int| 0 <= i < count ==> {
            &&& (#[trigger] r.0@[i])@.len() == word_length
            &&& is_ascii_chars(r.0@[i]@)
        },
        r.1.values().len() == count,
        exists|picks: Seq<int>|
            #[trigger] words_picked_by_draws(spec_by_word_length(wordlists@, word_length)->0@, picks, r.1.values(), texts(r.0@)),
{
    let wordlist = match by_word_length(wordlists, word_length) {
        Some(l) => l,
        None => {
            assert(false);
            return (Vec::new(), Draws::new());
        },
    };
    let ghost list = wordlist@;
    let mut draws = Draws::new();
    let ghost mut picks: Seq<int> = Seq::empty();
    let mut chosen: Vec<String> = Vec::new();
    while chosen.len() < count
        invariant
            list == wordlist@,
            list == spec_by_word_length(wordlists@, word_length)->0@,
            distinct_count(list) >= count,
            list_words_fit(list, word_length),
            chosen.len() <= count,
            all_distinct(texts(chosen@)),
            forall|i: int| 0 <= i < chosen.len() ==> texts(list).contains(#[trigger] texts(chosen@)[i]),
            picks.len() == chosen.len(),
            draws.values().len() == chosen.len(),
            forall|i: int| 0 <= i < picks.len() ==> 0 <= #[trigger] picks[i] < list.len(),
            texts(chosen@) == texts_at(list, picks),
            forall|i: int| 0 <= i < picks.len() ==> word_picked_by_draw(list, picks, i, #[trigger] draws.values()[i]),
        decreases count - chosen.len(),
    {
        let mut candidates: Vec<usize> = Vec::new();
        let mut j: usize = 0;
        while j < wordlist.len()
            invariant
                j <= wordlist.len(),
                list == wordlist@,
                forall|k: int| 0 <= k < candidates.len() ==> {
                    &&& #[trigger] candidates@[k] < j
                    &&& !texts(chosen@).contains(wordlist@[candidates@[k] as int]@)
                },
                forall|k: int| 0 <= k < j && !texts(chosen@).contains(#[trigger] wordlist@[k]@) ==> candidates@.contains(k as usize),
                forall|a: int, b: int| 0 <= a < b < candidates.len() ==> candidates@[a] < candidates@[b],
            decreases wordlist.len() - j,
        {
            let ghost old_candidates = candidates@;
            if !contains_text(&chosen, &wordlist[j]) {
                candidates.push(j);
                proof {
                    assert forall|k: int| 0 <= k < j && !texts(chosen@).contains(#[trigger] wordlist@[k]@)
                        implies candidates@.contains(k as usize) by {
                        let m = choose|m: int| 0 <= m < old_candidates.len() && old_candidates[m] == k as usize;
                        assert(candidates@[m] == k as usize);
                    }
                    assert(candidates@[candidates.len() - 1] == j);
                    assert forall|a: int, b: int| 0 <= a < b < candidates.len() implies candidates@[a] < candidates@[b] by {
                        if b == candidates.len() - 1 {
                            assert(old_candidates[a] < j);
                        }
                    }
                }
            }
            j = j + 1;
        }
        if candidates.len() == 0 {
            proof {
                lemma_all_chosen(list, texts(chosen@));
                assert(false);
            }
            return (Vec::new(), draws);
        }
        let ghost old_draws = draws.values();
        let r = draws.below(rng, candidates.len());
        let w = wordlist[candidates[r]].clone();
        let ghost old_chosen = texts(chosen@);
        let ghost old_picks = picks;
        proof {
            assert(texts(list)[candidates@[r as int] as int] == w@);
            let open_indices = untaken(list, texts_at(list, picks));
            assert forall|k: int| 0 <= k < candidates.len() implies open_indices.contains(#[trigger] candidates@[k] as int) by {
                assert(candidates@[k] < wordlist.len());
            }
            assert forall|p: int| open_indices.contains(p) implies 0 <= p <= usize::MAX && candidates@.contains(p as usize) by {
                assert(!texts(chosen@).contains(wordlist@[p]@));
            }
            lemma_sorted_list_ranks(open_indices, candidates@, r as int);
            picks = picks.push(candidates@[r as int] as int);
        }
        chosen.push(w);
        proof {
            assert(texts(chosen@) =~= old_chosen.push(w@));
            assert(texts_at(list, picks) =~= texts_at(list, old_picks).push(w@));
            assert forall|a: int, b: int| 0 <= a < b < texts(chosen@).len() implies texts(chosen@)[a] != texts(chosen@)[b] by {
                if b == texts(chosen@).len() - 1 {
                    assert(old_chosen[a] == texts(chosen@)[a]);
                }
            }
            assert forall|i: int| 0 <= i < picks.len() implies word_picked_by_draw(list, picks, i, #[trigger] draws.values()[i]) by {
                if i < old_picks.len() {
                    assert(picks.subrange(0, i) =~= old_picks.subrange(0, i));
                    assert(picks[i] == old_picks[i]);
                    assert(draws.values()[i] == old_draws[i]);
                    assert(word_picked_by_draw(list, old_picks, i, old_draws[i]));
                } else {
                    assert(picks.subrange(0, i) =~= old_picks);
                    assert(draws.values()[i] == r);
                }
            }
        }
    }
    let mut words: Vec<String> = Vec::new();
    let mut i: usize = 0;
    while i < chosen.len()
        invariant
            i <= chosen.len(),
            chosen.len() == count,
            words.len() == i,
            list == spec_by_word_length(wordlists@, word_length)->0@,
            list_words_fit(list, word_length),
            forall|k: int| 0 <= k < chosen.len() ==> texts(list).contains(#[trigger] texts(chosen@)[k]),
            forall|k: int| 0 <= k < i ==> (#[trigger] words@[k])@ == ascii_upper(chosen@[k]@),
            forall|k: int| 0 <= k < i ==> (#[trigger] words@[k])@.len() == word_length && is_ascii_chars(words@[k]@),
        decreases chosen.len() - i,
    {
        proof {
            assert(texts(list).contains(texts(chosen@)[i as int]));
            let m = choose|m: int| 0 <= m < texts(list).len() && texts(list)[m] == texts(chosen@)[i as int];
            assert(list[m]@ == chosen@[i as int]@);
            lemma_ascii_upper(chosen@[i as int]@);
        }
        let u = to_uppercase(chosen[i].as_str());
        words.push(u);
        i = i + 1;
    }
    proof {
        let sources = texts(chosen@);
        assert forall|k: int| 0 <= k < count implies {
            &&& texts(list).contains(#[trigger] sources[k])
            &&& texts(words@)[k] == ascii_upper(sources[k])
        } by {
            assert(texts(words@)[k] == words@[k]@);
        }
        assert(texts(words@).len() == count);
        assert forall|k: int| 0 <= k < count implies word_picked_by_draw(list, picks, k, #[trigger] draws.values()[k])
            && texts(words@)[k] == ascii_upper(list[picks[k]]@) by {
            assert(texts(chosen@)[k] == chosen@[k]@);
            assert(texts(words@)[k] == words@[k]@);
            assert(texts_at(list, picks)[k] == list[picks[k]]@);
        }
        assert(words_picked_by_draws(list, picks, draws.values(), texts(words@)));
    }
    let result = (words, draws);
    proof {
        assert(words_picked_by_draws(spec_by_word_length(wordlists@, word_length)->0@, picks, result.1.values(), texts(result.0@)));
    }
    result
}

/// Upper case keeps the length of ASCII text and keeps it ASCII.
proof fn lemma_ascii_upper(s: Seq<char>)
    requires
        is_ascii_chars(s),
    ensures
        ascii_upper(s).len() == s.len(),
        is_ascii_chars(ascii_upper(s)),
{
    let u = ascii_upper(s);
    assert forall|i| 0 <= i < u.len() implies '\0' <= #[trigger] u[i] <= '\u{7f}' by {
        assert(u[i] == crate::text::ascii_upper_char(s[i]));
    }
}

/// When every word of the list has been chosen already, the chosen words are
/// at least as many as the different words of the list.
proof fn lemma_all_chosen(list: Seq<String>, chosen: Seq<Seq<char>>)
    requires
        forall|k: int| 0 <= k < list.len() ==> chosen.contains(#[trigger] list[k]@),
    ensures
        distinct_count(list) <= chosen.len(),
{
    let a = texts(list).to_set();
    let b = chosen.to_set();
    assert forall|x| a.contains(x) implies b.contains(x) by {
        let k = choose|k: int| 0 <= k < texts(list).len() && texts(list)[k] == x;
        assert(texts(list)[k] == list[k]@);
    }
    vstd::seq_lib::seq_to_set_is_finite(chosen);
    vstd::set_lib::lemma_len_subset(a, b);
    chosen.lemma_cardinality_of_set();
}

/// A new word at `p` keeps the required distance from a word at `q`: more
/// than the word length between their starts.
pub open spec fn apart(p: int, q: int, word_length: int) -> bool {
    p + word_length < q || q + word_length < p
}

/// Any two of the positions are apart.
pub open spec fn all_apart(positions: Seq<usize>, word_length: usize) -> bool {
    forall|i: int, j: int|
        0 <= i < positions.len() && 0 <= j < positions.len() && i != j ==> apart(
            #[trigger] positions[i] as int,
            #[trigger] positions[j] as int,
            word_length as int,
        )
}

/// `p` is a free place for a new word: inside the range of starts and apart
/// from every word placed so far.
pub open spec fn is_free(placed: Seq<usize>, p: int, word_length: usize) -> bool {
    &&& 0 <= p < CHARACTERS_TOTAL - word_length
    &&& forall|i: int| 0 <= i < placed.len() ==> apart(p, #[trigger] placed[i] as int, word_length as int)
}

/// All free places for the next word, in increasing order.
fn free_positions(placed: &Vec<usize>, word_length: usize) -> (candidates: Vec<usize>)
    requires
        word_length < CHARACTERS_TOTAL,
    ensures
        forall|k: int| 0 <= k < candidates.len() ==> is_free(placed@, #[trigger] candidates@[k] as int, word_length),
        forall|p: int| is_free(placed@, p, word_length) ==> candidates@.contains(p as usize),
        forall|a: int, b: int| 0 <= a < b < candidates.len() ==> candidates@[a] < candidates@[b],
{
    let limit = CHARACTERS_TOTAL - word_length;
    let mut candidates: Vec<usize> = Vec::new();
    let mut p: usize = 0;
    while p < limit
        invariant
            limit == CHARACTERS_TOTAL - word_length,
            p <= limit,
            forall|k: int| 0 <= k < candidates.len() ==> is_free(placed@, #[trigger] candidates@[k] as int, word_length),
            forall|k: int| 0 <= k < candidates.len() ==> #[trigger] candidates@[k] < p,
            forall|q: int| 0 <= q < p && is_free(placed@, q, word_length) ==> candidates@.contains(q as usize),
            forall|a: int, b: int| 0 <= a < b < candidates.len() ==> candidates@[a] < candidates@[b],
        decreases limit - p,
    {
        let mut ok = true;
        let mut i: usize = 0;
        while i < placed.len()
            invariant
                i <= placed.len(),
                p < limit,
                limit == CHARACTERS_TOTAL - word_length,
                ok == forall|m: int| 0 <= m < i ==> apart(p as int, #[trigger] placed@[m] as int, word_length as int),
            decreases placed.len() - i,
        {
            let position = placed[i];
            if p + word_length < position || position + word_length < p {
            } else {
                ok = false;
            }
            i = i + 1;
        }
        let ghost old_candidates = candidates@;
        if ok {
            candidates.push(p);
            proof {
                assert forall|q: int| 0 <= q < p + 1 && is_free(placed@, q, word_length) implies candidates@.contains(q as usize) by {
                    if q < p {
                        let m = choose|m: int| 0 <= m < old_candidates.len() && old_candidates[m] == q as usize;
                        assert(candidates@[m] == q as usize);
                    } else {
                        assert(candidates@[candidates.len() - 1] == p);
                    }
                }
            }
        }
        p = p + 1;
    }
    candidates
}

/// There is always room for `count` words of the given length drawn one
/// after the other: even when every word placed so far blocks as many starts
/// as it can, a start is left for the last word.
pub open spec fn always_room(count: usize, word_length: usize) -> bool {
    count == 0 || (count - 1) * (2 * word_length + 1) + word_length < CHARACTERS_TOTAL
}

/// Placing `count` words of the given length one after the other can stall:
/// fewer than `count` places, each inside the grid and apart from the
/// others, can leave no free place for the next word.
pub open spec fn placement_can_stall(count: usize, word_length: usize) -> bool {
    exists|placed: Seq<usize>|
        {
            &&& placed.len() < count
            &&& forall|i: int| 0 <= i < placed.len() ==> #[trigger] placed[i] + word_length < CHARACTERS_TOTAL
            &&& all_apart(placed, word_length)
            &&& forall|p: int| !is_free(placed, p, word_length)
        }
}

/// The places still free for the next word after those in `placed`.
pub open spec fn free_places(placed: Seq<usize>, word_length: usize) -> Set<int> {
    Set::new(|p: int| is_free(placed, p, word_length))
}

/// How many free places lie before `p`: `p` is the free place of that rank,
/// counting from zero in increasing order.
pub open spec fn rank_among_free(placed: Seq<usize>, p: int, word_length: usize) -> nat {
    free_places(placed, word_length).filter(|q: int| q < p).len()
}

/// The `i`-th place of `positions` is the free place (left by the places
/// before it) that the draw `d` picked: it is free, exactly `d` free places
/// come before it, and `d` is below the number of free places, so that any
/// free place could have been picked.
pub open spec fn picked_by_draw(positions: Seq<usize>, i: int, d: usize, word_length: usize) -> bool {
    let before = positions.subrange(0, i);
    &&& is_free(before, positions[i] as int, word_length)
    &&& rank_among_free(before, positions[i] as int, word_length) == d
    &&& d < free_places(before, word_length).len()
}

/// Of two free places, the earlier has the smaller rank.
proof fn lemma_rank_increases(placed: Seq<usize>, p1: int, p2: int, word_length: usize)
    requires
        is_free(placed, p1, word_length),
        p1 < p2,
    ensures
        rank_among_free(placed, p1, word_length) < rank_among_free(placed, p2, word_length),
{
    let free = free_places(placed, word_length);
    let a = free.filter(|q: int| q < p1);
    let b = free.filter(|q: int| q < p2);
    let range = vstd::set_lib::set_int_range(0, CHARACTERS_TOTAL as int);
    assert(b.subset_of(range));
    vstd::set_lib::lemma_int_range(0, CHARACTERS_TOTAL as int);
    vstd::set_lib::lemma_len_subset(b, range);
    assert(a.subset_of(b));
    vstd::set_lib::lemma_len_subset(a, b);
    assert(b.contains(p1));
    assert(a.insert(p1).subset_of(b));
    assert(!a.contains(p1));
    assert(a.insert(p1).len() == a.len() + 1);
    vstd::set_lib::lemma_len_subset(a.insert(p1), b);
}

/// Every free place can be picked: its rank is a draw below the number of
/// free places.
pub proof fn lemma_every_free_place_can_be_picked(placed: Seq<usize>, p: int, word_length: usize)
    requires
        is_free(placed, p, word_length),
    ensures
        rank_among_free(placed, p, word_length) < free_places(placed, word_length).len(),
{
    let free = free_places(placed, word_length);
    let below = free.filter(|q: int| q < p);
    let range = vstd::set_lib::set_int_range(0, CHARACTERS_TOTAL as int);
    vstd::set_lib::lemma_int_range(0, CHARACTERS_TOTAL as int);
    assert(free.subset_of(range));
    vstd::set_lib::lemma_len_subset(free, range);
    assert(below.insert(p).subset_of(free));
    vstd::set_lib::lemma_len_subset(below, free);
    assert(!below.contains(p));
    vstd::set_lib::lemma_len_subset(below.insert(p), free);
}

/// The draws decide the places: two placements in which every place is the
/// one its draw picked, with the same draws, are the same placement.
pub proof fn lemma_draws_decide_places(v1: Seq<usize>, v2: Seq<usize>, draws: Seq<usize>, word_length: usize)
    requires
        v1.len() == draws.len(),
        v2.len() == draws.len(),
        forall|i: int| 0 <= i < draws.len() ==> picked_by_draw(v1, i, #[trigger] draws[i], word_length),
        forall|i: int| 0 <= i < draws.len() ==> picked_by_draw(v2, i, #[trigger] draws[i], word_length),
    ensures
        v1 == v2,
    decreases draws.len(),
{
    if draws.len() > 0 {
        let n = draws.len() - 1;
        let d = draws.drop_last();
        assert forall|i: int| 0 <= i < d.len() implies picked_by_draw(v1.drop_last(), i, #[trigger] d[i], word_length) by {
            assert(v1.drop_last().subrange(0, i) =~= v1.subrange(0, i));
            assert(picked_by_draw(v1, i, draws[i], word_length));
        }
        assert forall|i: int| 0 <= i < d.len() implies picked_by_draw(v2.drop_last(), i, #[trigger] d[i], word_length) by {
            assert(v2.drop_last().subrange(0, i) =~= v2.subrange(0, i));
            assert(picked_by_draw(v2, i, draws[i], word_length));
        }
        lemma_draws_decide_places(v1.drop_last(), v2.drop_last(), d, word_length);
        assert(v1.subrange(0, n) =~= v1.drop_last());
        assert(v2.subrange(0, n) =~= v2.drop_last());
        let before = v1.subrange(0, n);
        assert(v2.subrange(0, n) == before);
        assert(picked_by_draw(v1, n, draws[n], word_length));
        assert(picked_by_draw(v2, n, draws[n], word_length));
        if v1[n] < v2[n] {
            lemma_rank_increases(before, v1[n] as int, v2[n] as int, word_length);
            assert(false);
        } else if v2[n] < v1[n] {
            lemma_rank_increases(before, v2[n] as int, v1[n] as int, word_length);
            assert(false);
        }
        assert(v1[n] == v2[n]);
        assert forall|i: int| 0 <= i < v1.len() implies v1[i] == v2[i] by {
            if i < n {
                assert(v1[i] == v1.drop_last()[i]);
                assert(v2[i] == v2.drop_last()[i]);
            }
        }
        assert(v1 =~= v2);
    }
}

/// A list in increasing order of exactly the members of a set of
/// non-negative numbers: it is as long as the set is large, and the member
/// at index `r` has exactly `r` members of the set before it.
proof fn lemma_sorted_list_ranks(set: Set<int>, list: Seq<usize>, r: int)
    requires
        forall|k: int| 0 <= k < list.len() ==> set.contains(#[trigger] list[k] as int),
        forall|p: int| set.contains(p) ==> 0 <= p <= usize::MAX && list.contains(p as usize),
        forall|a: int, b: int| 0 <= a < b < list.len() ==> list[a] < list[b],
        0 <= r < list.len(),
    ensures
        set.finite(),
        set.len() == list.len(),
        set.filter(|q: int| q < list[r] as int).len() == r,
{
    let cs = list.map_values(|x: usize| x as int);
    assert forall|p: int| cs.to_set().contains(p) == set.contains(p) by {
        if set.contains(p) {
            let k = choose|k: int| 0 <= k < list.len() && list[k] == p as usize;
            assert(cs[k] == p);
        }
        if cs.to_set().contains(p) {
            let k = choose|k: int| 0 <= k < cs.len() && cs[k] == p;
            assert(set.contains(list[k] as int));
        }
    }
    assert(cs.to_set() =~= set);
    assert(cs.no_duplicates());
    cs.unique_seq_to_set();
    vstd::seq_lib::seq_to_set_is_finite(cs);
    let top = list[r] as int;
    let below = set.filter(|q: int| q < top);
    let ps = cs.subrange(0, r);
    assert forall|p: int| ps.to_set().contains(p) == below.contains(p) by {
        if below.contains(p) {
            let k = choose|k: int| 0 <= k < list.len() && list[k] == p as usize;
            if k >= r {
                assert(list[k] >= list[r]);
            }
            assert(ps[k] == p);
        }
        if ps.to_set().contains(p) {
            let k = choose|k: int| 0 <= k < ps.len() && ps[k] == p;
            assert(cs[k] == p);
            assert(list[k] < list[r]);
            assert(set.contains(list[k] as int));
        }
    }
    assert(ps.to_set() =~= below);
    assert(ps.no_duplicates());
    ps.unique_seq_to_set();
}

/// The free places listed in increasing order: the list holds as many as
/// there are free places, and the one at index `r` has exactly `r` free
/// places before it.
proof fn lemma_rank_among_candidates(placed: Seq<usize>, word_length: usize, candidates: Seq<usize>, r: int)
    requires
        forall|k: int| 0 <= k < candidates.len() ==> is_free(placed, #[trigger] candidates[k] as int, word_length),
        forall|p: int| is_free(placed, p, word_length) ==> candidates.contains(p as usize),
        forall|a: int, b: int| 0 <= a < b < candidates.len() ==> candidates[a] < candidates[b],
        0 <= r < candidates.len(),
    ensures
        free_places(placed, word_length).len() == candidates.len(),
        rank_among_free(placed, candidates[r] as int, word_length) == r,
{
    let free = free_places(placed, word_length);
    assert forall|k: int| 0 <= k < candidates.len() implies free.contains(#[trigger] candidates[k] as int) by {
        assert(is_free(placed, candidates[k] as int, word_length));
    }
    lemma_sorted_list_ranks(free, candidates, r);
}

/// Starting places for `count` words of the given length, drawn at random
/// one after the other, each from the places still free: inside the grid and
/// apart from all earlier ones. `None` when, at some word, no place was
/// left free.
fn random_positions(rng: &mut rand::rngs::ThreadRng, count: usize, word_length: usize) -> (r: (
    Option<Vec<usize>>,
    Draws,
))
    requires
        word_length < CHARACTERS_TOTAL,
    ensures
        r.0 matches Some(v) ==> {
            &&& v.len() == count
            &&& forall|i: int| 0 <= i < count ==> #[trigger] v@[i] + word_length < CHARACTERS_TOTAL
            &&& all_apart(v@, word_length)
            &&& r.1.values().len() == count
            &&& forall|i: int| 0 <= i < count ==> picked_by_draw(v@, i, #[trigger] r.1.values()[i], word_length)
        },
        always_room(count, word_length) ==> r.0 is Some,
        r.0 is None ==> placement_can_stall(count, word_length),
{
    let mut draws = Draws::new();
    let mut placed: Vec<usize> = Vec::new();
    while placed.len() < count
        invariant
            word_length < CHARACTERS_TOTAL,
            placed.len() <= count,
            forall|i: int| 0 <= i < placed.len() ==> #[trigger] placed@[i] + word_length < CHARACTERS_TOTAL,
            all_apart(placed@, word_length),
            draws.values().len() == placed.len(),
            forall|i: int| 0 <= i < placed.len() ==> picked_by_draw(placed@, i, #[trigger] draws.values()[i], word_length),
        decreases count - placed.len(),
    {
        let candidates = free_positions(&placed, word_length);
        proof {
            lemma_enough_free(placed@, word_length, candidates@);
            if always_room(count, word_length) {
                let k = placed.len() as int;
                let l = word_length as int;
                assert(k * (2 * l + 1) <= (count - 1) * (2 * l + 1)) by (nonlinear_arith)
                    requires
                        0 <= k <= count - 1,
                        l >= 0,
                ;
            }
        }
        if candidates.len() == 0 {
            proof {
                assert forall|p: int| !is_free(placed@, p, word_length) by {
                    if is_free(placed@, p, word_length) {
                        assert(candidates@.contains(p as usize));
                    }
                }
            }
            return (None, draws);
        }
        let ghost old_draws = draws.values();
        let r = draws.below(rng, candidates.len());
        let p = candidates[r];
        let ghost old_placed = placed@;
        proof {
            assert(is_free(old_placed, p as int, word_length));
            lemma_rank_among_candidates(old_placed, word_length, candidates@, r as int);
        }
        placed.push(p);
        proof {
            assert(placed@.subrange(0, old_placed.len() as int) =~= old_placed);
            assert forall|i: int| 0 <= i < placed.len() implies picked_by_draw(placed@, i, #[trigger] draws.values()[i], word_length) by {
                if i < old_placed.len() {
                    assert(placed@.subrange(0, i) =~= old_placed.subrange(0, i));
                    assert(placed@[i] == old_placed[i]);
                    assert(draws.values()[i] == old_draws[i]);
                    assert(picked_by_draw(old_placed, i, old_draws[i], word_length));
                } else {
                    assert(draws.values()[i] == r);
                }
            }
            assert forall|i: int, j: int|
                0 <= i < placed@.len() && 0 <= j < placed@.len() && i != j implies apart(
                    #[trigger] placed@[i] as int,
                    #[trigger] placed@[j] as int,
                    word_length as int,
                ) by {
                let last = placed@.len() - 1;
                if i == last {
                    assert(placed@[j] == old_placed[j]);
                    assert(apart(p as int, old_placed[j] as int, word_length as int));
                } else if j == last {
                    assert(placed@[i] == old_placed[i]);
                    assert(apart(p as int, old_placed[i] as int, word_length as int));
                } else {
                    assert(placed@[i] == old_placed[i]);
                    assert(placed@[j] == old_placed[j]);
                }
            }
        }
    }
    (Some(placed), draws)
}

/// The texts of the words.
pub open spec fn word_texts(words: Seq<(Seq<char>, usize)>) -> Seq<Seq<char>> {
    words.map_values(|w: (Seq<char>, usize)| w.0)
}

/// The positions of the words.
pub open spec fn word_positions(words: Seq<(Seq<char>, usize)>) -> Seq<usize> {
    words.map_values(|w: (Seq<char>, usize)| w.1)
}

/// What every widget built at random satisfies, whatever chance gave: its
/// words are `word_count` different words of the list (in upper case), each
/// placed inside the grid and apart from the others, written over a grid of
/// background characters; the password is one of them; the first address is
/// a multiple of the row length below the largest first address; the cursor
/// is on the first character.
pub open spec fn generated(
    w: MainWidget,
    wordlists: Seq<(usize, Vec<String>)>,
    word_length: usize,
    word_count: usize,
) -> bool {
    &&& w.wf()
    &&& w.words().len() == word_count
    &&& drawn_from(word_texts(w.words()), spec_by_word_length(wordlists, word_length)->0@, word_count)
    &&& forall|i: int| 0 <= i < word_count ==> #[trigger] w.words()[i].1 + word_length < CHARACTERS_TOTAL
    &&& forall|i: int| 0 <= i < word_count ==> (#[trigger] w.words()[i]).0.len() == word_length
    &&& all_apart(word_positions(w.words()), word_length)
    &&& exists|background: Seq<char>| {
        &&& background.len() == CHARACTERS_TOTAL
        &&& is_background(background)
        &&& w.grid() == place_all(background, w.words())
    }
    &&& word_texts(w.words()).contains(w.solution())
    &&& w.first_offset() % CHARACTERS_PER_ROW == 0
    &&& w.first_offset() < MAX_FIRST_OFFSET * CHARACTERS_PER_ROW
    &&& w.cursor() == (CursorPosition { block: 0, row: 0, column: 0 })
}

/// The numbers drawn to build a widget, one record per part.
pub struct WidgetDraws {
    pub offset: Draws,
    pub background: Draws,
    pub words: Draws,
    pub positions: Draws,
    pub solution: Draws,
}

/// The background characters that the draws pick, one per draw.
pub open spec fn background_from(draws: Seq<usize>) -> Seq<char> {
    draws.map_values(|d: usize| background_chars()[d as int])
}

/// The widget was built from the draws: the first address is the drawn row
/// times the row length; each background cell is the background character
/// drawn for it, with the words written over them; the `i`-th word is the
/// upper case of the list word at the index the `i`-th word draw picked among
/// those not drawn yet; the `i`-th word starts at the free place the `i`-th
/// place draw picked; and the password is the word at the drawn index.
pub open spec fn follows_draws(w: MainWidget, list: Seq<String>, word_length: usize, d: WidgetDraws) -> bool {
    &&& d.offset.values().len() == 1
    &&& w.first_offset() == d.offset.values()[0] * CHARACTERS_PER_ROW
    &&& d.background.values().len() == CHARACTERS_TOTAL
    &&& w.grid() == place_all(background_from(d.background.values()), w.words())
    &&& exists|picks: Seq<int>| #[trigger] words_picked_by_draws(list, picks, d.words.values(), word_texts(w.words()))
    &&& d.positions.values().len() == w.words().len()
    &&& forall|i: int|
        0 <= i < w.words().len() ==> picked_by_draw(
            word_positions(w.words()),
            i,
            #[trigger] d.positions.values()[i],
            word_length,
        )
    &&& d.solution.values().len() == 1
    &&& d.solution.values()[0] < w.words().len()
    &&& w.solution() == w.words()[d.solution.values()[0] as int].0
}

impl MainWidget {
    /// A widget with `word_count` random words of length `word_length` from
    /// the word lists, hidden at random places in a grid of random background
    /// characters, one of them the password. `None` when the random places
    /// drawn one after the other left no free place for a word: only where
    /// such a stall is possible at all (`placement_can_stall`), never when
    /// there is `always_room` for the words.
    ///
    /// With it come the numbers drawn for it, and what was done with each
    /// is stated (`follows_draws`).
    pub fn new_with_draws(
        rng: &mut rand::rngs::ThreadRng,
        wordlists: &WordLists,
        word_length: usize,
        word_count: usize,
    ) -> (r: (Option<MainWidget>, WidgetDraws))
        requires
            can_draw_words(wordlists@, word_length, word_count),
            word_length < CHARACTERS_TOTAL,
            word_count > 0,
        ensures
            r.0 matches Some(w) ==> generated(w, wordlists@, word_length, word_count) && follows_draws(
                w,
                spec_by_word_length(wordlists@, word_length)->0@,
                word_length,
                r.1,
            ),
            always_room(word_count, word_length) ==> r.0 is Some,
            r.0 is None ==> placement_can_stall(word_count, word_length),
    {
        let (first_offset, offset_draw) = random_first_offset(rng);
        let (background, background_draws) = random_background(rng);
        let (texts_drawn, word_draws) = random_unique_words(rng, wordlists, word_length, word_count);
        let (placement, position_draws) = random_positions(rng, word_count, word_length);
        let positions = match placement {
            Some(p) => p,
            None => {
                let draws = WidgetDraws {
                    offset: offset_draw,
                    background: background_draws,
                    words: word_draws,
                    positions: position_draws,
                    solution: Draws::new(),
                };
                return (None, draws);
            },
        };
        let mut words: Vec<(String, usize)> = Vec::new();
        let mut i: usize = 0;
        while i < word_count
            invariant
                i <= word_count,
                texts_drawn.len() == word_count,
                positions.len() == word_count,
                words.len() == i,
                forall|k: int| 0 <= k < i ==> (#[trigger] words@[k]).0 == texts_drawn@[k] && words@[k].1 == positions@[k],
            decreases word_count - i,
        {
            words.push((texts_drawn[i].clone(), positions[i]));
            i = i + 1;
        }
        let ghost ws = word_views(words@);
        proof {
            assert(word_texts(ws) =~= texts(texts_drawn@)) by {
                assert forall|k: int| 0 <= k < ws.len() implies word_texts(ws)[k] == texts(texts_drawn@)[k] by {
                    assert(ws[k] == (words@[k].0@, words@[k].1));
                }
            }
            assert(word_positions(ws) =~= positions@) by {
                assert forall|k: int| 0 <= k < ws.len() implies word_positions(ws)[k] == positions@[k] by {
                    assert(ws[k] == (words@[k].0@, words@[k].1));
                }
            }
            assert forall|k: int| #![trigger ws[k]] 0 <= k < ws.len() implies {
                &&& ws[k].1 + ws[k].0.len() <= CHARACTERS_TOTAL
                &&& is_ascii_chars(ws[k].0)
            } by {
                assert(ws[k] == (texts_drawn@[k]@, positions@[k]));
            }
        }
        let (solution, solution_draw) = pick_solution(rng, &words);
        proof {
            let s = solution_draw.values()[0] as int;
            assert(word_texts(ws)[s] == solution@);
        }
        let ghost background_view = background@;
        let widget = MainWidget::from_layout(first_offset, background, words, solution);
        let draws = WidgetDraws {
            offset: offset_draw,
            background: background_draws,
            words: word_draws,
            positions: position_draws,
            solution: solution_draw,
        };
        proof {
            assert(background_view =~= background_from(draws.background.values()));
            assert(word_texts(widget.words()) == texts(texts_drawn@));
            let list = spec_by_word_length(wordlists@, word_length)->0@;
            let picks = choose|picks: Seq<int>| #[trigger] words_picked_by_draws(list, picks, draws.words.values(), texts(texts_drawn@));
            assert(words_picked_by_draws(list, picks, draws.words.values(), word_texts(widget.words())));
            assert(word_positions(widget.words()) == positions@);
            assert forall|k: int| 0 <= k < word_count implies #[trigger] widget.words()[k].1 + word_length < CHARACTERS_TOTAL by {
                assert(widget.words()[k].1 == positions@[k]);
                assert(word_positions(ws)[k] == ws[k].1);
            }
            assert forall|k: int| 0 <= k < word_count implies (#[trigger] widget.words()[k]).0.len() == word_length by {
                assert(widget.words()[k] == (texts_drawn@[k]@, positions@[k]));
            }
        }
        (Some(widget), draws)
    }

    /// A widget with `word_count` random words of length `word_length` from
    /// the word lists, hidden at random places in a grid of random background
    /// characters, one of them the password. `None` when the random places
    /// drawn one after the other left no free place for a word: only where
    /// such a stall is possible at all (`placement_can_stall`), never when
    /// there is `always_room` for the words.
    pub fn new(
        rng: &mut rand::rngs::ThreadRng,
        wordlists: &WordLists,
        word_length: usize,
        word_count: usize,
    ) -> (r: Option<MainWidget>)
        requires
            can_draw_words(wordlists@, word_length, word_count),
            word_length < CHARACTERS_TOTAL,
            word_count > 0,
        ensures
            r matches Some(w) ==> generated(w, wordlists@, word_length, word_count),
            always_room(word_count, word_length) ==> r is Some,
            r is None ==> placement_can_stall(word_count, word_length),
    {
        MainWidget::new_with_draws(rng, wordlists, word_length, word_count).0
    }

    /// A widget with ten random four-letter words from the word lists, as
    /// the game has by default. There is always room for them.
    pub fn new_random(wordlists: &WordLists) -> (r: Option<MainWidget>)
        requires
            can_draw_words(wordlists@, 4, 10),
        ensures
            r is Some,
            r matches Some(w) ==> generated(w, wordlists@, 4, 10),
    {
        assert(always_room(10, 4));
        let mut rng = crate::random::thread_rng();
        MainWidget::new(&mut rng, wordlists, 4, 10)
    }
}

/// No two words share a cell of the grid.
pub open spec fn disjoint_words(words: Seq<(Seq<char>, usize)>) -> bool {
    forall|i: int, j: int|
        0 <= i < words.len() && 0 <= j < words.len() && i != j ==> {
            ||| (#[trigger] words[i]).1 + words[i].0.len() <= (#[trigger] words[j]).1
            ||| words[j].1 + words[j].0.len() <= words[i].1
        }
}

/// Words that share no cell can all be read back from the grid at their
/// positions after they have been written, and every cell no word covers
/// keeps the background character.
pub proof fn lemma_words_readable(background: Seq<char>, words: Seq<(Seq<char>, usize)>)
    requires
        disjoint_words(words),
        forall|i: int| 0 <= i < words.len() ==> #[trigger] words[i].1 + words[i].0.len() <= background.len(),
    ensures
        place_all(background, words).len() == background.len(),
        forall|i: int, c: int|
            0 <= i < words.len() && 0 <= c < words[i].0.len() ==> place_all(background, words)[#[trigger] words[i].1 + c]
                == #[trigger] words[i].0[c],
        forall|p: int|
            0 <= p < background.len() && (forall|i: int| 0 <= i < words.len() ==> !covers(p)(#[trigger] words[i]))
                ==> #[trigger] place_all(background, words)[p] == background[p],
    decreases words.len(),
{
    if words.len() > 0 {
        let rest = words.drop_last();
        let n = words.len() - 1;
        assert forall|i: int, j: int|
            0 <= i < rest.len() && 0 <= j < rest.len() && i != j implies {
                ||| (#[trigger] rest[i]).1 + rest[i].0.len() <= (#[trigger] rest[j]).1
                ||| rest[j].1 + rest[j].0.len() <= rest[i].1
            } by {
            assert(rest[i] == words[i] && rest[j] == words[j]);
        }
        assert forall|i: int| 0 <= i < rest.len() implies #[trigger] rest[i].1 + rest[i].0.len() <= background.len() by {
            assert(rest[i] == words[i]);
        }
        lemma_words_readable(background, rest);
        let g = place_all(background, rest);
        let last = words[n];
        assert(words.last() == last);
        assert forall|i: int, c: int|
            0 <= i < words.len() && 0 <= c < words[i].0.len() implies place_all(background, words)[#[trigger] words[i].1 + c]
                == #[trigger] words[i].0[c] by {
            if i < n {
                assert(rest[i] == words[i]);
                assert(g[rest[i].1 + c] == rest[i].0[c]);
            }
        }
        assert forall|p: int|
            0 <= p < background.len() && (forall|i: int| 0 <= i < words.len() ==> !covers(p)(#[trigger] words[i]))
                implies #[trigger] place_all(background, words)[p] == background[p] by {
            assert(!covers(p)(words[n]));
            assert forall|i: int| 0 <= i < rest.len() implies !covers(p)(#[trigger] rest[i]) by {
                assert(rest[i] == words[i]);
            }
        }
    }
}

/// In a widget built at random, the cells of every word hold that word's
/// characters, and every other cell a background character.
pub proof fn lemma_generated_words_readable(
    w: MainWidget,
    wordlists: Seq<(usize, Vec<String>)>,
    word_length: usize,
    word_count: usize,
)
    requires
        generated(w, wordlists, word_length, word_count),
    ensures
        forall|i: int, c: int|
            0 <= i < w.words().len() && 0 <= c < word_length ==> w.grid()[#[trigger] w.words()[i].1 + c]
                == #[trigger] w.words()[i].0[c],
        forall|p: int|
            0 <= p < CHARACTERS_TOTAL && (forall|i: int| 0 <= i < w.words().len() ==> !covers(p)(#[trigger] w.words()[i]))
                ==> background_chars().contains(#[trigger] w.grid()[p]),
{
    let words = w.words();
    let background = choose|background: Seq<char>| {
        &&& background.len() == CHARACTERS_TOTAL
        &&& is_background(background)
        &&& w.grid() == place_all(background, w.words())
    };
    assert forall|i: int, j: int|
        0 <= i < words.len() && 0 <= j < words.len() && i != j implies {
            ||| (#[trigger] words[i]).1 + words[i].0.len() <= (#[trigger] words[j]).1
            ||| words[j].1 + words[j].0.len() <= words[i].1
        } by {
        assert(word_positions(words)[i] == words[i].1);
        assert(word_positions(words)[j] == words[j].1);
        assert(apart(word_positions(words)[i] as int, word_positions(words)[j] as int, word_length as int));
    }
    lemma_words_readable(background, words);
}

/// With words that share no cell, a cursor on any character of a word
/// highlights that whole word.
pub proof fn lemma_highlight_on_word(words: Seq<(Seq<char>, usize)>, k: int, index: usize)
    requires
        disjoint_words(words),
        0 <= k < words.len(),
        covers(index as int)(words[k]),
    ensures
        spec_highlight(words, index) == (CursorHighlight::Word {
            start_index: words[k].1,
            length: words[k].0.len() as usize,
        }),
{
    assert forall|j: int| 0 <= j < k implies !covers(index as int)(#[trigger] words[j]) by {
        assert(words[j] == words[j] && words[k] == words[k]);
    }
    lemma_first_where_is(words, covers(index as int), k);
}

/// The flat indices the highlight covers: `start..end`.
pub open spec fn highlight_range(h: CursorHighlight) -> (int, int) {
    match h {
        CursorHighlight::Char(index) => (index as int, index + 1),
        CursorHighlight::Word { start_index, length } => (start_index as int, start_index + length),
    }
}

/// The (column, row) cells of block `block` among the flat indices
/// `start..end`, in order.
pub open spec fn cells_in_block(start: int, end: int, block: usize) -> Seq<(usize, usize)>
    decreases end - start,
{
    if end <= start {
        Seq::empty()
    } else {
        let pos = CursorPosition::spec_from_index((end - 1) as usize);
        cells_in_block(start, end - 1, block) + if pos.block == block {
            seq![(pos.column, pos.row)]
        } else {
            Seq::empty()
        }
    }
}

/// The block that holds flat index `idx`.
pub open spec fn block_of(idx: int) -> int {
    idx / 204
}

/// The flat index of the cell `(column, row)` of block `block`.
pub open spec fn cell_flat_index(block: usize, cell: (usize, usize)) -> int {
    crate::cursor::spec_index(block as int, cell.1 as int, cell.0 as int)
}

/// The cells given for a block and a range of flat indices are exactly the
/// cells of that block whose flat index lies in the range: each is a cell of
/// the block (column below the row length, row below the block's height)
/// with its flat index in the range; they come in increasing flat order; and
/// every flat index of the range that lies in the block has its cell among
/// them.
pub proof fn lemma_cells_in_block(start: int, end: int, block: usize)
    requires
        0 <= start,
        end <= CHARACTERS_TOTAL,
    ensures
        forall|k: int|
            0 <= k < cells_in_block(start, end, block).len() ==> {
                &&& (#[trigger] cells_in_block(start, end, block)[k]).0 < CHARACTERS_PER_ROW
                &&& cells_in_block(start, end, block)[k].1 < ROWS_PER_BLOCK
                &&& start <= cell_flat_index(block, cells_in_block(start, end, block)[k]) < end
            },
        forall|k1: int, k2: int|
            0 <= k1 < k2 < cells_in_block(start, end, block).len() ==> cell_flat_index(
                block,
                #[trigger] cells_in_block(start, end, block)[k1],
            ) < cell_flat_index(block, #[trigger] cells_in_block(start, end, block)[k2]),
        forall|idx: int|
            start <= idx < end && #[trigger] block_of(idx) == block ==> exists|k: int|
                0 <= k < cells_in_block(start, end, block).len() && cell_flat_index(
                    block,
                    #[trigger] cells_in_block(start, end, block)[k],
                ) == idx,
    decreases end - start,
{
    if end > start {
        let prev = cells_in_block(start, end - 1, block);
        lemma_cells_in_block(start, end - 1, block);
        let pos = CursorPosition::spec_from_index((end - 1) as usize);
        crate::cursor::lemma_split_index(end - 1);
        let all = cells_in_block(start, end, block);
        if pos.block == block {
            let cell = (pos.column, pos.row);
            assert(all == prev + seq![cell]);
            assert(cell_flat_index(block, cell) == end - 1);
            assert forall|k: int| 0 <= k < all.len() implies {
                &&& (#[trigger] all[k]).0 < CHARACTERS_PER_ROW
                &&& all[k].1 < ROWS_PER_BLOCK
                &&& start <= cell_flat_index(block, all[k]) < end
            } by {
                if k < prev.len() {
                    assert(all[k] == prev[k]);
                }
            }
            assert forall|k1: int, k2: int| 0 <= k1 < k2 < all.len() implies cell_flat_index(block, #[trigger] all[k1])
                < cell_flat_index(block, #[trigger] all[k2]) by {
                assert(all[k1] == prev[k1]);
                if k2 < prev.len() {
                    assert(all[k2] == prev[k2]);
                }
            }
            assert forall|idx: int| start <= idx < end && #[trigger] block_of(idx) == block implies exists|k: int|
                0 <= k < all.len() && cell_flat_index(block, #[trigger] all[k]) == idx by {
                if idx < end - 1 {
                    let k = choose|k: int| 0 <= k < prev.len() && cell_flat_index(block, #[trigger] prev[k]) == idx;
                    assert(all[k] == prev[k]);
                } else {
                    assert(all[prev.len() as int] == cell);
                }
            }
        } else {
            assert(all =~= prev);
            assert forall|idx: int| start <= idx < end && #[trigger] block_of(idx) == block implies exists|k: int|
                0 <= k < all.len() && cell_flat_index(block, #[trigger] all[k]) == idx by {
                if idx < end - 1 {
                    let k = choose|k: int| 0 <= k < prev.len() && cell_flat_index(block, #[trigger] prev[k]) == idx;
                } else {
                    assert((end - 1) / 204 == pos.block);
                }
            }
        }
    }
}

impl MainWidget {
    /// The address shown in front of row `row_index` of a block: the first
    /// address plus one row length per row. Both blocks show the same
    /// addresses.
    pub fn row_offset(&self, row_index: usize) -> (offset: usize)
        requires
            row_index < ROWS_PER_BLOCK,
            self.first_offset() + row_index * CHARACTERS_PER_ROW <= usize::MAX,
        ensures
            offset == self.first_offset() + row_index * CHARACTERS_PER_ROW,
    {
        self.first_offset + row_index * COLUMNS_PER_BLOCK
    }

    /// The characters of row `row` of block `block`.
    pub fn block_row(&self, block: usize, row: usize) -> (text: String)
        requires
            self.wf(),
            block < BLOCKS,
            row < ROWS_PER_BLOCK,
        ensures
            text@ == self.grid().subrange(
                (block * ROWS_PER_BLOCK + row) * CHARACTERS_PER_ROW,
                (block * ROWS_PER_BLOCK + row) * CHARACTERS_PER_ROW + CHARACTERS_PER_ROW,
            ),
    {
        let start = (block * ROWS_PER_BLOCK + row) * CHARACTERS_PER_ROW;
        let mut text = String::new();
        let mut c: usize = 0;
        while c < CHARACTERS_PER_ROW
            invariant
                c <= CHARACTERS_PER_ROW,
                start + CHARACTERS_PER_ROW <= CHARACTERS_TOTAL,
                self.wf(),
                text@ == self.grid().subrange(start as int, start + c),
            decreases CHARACTERS_PER_ROW - c,
        {
            push_char(&mut text, self.content[start + c]);
            assert(self.grid().subrange(start as int, start + c + 1) =~= self.grid().subrange(start as int, start + c).push(
                self.grid()[start + c],
            ));
            c = c + 1;
        }
        text
    }

    /// The cells of block `block` the highlight covers, as (column, row)
    /// within the block, in the order of their flat indices.
    pub fn highlight_cells(&self, block: usize) -> (cells: Vec<(usize, usize)>)
        requires
            self.wf(),
        ensures
            cells@ == cells_in_block(highlight_range(self.highlight()).0, highlight_range(self.highlight()).1, block),
            forall|k: int|
                0 <= k < cells.len() ==> {
                    &&& (#[trigger] cells@[k]).0 < CHARACTERS_PER_ROW
                    &&& cells@[k].1 < ROWS_PER_BLOCK
                    &&& highlight_range(self.highlight()).0 <= cell_flat_index(block, cells@[k]) < highlight_range(
                        self.highlight(),
                    ).1
                },
            forall|k1: int, k2: int|
                0 <= k1 < k2 < cells.len() ==> cell_flat_index(block, #[trigger] cells@[k1]) < cell_flat_index(
                    block,
                    #[trigger] cells@[k2],
                ),
            forall|idx: int|
                highlight_range(self.highlight()).0 <= idx < highlight_range(self.highlight()).1 && #[trigger] block_of(
                    idx,
                ) == block ==> exists|k: int| 0 <= k < cells.len() && cell_flat_index(block, #[trigger] cells@[k]) == idx,
    {
        proof {
            lemma_first_where(self.words(), covers(self.cursor.flat_index()));
            lemma_index_round_trip(self.cursor);
            let (hs, he) = highlight_range(self.highlight());
            match self.highlight() {
                CursorHighlight::Char(_) => {},
                CursorHighlight::Word { .. } => {
                    let k = first_where(self.words(), covers(self.cursor.flat_index()))->0;
                    assert(self.words()[k].1 + self.words()[k].0.len() <= CHARACTERS_TOTAL);
                },
            }
            lemma_cells_in_block(hs, he, block);
        }
        let (start, end) = match self.highlight {
            CursorHighlight::Char(index) => (index, index + 1),
            CursorHighlight::Word { start_index, length } => (start_index, start_index + length),
        };
        let mut cells: Vec<(usize, usize)> = Vec::new();
        let mut index = start;
        while index < end
            invariant
                start <= index <= end,
                cells@ == cells_in_block(start as int, index as int, block),
            decreases end - index,
        {
            let position = CursorPosition::from_index(index);
            if position.block == block {
                cells.push((position.column, position.row));
            }
            assert(cells@ =~= cells_in_block(start as int, index + 1, block));
            index = index + 1;
        }
        cells
    }
}

/// The cursor one row up, if it is not on the top row of its block.
pub open spec fn spec_cursor_up(c: CursorPosition) -> CursorPosition {
    if c.row > 0 { CursorPosition { row: (c.row - 1) as usize, ..c } } else { c }
}

/// The cursor one row down, if it is not on the bottom row of its block.
pub open spec fn spec_cursor_down(c: CursorPosition) -> CursorPosition {
    if c.row + 1 < ROWS_PER_BLOCK { CursorPosition { row: (c.row + 1) as usize, ..c } } else { c }
}

/// The cursor one column left; from the first column of the second block
/// to the last column of the first; not past the first column of the first.
pub open spec fn spec_cursor_left(c: CursorPosition) -> CursorPosition {
    if c.column > 0 {
        CursorPosition { column: (c.column - 1) as usize, ..c }
    } else if c.block > 0 {
        CursorPosition { block: (c.block - 1) as usize, column: (CHARACTERS_PER_ROW - 1) as usize, ..c }
    } else {
        c
    }
}

/// The cursor one column right; from the last column of the first block to
/// the first column of the second; not past the last column of the last.
pub open spec fn spec_cursor_right(c: CursorPosition) -> CursorPosition {
    if c.column + 1 < CHARACTERS_PER_ROW {
        CursorPosition { column: (c.column + 1) as usize, ..c }
    } else if c.block + 1 < BLOCKS {
        CursorPosition { block: (c.block + 1) as usize, column: 0, ..c }
    } else {
        c
    }
}

impl MainWidget {
    /// Moves the cursor one row up within its block.
    pub fn move_cursor_up(&mut self)
        requires
            old(self).wf(),
        ensures
            final(self).wf(),
            final(self).cursor() == spec_cursor_up(old(self).cursor()),
            final(self).grid() == old(self).grid(),
            final(self).words() == old(self).words(),
            final(self).solution() == old(self).solution(),
            final(self).first_offset() == old(self).first_offset(),
    {
        let mut c = self.cursor;
        if c.row > 0 {
            c.row = c.row - 1;
        }
        self.set_cursor(c);
    }

    /// Moves the cursor one row down within its block.
    pub fn move_cursor_down(&mut self)
        requires
            old(self).wf(),
        ensures
            final(self).wf(),
            final(self).cursor() == spec_cursor_down(old(self).cursor()),
            final(self).grid() == old(self).grid(),
            final(self).words() == old(self).words(),
            final(self).solution() == old(self).solution(),
            final(self).first_offset() == old(self).first_offset(),
    {
        let mut c = self.cursor;
        if c.row + 1 < ROWS_PER_BLOCK {
            c.row = c.row + 1;
        }
        self.set_cursor(c);
    }

    /// Moves the cursor one column left, over into the first block.
    pub fn move_cursor_left(&mut self)
        requires
            old(self).wf(),
        ensures
            final(self).wf(),
            final(self).cursor() == spec_cursor_left(old(self).cursor()),
            final(self).grid() == old(self).grid(),
            final(self).words() == old(self).words(),
            final(self).solution() == old(self).solution(),
            final(self).first_offset() == old(self).first_offset(),
    {
        let mut c = self.cursor;
        if c.column > 0 {
            c.column = c.column - 1;
        } else if c.block > 0 {
            c.block = c.block - 1;
            c.column = CHARACTERS_PER_ROW - 1;
        }
        self.set_cursor(c);
    }

    /// Moves the cursor one column right, over into the second block.
    pub fn move_cursor_right(&mut self)
        requires
            old(self).wf(),
        ensures
            final(self).wf(),
            final(self).cursor() == spec_cursor_right(old(self).cursor()),
            final(self).grid() == old(self).grid(),
            final(self).words() == old(self).words(),
            final(self).solution() == old(self).solution(),
            final(self).first_offset() == old(self).first_offset(),
    {
        let mut c = self.cursor;
        if c.column + 1 < CHARACTERS_PER_ROW {
            c.column = c.column + 1;
        } else if c.block + 1 < BLOCKS {
            c.block = c.block + 1;
            c.column = 0;
        }
        self.set_cursor(c);
    }

    /// The cursor.
    pub fn cursor_position(&self) -> (c: CursorPosition)
        ensures
            c == self.cursor(),
    {
        self.cursor
    }

    /// What the cursor highlights.
    pub fn current_highlight(&self) -> (h: CursorHighlight)
        ensures
            h == self.highlight(),
    {
        self.highlight
    }
}

/// The keyboard moves are single steps inside the grid: from a cell of the
/// grid each move gives a cell of the grid; up and down move exactly one row
/// (the flat index changes by a row length) and undo each other; left and
/// right move exactly one column, or from the edge of one block to the facing
/// edge of the other, and undo each other. At the outer edges a move stays.
pub proof fn lemma_cursor_moves_are_steps(c: CursorPosition)
    requires
        c.is_valid(),
    ensures
        spec_cursor_up(c).is_valid(),
        spec_cursor_down(c).is_valid(),
        spec_cursor_left(c).is_valid(),
        spec_cursor_right(c).is_valid(),
        c.row > 0 ==> spec_cursor_up(c).flat_index() == c.flat_index() - CHARACTERS_PER_ROW
            && spec_cursor_down(spec_cursor_up(c)) == c,
        c.row == 0 ==> spec_cursor_up(c) == c,
        c.row + 1 < ROWS_PER_BLOCK ==> spec_cursor_down(c).flat_index() == c.flat_index() + CHARACTERS_PER_ROW
            && spec_cursor_up(spec_cursor_down(c)) == c,
        c.row + 1 == ROWS_PER_BLOCK ==> spec_cursor_down(c) == c,
        c.column > 0 ==> spec_cursor_left(c).flat_index() == c.flat_index() - 1,
        c.column + 1 < CHARACTERS_PER_ROW ==> spec_cursor_right(c).flat_index() == c.flat_index() + 1,
        c.column > 0 || c.block > 0 ==> spec_cursor_right(spec_cursor_left(c)) == c
            && spec_cursor_left(c).row == c.row,
        c.column + 1 < CHARACTERS_PER_ROW || c.block + 1 < BLOCKS ==> spec_cursor_left(spec_cursor_right(c)) == c
            && spec_cursor_right(c).row == c.row,
        c.column == 0 && c.block == 0 ==> spec_cursor_left(c) == c,
        c.column + 1 == CHARACTERS_PER_ROW && c.block + 1 == BLOCKS ==> spec_cursor_right(c) == c,
{
}

/// What a click gives is ASCII text.
pub proof fn lemma_click_ascii(w: MainWidget)
    requires
        w.wf(),
    ensures
        is_ascii_chars(w.spec_click().1),
{
    match w.highlight() {
        CursorHighlight::Char(position) => {
            let pos = CursorPosition::spec_from_index(position);
            lemma_index_round_trip(w.cursor());
            crate::cursor::lemma_split_index(position as int);
            let c = w.grid()[pos.row * CHARACTERS_PER_ROW + pos.column];
            assert(pos.row * CHARACTERS_PER_ROW + pos.column < CHARACTERS_TOTAL);
            assert(seq![c][0] == c);
        },
        CursorHighlight::Word { start_index, .. } => {
            let ws = w.words();
            lemma_first_where(ws, covers(w.cursor().flat_index()));
            let k = first_where(ws, covers(w.cursor().flat_index()))->0;
            assert(starts_at(start_index)(ws[k]));
            lemma_first_where(ws, starts_at(start_index));
            let i = first_where(ws, starts_at(start_index))->0;
            assert(is_ascii_chars(ws[i].0));
        },
    }
}

/// A word agrees with itself in every place.
pub proof fn lemma_likeness_self(a: Seq<char>)
    ensures
        likeness(a, a) == a.len(),
{
    lemma_count_matching_self(a, a.len());
}

proof fn lemma_count_matching_self(a: Seq<char>, n: nat)
    requires
        n <= a.len(),
    ensures
        count_matching(a, a, n) == n,
    decreases n,
{
    if n > 0 {
        lemma_count_matching_self(a, (n - 1) as nat);
    }
}

/// Likeness does not depend on the order of the two words, and is at most
/// the length of the shorter one.
pub proof fn lemma_likeness_symmetric_bounded(a: Seq<char>, b: Seq<char>)
    ensures
        likeness(a, b) == likeness(b, a),
        likeness(a, b) <= a.len(),
        likeness(a, b) <= b.len(),
{
    let n = if a.len() <= b.len() { a.len() } else { b.len() };
    lemma_count_matching_symmetric_bounded(a, b, n);
}

proof fn lemma_count_matching_symmetric_bounded(a: Seq<char>, b: Seq<char>, n: nat)
    ensures
        count_matching(a, b, n) == count_matching(b, a, n),
        count_matching(a, b, n) <= n,
    decreases n,
{
    if n > 0 {
        lemma_count_matching_symmetric_bounded(a, b, (n - 1) as nat);
    }
}

/// With non-empty words that share no cell, a click with the cursor on any character
/// of a word gives that word: the password when it is the password, else
/// the word with its likeness to the password.
pub proof fn lemma_click_on_word(w: MainWidget, k: int)
    requires
        w.wf(),
        disjoint_words(w.words()),
        forall|j: int| 0 <= j < w.words().len() ==> (#[trigger] w.words()[j]).0.len() > 0,
        0 <= k < w.words().len(),
        covers(w.cursor().flat_index())(w.words()[k]),
    ensures
        w.spec_click().1 == w.words()[k].0,
        w.spec_click().0 == if w.words()[k].0 == w.solution() {
            ClickResultKind::Solution
        } else {
            ClickResultKind::Word { likeness: likeness(w.solution(), w.words()[k].0) as usize }
        },
{
    let ws = w.words();
    lemma_highlight_on_word(ws, k, w.cursor().flat_index() as usize);
    let start = ws[k].1;
    assert forall|j: int| 0 <= j < k implies !starts_at(start)(#[trigger] ws[j]) by {
        assert(ws[j].0.len() > 0);
    }
    lemma_first_where_is(ws, starts_at(start), k);
}

/// With non-empty words of one length that share no cell, the text shown
/// for a cursor on any character of a word is that word.
pub proof fn lemma_highlighted_string_on_word(w: MainWidget, k: int, word_length: nat)
    requires
        w.wf(),
        disjoint_words(w.words()),
        word_length > 0,
        forall|j: int| 0 <= j < w.words().len() ==> (#[trigger] w.words()[j]).0.len() == word_length,
        0 <= k < w.words().len(),
        covers(w.cursor().flat_index())(w.words()[k]),
    ensures
        w.spec_highlighted_string() == w.words()[k].0,
{
    let ws = w.words();
    lemma_highlight_on_word(ws, k, w.cursor().flat_index() as usize);
    let start = ws[k].1;
    let length = ws[k].0.len() as usize;
    assert forall|j: int| 0 <= j < k implies !spans(start, length)(#[trigger] ws[j]) by {
        assert(ws[j].0.len() == word_length);
    }
    lemma_first_where_is(ws, spans(start, length), k);
}

/// The cells within the word length of a start already taken: where the
/// start of a new word would be too close to an earlier one.
pub open spec fn blocked_zone(placed: Seq<usize>, word_length: usize) -> Set<int> {
    Set::new(
        |p: int|
            exists|i: int|
                0 <= i < placed.len() && placed[i] - word_length <= p <= #[trigger] placed[i] + word_length,
    )
}

/// Each start taken blocks at most `2 * word_length + 1` starts.
proof fn lemma_blocked_zone_size(placed: Seq<usize>, word_length: usize)
    ensures
        blocked_zone(placed, word_length).finite(),
        blocked_zone(placed, word_length).len() <= placed.len() * (2 * word_length + 1),
    decreases placed.len(),
{
    let zone = blocked_zone(placed, word_length);
    if placed.len() == 0 {
        assert(zone =~= Set::<int>::empty());
    } else {
        let rest = placed.drop_last();
        let q = placed.last() as int;
        let l = word_length as int;
        lemma_blocked_zone_size(rest, word_length);
        let iv = vstd::set_lib::set_int_range(q - l, q + l + 1);
        vstd::set_lib::lemma_int_range(q - l, q + l + 1);
        assert forall|p: int| zone.contains(p) == (blocked_zone(rest, word_length).contains(p) || iv.contains(p)) by {
            if zone.contains(p) {
                let i = choose|i: int|
                    0 <= i < placed.len() && placed[i] - word_length <= p <= #[trigger] placed[i] + word_length;
                if i < rest.len() {
                    assert(rest[i] == placed[i]);
                }
            }
            if blocked_zone(rest, word_length).contains(p) {
                let i = choose|i: int|
                    0 <= i < rest.len() && rest[i] - word_length <= p <= #[trigger] rest[i] + word_length;
                assert(rest[i] == placed[i]);
            }
            if iv.contains(p) {
                assert(placed[placed.len() - 1] == q);
            }
        }
        assert(zone =~= blocked_zone(rest, word_length).union(iv));
        vstd::set_lib::lemma_len_union(blocked_zone(rest, word_length), iv);
        let k = rest.len() as int;
        assert(k * (2 * l + 1) + (2 * l + 1) == (k + 1) * (2 * l + 1)) by (nonlinear_arith);
    }
}

/// Free starts for the next word are at least as many as the starts in
/// the grid less those blocked by the words placed so far.
proof fn lemma_enough_free(placed: Seq<usize>, word_length: usize, candidates: Seq<usize>)
    requires
        word_length < CHARACTERS_TOTAL,
        forall|k: int| 0 <= k < candidates.len() ==> is_free(placed, #[trigger] candidates[k] as int, word_length),
        forall|p: int| is_free(placed, p, word_length) ==> candidates.contains(p as usize),
        forall|a: int, b: int| 0 <= a < b < candidates.len() ==> candidates[a] < candidates[b],
    ensures
        candidates.len() + placed.len() * (2 * word_length + 1) >= CHARACTERS_TOTAL - word_length,
{
    let r = CHARACTERS_TOTAL - word_length;
    let range = vstd::set_lib::set_int_range(0, r as int);
    vstd::set_lib::lemma_int_range(0, r as int);
    let free = Set::new(|p: int| is_free(placed, p, word_length));
    let blocked = Set::new(|p: int| 0 <= p < r && !is_free(placed, p, word_length));
    vstd::set_lib::lemma_len_subset(free, range);
    vstd::set_lib::lemma_len_subset(blocked, range);
    assert(free + blocked =~= range);
    assert(free.disjoint(blocked));
    vstd::set_lib::lemma_set_disjoint_lens(free, blocked);
    lemma_blocked_zone_size(placed, word_length);
    let zone = blocked_zone(placed, word_length);
    assert forall|p: int| blocked.contains(p) implies zone.contains(p) by {
        let i = choose|i: int|
            0 <= i < placed.len() && !apart(p, #[trigger] placed[i] as int, word_length as int);
        assert(placed[i] - word_length <= p <= placed[i] + word_length);
    }
    vstd::set_lib::lemma_len_subset(blocked, zone);
    let cs = candidates.map_values(|x: usize| x as int);
    assert(cs.no_duplicates());
    assert forall|p: int| cs.to_set().contains(p) == free.contains(p) by {
        if free.contains(p) {
            let k = choose|k: int| 0 <= k < candidates.len() && candidates[k] == p as usize;
            assert(cs[k] == p);
        }
        if cs.to_set().contains(p) {
            let k = choose|k: int| 0 <= k < cs.len() && cs[k] == p;
            assert(is_free(placed, candidates[k] as int, word_length));
        }
    }
    assert(cs.to_set() =~= free);
    cs.unique_seq_to_set();
}

impl MainWidget {
    /// The hidden words with their flat positions.
    pub fn hidden_words(&self) -> (w: &Vec<(String, usize)>)
        ensures
            word_views(w@) == self.words(),
    {
        &self.words
    }

    /// The password.
    pub fn solution_text(&self) -> (s: &str)
        ensures
            s@ == self.solution(),
    {
        self.solution.as_str()
    }

    /// The address of the grid's first row.
    pub fn first_row_offset(&self) -> (o: usize)
        ensures
            o == self.first_offset(),
    {
        self.first_offset
    }
}

} // verus!
