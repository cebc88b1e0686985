//! The right widget: the history of what was submitted, and the prompt with
//! the highlighted text and a blinking cursor.

use vstd::prelude::*;
use vstd::utf8::{encode_utf8, is_ascii_chars};
use crate::text::{decimal, spec_decimal, push_char, chars_of, string_from_chars};

verus! {

/// Width of the right widget: the longest history line, ">Entry denied.".
pub const WIDTH: u16 = 14;
/// Height of the right widget in cells.
pub const HEIGHT: u16 = 17;
/// Ticks between two changes of the prompt cursor.
pub const BLINK_TICKS: usize = 3;

/// What was submitted and what it gave.
#[derive(Debug)]
pub struct Submission {
    pub string: String,
    pub kind: SubmissionKind,
}

/// What a submission gave.
#[derive(Debug, Clone, Copy, PartialEq, Eq, Structural)]
pub enum SubmissionKind {
    Error,
    Word { likeness: usize, lockout: bool },
    DudRemoved,
    AttemptsReset,
    Solution,
}

/// The prompt, the history and the state of the blinking cursor.
#[derive(Debug)]
pub struct RightWidget {
    selected_string: String,
    history: Vec<String>,
    cursor_tick: usize,
    show_cursor: bool,
}

/// The history lines that a submission adds.
pub open spec fn history_entries(string: Seq<char>, kind: SubmissionKind) -> Seq<Seq<char>> {
    let first = seq!['>'] + string;
    match kind {
        SubmissionKind::Error => seq![first, ">Error"@],
        SubmissionKind::Word { likeness, lockout } => if lockout {
            seq![first, ">Entry denied."@, ">Init Lockout"@]
        } else {
            seq![first, ">Entry denied."@, ">Likeness="@ + spec_decimal(likeness as nat)]
        },
        SubmissionKind::DudRemoved => seq![first, ">Dud Removed."@],
        SubmissionKind::AttemptsReset => seq![first, ">Tries Reset."@],
        SubmissionKind::Solution => seq![first],
    }
}

/// The rows an entry takes when broken into rows of `width` cells from its
/// end: the last row holds what is left after cutting the front into full
/// rows. The rows are listed from the last one up.
pub open spec fn entry_rows(s: Seq<char>, width: nat) -> Seq<Seq<char>>
    decreases s.len(),
{
    if s.len() == 0 || width == 0 {
        Seq::empty()
    } else {
        let r = if s.len() % width == 0 {
            width
        } else {
            s.len() % width
        };
        proof {
            assert(0 < r <= s.len()) by (nonlinear_arith)
                requires
                    s.len() > 0,
                    width > 0,
                    r == if s.len() % width == 0 { width } else { s.len() % width },
            ;
        }
        seq![s.subrange(s.len() - r, s.len() as int)] + entry_rows(s.subrange(0, s.len() - r), width)
    }
}

/// A line can be cut into rows of `width` cells: it is ASCII, or its UTF-8
/// encoding takes at most `width` bytes.
pub open spec fn fits_in_rows(line: Seq<char>, width: nat) -> bool {
    is_ascii_chars(line) || encode_utf8(line).len() <= width
}

/// A text takes at least as many bytes as it has characters.
pub proof fn lemma_utf8_at_least_chars(s: Seq<char>)
    ensures
        encode_utf8(s).len() >= s.len(),
    decreases s.len(),
{
    if s.len() > 0 {
        lemma_utf8_at_least_chars(s.drop_first());
    }
}

/// A non-empty line of at most `width` bytes is one row, whole.
pub proof fn lemma_short_line_one_row(line: Seq<char>, width: nat)
    requires
        line.len() > 0,
        encode_utf8(line).len() <= width,
    ensures
        entry_rows(line, width) == seq![line],
{
    lemma_utf8_at_least_chars(line);
    let r = if line.len() % width == 0 { width } else { line.len() % width };
    if line.len() == width {
        vstd::arithmetic::div_mod::lemma_mod_self_0(width as int);
    } else {
        vstd::arithmetic::div_mod::lemma_small_mod(line.len(), width);
    }
    assert(r == line.len());
    assert(line.subrange(0, 0) =~= Seq::<char>::empty());
    assert(line.subrange(line.len() - r, line.len() as int) =~= line);
    assert(entry_rows(line.subrange(0, line.len() - r), width) =~= Seq::<Seq<char>>::empty());
}

/// The rows of all entries, from the last row of the newest entry up to the
/// first row of the oldest.
pub open spec fn history_rows_from_bottom(history: Seq<Seq<char>>, width: nat) -> Seq<Seq<char>>
    decreases history.len(),
{
    if history.len() == 0 {
        Seq::empty()
    } else {
        entry_rows(history.last(), width) + history_rows_from_bottom(history.drop_last(), width)
    }
}

impl RightWidget {
    /// The prompt text.
    pub closed spec fn selected(&self) -> Seq<char> {
        self.selected_string@
    }

    /// The history, oldest line first.
    pub closed spec fn history(&self) -> Seq<Seq<char>> {
        self.history@.map_values(|s: String| s@)
    }

    /// Ticks since the cursor last changed.
    pub closed spec fn tick_count(&self) -> usize {
        self.cursor_tick
    }

    /// The prompt cursor is shown.
    pub closed spec fn cursor_shown(&self) -> bool {
        self.show_cursor
    }

    /// Every history line is not empty; the tick count is below the blink
    /// period.
    pub open spec fn wf(&self) -> bool {
        &&& forall|i: int| 0 <= i < self.history().len() ==> #[trigger] self.history()[i].len() > 0
        &&& self.tick_count() < BLINK_TICKS
    }

    /// Every history line is ASCII text.
    pub open spec fn history_ascii(&self) -> bool {
        forall|i: int| 0 <= i < self.history().len() ==> is_ascii_chars(#[trigger] self.history()[i])
    }

    /// The prompt shows `>` followed by the given text.
    pub fn set_selected_string(&mut self, string: String)
        ensures
            final(self).selected() == seq!['>'] + string@,
            final(self).history() == old(self).history(),
            final(self).tick_count() == old(self).tick_count(),
            final(self).cursor_shown() == old(self).cursor_shown(),
    {
        let mut s = String::new();
        push_char(&mut s, '>');
        s.append(string.as_str());
        self.selected_string = s;
    }

    /// Adds the lines of a submission to the history: `>` and the submitted
    /// text, then what it gave.
    pub fn add_to_history(&mut self, submission: &Submission)
        requires
            old(self).wf(),
            submission.kind != SubmissionKind::Solution,
        ensures
            final(self).wf(),
            final(self).history() == old(self).history() + history_entries(submission.string@, submission.kind),
            old(self).history_ascii() && is_ascii_chars(submission.string@) ==> final(self).history_ascii(),
            final(self).selected() == old(self).selected(),
            final(self).tick_count() == old(self).tick_count(),
            final(self).cursor_shown() == old(self).cursor_shown(),
    {
        let ghost old_history = self.history();
        let ghost old_history_ascii = self.history_ascii();
        let mut first = String::new();
        push_char(&mut first, '>');
        first.append(submission.string.as_str());
        let mut entries: Vec<String> = Vec::new();
        entries.push(first);
        match submission.kind {
            SubmissionKind::Error => entries.push(String::from_str(">Error")),
            SubmissionKind::Word { likeness, lockout } => {
                entries.push(String::from_str(">Entry denied."));
                if lockout {
                    entries.push(String::from_str(">Init Lockout"));
                } else {
                    let line = String::from_str(">Likeness=").concat(decimal(likeness).as_str());
                    entries.push(line);
                }
            },
            SubmissionKind::DudRemoved => entries.push(String::from_str(">Dud Removed.")),
            SubmissionKind::AttemptsReset => entries.push(String::from_str(">Tries Reset.")),
            SubmissionKind::Solution => {},
        }
        proof {
            reveal_strlit(">Error");
            reveal_strlit(">Entry denied.");
            reveal_strlit(">Init Lockout");
            reveal_strlit(">Likeness=");
            reveal_strlit(">Dud Removed.");
            reveal_strlit(">Tries Reset.");
            let es = entries@.map_values(|s: String| s@);
            assert(es =~= history_entries(submission.string@, submission.kind));
            assert forall|k: int| 0 <= k < es.len() implies (#[trigger] es[k]).len() > 0 by {
                assert(es[k][0] == '>');
            }
        }
        let mut i: usize = 0;
        while i < entries.len()
            invariant
                i <= entries.len(),
                self.wf(),
                forall|k: int| 0 <= k < entries.len() ==> (#[trigger] entries@[k])@.len() > 0,
                self.history() == old_history + entries@.map_values(|s: String| s@).subrange(0, i as int),
                self.selected() == old(self).selected(),
                self.tick_count() == old(self).tick_count(),
                self.cursor_shown() == old(self).cursor_shown(),
            decreases entries.len() - i,
        {
            let ghost prev = self.history();
            let ghost prev_vec = self.history@;
            let e = entries[i].clone();
            self.history.push(e);
            proof {
                let es = entries@.map_values(|s: String| s@);
                assert(self.history@ == prev_vec.push(e));
                assert(self.history() =~= prev.push(e@));
                assert(es[i as int] == e@);
                assert(self.history() =~= old_history + es.subrange(0, i + 1));
                assert forall|k: int| 0 <= k < self.history().len() implies #[trigger] self.history()[k].len() > 0 by {
                    if k < prev.len() {
                        assert(self.history()[k] == prev[k]);
                    }
                }
            }
            i = i + 1;
        }
        proof {
            let es = entries@.map_values(|s: String| s@);
            assert(es.subrange(0, entries.len() as int) == es);
            if old_history_ascii && is_ascii_chars(submission.string@) {
                lemma_entries_ascii(submission.string@, submission.kind);
                let h = self.history();
                assert forall|k: int| 0 <= k < h.len() implies is_ascii_chars(#[trigger] h[k]) by {
                    if k < old_history.len() {
                        assert(h[k] == old_history[k]);
                    } else {
                        assert(h[k] == es[k - old_history.len()]);
                    }
                }
            }
        }
    }

    /// One tick of the prompt cursor: every third tick it appears or
    /// disappears, and only then the widget needs to be drawn again.
    pub fn tick(&mut self) -> (redraw: bool)
        requires
            old(self).wf(),
        ensures
            final(self).wf(),
            (final(self).tick_count(), final(self).cursor_shown(), redraw) == tick_step(
                old(self).tick_count(),
                old(self).cursor_shown(),
            ),
            final(self).history() == old(self).history(),
            final(self).selected() == old(self).selected(),
    {
        let ghost h = self.history();
        self.cursor_tick = self.cursor_tick + 1;
        if self.cursor_tick == BLINK_TICKS {
            self.cursor_tick = 0;
            self.show_cursor = !self.show_cursor;
            assert(self.history() == h);
            return true;
        }
        assert(self.history() == h);
        false
    }

    /// The prompt text.
    pub fn selected_string(&self) -> (s: &str)
        ensures
            s@ == self.selected(),
    {
        self.selected_string.as_str()
    }

    /// The history, oldest line first.
    pub fn history_lines(&self) -> (h: &Vec<String>)
        ensures
            h@.map_values(|s: String| s@) == self.history(),
    {
        &self.history
    }

    /// The prompt cursor is shown.
    pub fn show_cursor(&self) -> (b: bool)
        ensures
            b == self.cursor_shown(),
    {
        self.show_cursor
    }
}

impl Default for RightWidget {
    /// An empty prompt and history, the cursor shown.
    fn default() -> (w: RightWidget)
        ensures
            w.wf(),
            w.selected() == Seq::<char>::empty(),
            w.history() == Seq::<Seq<char>>::empty(),
            w.tick_count() == 0,
            w.cursor_shown(),
    {
        let w = RightWidget { selected_string: String::new(), history: Vec::new(), cursor_tick: 0, show_cursor: true };
        assert(w.history() =~= Seq::<Seq<char>>::empty());
        w
    }
}

impl RightWidget {
    /// The history as the widget draws it in `height` rows of `width`
    /// cells: the rows of the entries, newest last row first, as many as fit.
    /// The first row given is drawn at the bottom. Rows are cut by counting
    /// characters; each line is ASCII, where a character is a byte, or fits
    /// into one row in bytes, where it is one row whole
    /// (`lemma_short_line_one_row`): so the rows are those the drawing cuts
    /// by bytes.
    pub fn history_rows(&self, width: u16, height: u16) -> (rows: Vec<String>)
        requires
            self.wf(),
            forall|i: int| 0 <= i < self.history().len() ==> fits_in_rows(#[trigger] self.history()[i], width as nat),
            width > 0,
        ensures
            rows@.map_values(|s: String| s@) == history_rows_from_bottom(self.history(), width as nat).take(
                if height as nat <= history_rows_from_bottom(self.history(), width as nat).len() {
                    height as int
                } else {
                    history_rows_from_bottom(self.history(), width as nat).len() as int
                },
            ),
    {
        let ghost all = history_rows_from_bottom(self.history(), width as nat);
        let w = width as usize;
        let mut rows: Vec<String> = Vec::new();
        if height == 0 || self.history.len() == 0 {
            proof {
                if self.history.len() == 0 {
                    assert(self.history() =~= Seq::<Seq<char>>::empty());
                }
                assert(rows@.map_values(|s: String| s@) =~= all.take(0));
            }
            return rows;
        }
        let mut i: usize = self.history.len() - 1;
        let mut chars = chars_of(self.history[i].as_str());
        let mut rem_len = chars.len();
        let mut r: u16 = 0;
        proof {
            lemma_rows_split(self.history(), i as int, width as nat);
            assert(chars@.subrange(0, rem_len as int) == chars@);
        }
        while r < height
            invariant_except_break
                rem_len > 0,
            invariant
                self.wf(),
                w == width as usize,
                width > 0,
                i < self.history().len(),
                chars@ == self.history()[i as int],
                rem_len <= chars.len(),
                rows.len() == r,
                r <= height,
                all == history_rows_from_bottom(self.history(), width as nat),
                all == rows@.map_values(|s: String| s@) + entry_rows(chars@.subrange(0, rem_len as int), width as nat)
                    + history_rows_from_bottom(self.history().subrange(0, i as int), width as nat),
            ensures
                r == height || all == rows@.map_values(|s: String| s@),
                rows.len() == r,
                r <= height,
                all.len() >= rows.len(),
                all.take(rows.len() as int) == rows@.map_values(|s: String| s@),
            decreases height - r,
        {
            let line_length = if rem_len % w == 0 { w } else { rem_len % w };
            assert(0 < line_length <= rem_len) by (nonlinear_arith)
                requires
                    rem_len > 0,
                    w > 0,
                    line_length == if rem_len % w == 0 { w } else { rem_len % w },
            ;
            let left = rem_len - line_length;
            let ghost prev_rows = rows@.map_values(|s: String| s@);
            let line = string_from_chars(vstd::slice::slice_subrange(chars.as_slice(), left, rem_len));
            rows.push(line);
            proof {
                let e = chars@.subrange(0, rem_len as int);
                assert(e.subrange(e.len() - line_length, e.len() as int) =~= chars@.subrange(left as int, rem_len as int));
                assert(e.subrange(0, e.len() - line_length) =~= chars@.subrange(0, left as int));
                assert(rows@.map_values(|s: String| s@) =~= prev_rows.push(chars@.subrange(left as int, rem_len as int)));
            }
            rem_len = left;
            r = r + 1;
            if rem_len == 0 {
                proof {
                    assert(entry_rows(chars@.subrange(0, 0), width as nat) == Seq::<Seq<char>>::empty());
                }
                if i == 0 {
                    proof {
                        assert(self.history().subrange(0, 0) =~= Seq::<Seq<char>>::empty());
                        assert(all =~= rows@.map_values(|s: String| s@));
                    }
                    break;
                }
                i = i - 1;
                chars = chars_of(self.history[i].as_str());
                rem_len = chars.len();
                proof {
                    lemma_rows_split(self.history(), i as int, width as nat);
                    assert(chars@.subrange(0, rem_len as int) == chars@);
                    assert(self.history().subrange(0, i + 1).subrange(0, i as int) =~= self.history().subrange(0, i as int));
                }
            }
        }
        rows
    }
}

/// The rows of the first `i + 1` entries are those of entry `i` followed by
/// those of the entries before it.
proof fn lemma_rows_split(history: Seq<Seq<char>>, i: int, width: nat)
    requires
        0 <= i < history.len(),
    ensures
        history_rows_from_bottom(history.subrange(0, i + 1), width) == entry_rows(history[i], width)
            + history_rows_from_bottom(history.subrange(0, i), width),
        i + 1 == history.len() ==> history.subrange(0, i + 1) == history,
{
    let h = history.subrange(0, i + 1);
    assert(h.drop_last() =~= history.subrange(0, i));
    assert(h.last() == history[i]);
    if i + 1 == history.len() {
        assert(h =~= history);
    }
}

/// One tick of the prompt cursor from tick count `count` with the cursor
/// shown or not: the new count, whether the cursor is shown, and whether it
/// changed (and the widget needs drawing).
pub open spec fn tick_step(count: usize, shown: bool) -> (usize, bool, bool) {
    if count + 1 == BLINK_TICKS {
        (0, !shown, true)
    } else {
        ((count + 1) as usize, shown, false)
    }
}

/// Three ticks, from any tick count, change the cursor exactly once and
/// bring the tick count back to where it was.
pub proof fn lemma_blink_period(count: usize, shown: bool)
    requires
        count < BLINK_TICKS,
    ensures
        ({
            let (c1, s1, r1) = tick_step(count, shown);
            let (c2, s2, r2) = tick_step(c1, s1);
            let (c3, s3, r3) = tick_step(c2, s2);
            &&& c3 == count
            &&& s3 == !shown
            &&& (r1 as int) + (r2 as int) + (r3 as int) == 1
        }),
{
}

/// The rows of an entry, read from the top row down.
pub open spec fn join_from_top(rows: Seq<Seq<char>>) -> Seq<char>
    decreases rows.len(),
{
    if rows.len() == 0 {
        Seq::empty()
    } else {
        join_from_top(rows.drop_first()) + rows[0]
    }
}

/// Breaking an entry into rows loses nothing: read from the top row down,
/// the rows give the entry back, and no row is empty or wider than the
/// widget.
pub proof fn lemma_entry_rows_reassemble(s: Seq<char>, width: nat)
    requires
        width > 0,
    ensures
        join_from_top(entry_rows(s, width)) == s,
        forall|i: int| 0 <= i < entry_rows(s, width).len() ==> 0 < (#[trigger] entry_rows(s, width)[i]).len() <= width,
    decreases s.len(),
{
    if s.len() > 0 {
        let r = if s.len() % width == 0 { width } else { s.len() % width };
        assert(0 < r <= s.len() && r <= width) by (nonlinear_arith)
            requires
                s.len() > 0,
                width > 0,
                r == if s.len() % width == 0 { width } else { s.len() % width },
        ;
        let front = s.subrange(0, s.len() - r);
        let last = s.subrange(s.len() - r, s.len() as int);
        lemma_entry_rows_reassemble(front, width);
        let rows = entry_rows(s, width);
        assert(rows == seq![last] + entry_rows(front, width));
        assert(rows.drop_first() =~= entry_rows(front, width));
        assert(front + last =~= s);
        assert forall|i: int| 0 <= i < rows.len() implies 0 < (#[trigger] rows[i]).len() <= width by {
            if i > 0 {
                assert(rows[i] == entry_rows(front, width)[i - 1]);
            }
        }
    }
}

/// The lines a submission of ASCII text adds to the history are ASCII.
pub proof fn lemma_entries_ascii(string: Seq<char>, kind: SubmissionKind)
    requires
        is_ascii_chars(string),
    ensures
        forall|k: int| 0 <= k < history_entries(string, kind).len() ==> is_ascii_chars(
            #[trigger] history_entries(string, kind)[k],
        ),
{
    reveal_strlit(">Error");
    reveal_strlit(">Entry denied.");
    reveal_strlit(">Init Lockout");
    reveal_strlit(">Likeness=");
    reveal_strlit(">Dud Removed.");
    reveal_strlit(">Tries Reset.");
    let first = seq!['>'] + string;
    assert(is_ascii_chars(first)) by {
        assert forall|i: int| 0 <= i < first.len() implies '\0' <= #[trigger] first[i] <= '\u{7f}' by {
            if i > 0 {
                assert(first[i] == string[i - 1]);
            }
        }
    }
    if let SubmissionKind::Word { likeness, lockout } = kind {
        if !lockout {
            crate::text::lemma_decimal_ascii(likeness as nat);
            let l = ">Likeness="@ + spec_decimal(likeness as nat);
            assert forall|i: int| 0 <= i < l.len() implies '\0' <= #[trigger] l[i] <= '\u{7f}' by {
                if i >= 10 {
                    assert(l[i] == spec_decimal(likeness as nat)[i - 10]);
                }
            }
        }
    }
}

} // verus!
