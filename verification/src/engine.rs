//! The editor: a text buffer, its history, a cursor, a selection and the prompts,
//! driven one key press at a time.
use vstd::prelude::*;

use crate::buffer::{GapBuffer, GAP_SIZE};
use crate::history::{Action, History, HistoryView};
use crate::model::{
    all_digits, applies, deletion_of, deletions, digits_value, first_at_least, insertion_of,
    insertions, is_digit, law_step_keeps_invariant, lemma_digits_value_prefix, max_of, min_of,
    parse_usize, trim_back, trim_front, trimmed, vertical_target, without_plus, EngineView, Outcome,
};
use crate::text::lemma_line_offset_exists;
use crate::strings::{char_is_whitespace, chars_of, pop_char, push_char};

verus! {

/// What the keyboard is currently used for.
#[derive(Clone, Copy, PartialEq, Eq, Structural, Debug)]
pub enum Mode {
    Normal,
    Search,
    GoToLine,
    SavePrompt,
    QuitPrompt,
}

/// The keys the editor tells apart.
#[derive(Clone, Copy, PartialEq, Eq, Structural, Debug)]
pub enum Key {
    Char(char),
    Enter,
    Backspace,
    Delete,
    Esc,
    Left,
    Right,
    Up,
    Down,
    Home,
    End,
    Other,
}

/// A key press: the key, and whether Control and Shift were held.
#[derive(Clone, Copy, PartialEq, Eq, Structural, Debug)]
pub struct KeyPress {
    pub code: Key,
    pub ctrl: bool,
    pub shift: bool,
}

/// What the program around the editor has to do after a key press.
#[derive(Clone, PartialEq, Eq, Debug)]
pub enum Effect {
    /// Nothing; wait for the next key.
    Continue,
    /// Stop the editor.
    Quit,
    /// Save the text (see `Engine::save_target` and `Engine::mark_saved`).
    Save,
    /// Save the text, then stop the editor.
    SaveAndQuit,
    /// Put this text on the clipboard.
    Copy(String),
    /// Read the clipboard and hand its text to `Engine::paste`.
    Paste,
}

impl View for Effect {
    type V = Outcome;

    open spec fn view(&self) -> Outcome {
        match self {
            Effect::Continue => Outcome::Continue,
            Effect::Quit => Outcome::Quit,
            Effect::Save => Outcome::Save,
            Effect::SaveAndQuit => Outcome::SaveAndQuit,
            Effect::Copy(s) => Outcome::Copy(s@),
            Effect::Paste => Outcome::Paste,
        }
    }
}

/// The text of an optional string.
pub open spec fn opt_view(o: Option<String>) -> Option<Seq<char>> {
    match o {
        Some(s) => Some(s@),
        None => None,
    }
}

/// An editing session: the text, its history, the cursor, the selection, the
/// prompts and the file it belongs to.
pub struct Engine {
    pub buffer: GapBuffer,
    pub history: History,
    pub cursor_char_idx: usize,
    pub mode: Mode,
    pub filepath: Option<String>,
    pub dirty: bool,
    pub prompt_input: String,
    pub search_matches: Vec<usize>,
    pub current_match_idx: usize,
    pub status_message: String,
    pub selection_start: Option<usize>,
}

impl View for Engine {
    type V = EngineView;

    open spec fn view(&self) -> EngineView {
        EngineView {
            text: self.buffer@,
            history: self.history@,
            cursor: self.cursor_char_idx,
            mode: self.mode,
            filepath: opt_view(self.filepath),
            dirty: self.dirty,
            prompt: self.prompt_input@,
            matches: self.search_matches@,
            current_match: self.current_match_idx,
            status: self.status_message@,
            selection: self.selection_start,
        }
    }
}

/// Deletes the characters of `[lo, hi)` (with `hi` cut down to the length of the
/// text) from the last to the first, recording each deletion.
fn delete_range(buffer: &mut GapBuffer, history: &mut History, lo: usize, hi0: usize)
    requires
        old(buffer).wf(),
        lo <= hi0,
        lo <= old(buffer)@.len(),
    ensures
        final(buffer).wf(),
        ({
            let t = old(buffer)@;
            let hi: int = if hi0 < t.len() {
                hi0 as int
            } else {
                t.len() as int
            };
            &&& final(buffer)@ == t.subrange(0, lo as int) + t.subrange(hi, t.len() as int)
            &&& final(history)@ == if lo < hi {
                HistoryView { undo: old(history)@.undo + deletions(t, lo as int, hi), redo: Seq::empty() }
            } else {
                old(history)@
            }
        }),
{
    let ghost t = buffer@;
    let ghost h0 = history@;
    let ghost hi: int = if hi0 < t.len() {
        hi0 as int
    } else {
        t.len() as int
    };
    let mut i = hi0;
    proof {
        assert(t.subrange(0, hi) + t.subrange(hi, t.len() as int) =~= t);
        assert(h0.undo + deletions(t, hi, hi) =~= h0.undo);
    }
    while i > lo
        invariant
            buffer.wf(),
            lo <= i <= hi0,
            lo <= hi <= t.len(),
            hi == if hi0 < t.len() {
                hi0 as int
            } else {
                t.len() as int
            },
            ({
                let j: int = if i < hi {
                    i as int
                } else {
                    hi
                };
                &&& buffer@ == t.subrange(0, j) + t.subrange(hi, t.len() as int)
                &&& history@.undo == h0.undo + deletions(t, j, hi)
                &&& history@.redo == if j < hi {
                    Seq::<Action>::empty()
                } else {
                    h0.redo
                }
            }),
        decreases i,
    {
        i -= 1;
        let ghost before = buffer@;
        match buffer.delete(i) {
            Some(c) => {
                proof {
                    assert(i < hi);
                    assert(c == t[i as int]);
                    assert(Action::Delete(i, c) == deletion_of(t, i as int));
                    assert(deletions(t, i as int, hi)[hi - 1 - i] == deletion_of(t, i as int));
                    assert(deletions(t, i as int, hi).drop_last() =~= deletions(t, i + 1, hi));
                    assert(before.remove(i as int) =~= t.subrange(0, i as int) + t.subrange(
                        hi,
                        t.len() as int,
                    ));
                }
                history.record(Action::Delete(i, c));
                proof {
                    assert(history@.undo =~= h0.undo + deletions(t, i as int, hi));
                }
            },
            None => {},
        }
    }
    proof {
        if lo as int == hi {
            assert(h0.undo + deletions(t, hi, hi) =~= h0.undo);
        }
    }
}

/// Inserts the characters of `p` one by one from position `at` on, recording
/// each insertion.
fn insert_chars(buffer: &mut GapBuffer, history: &mut History, at: usize, p: &Vec<char>)
    requires
        old(buffer).wf(),
        at <= old(buffer)@.len(),
        old(buffer)@.len() + p@.len() + GAP_SIZE <= usize::MAX,
    ensures
        final(buffer).wf(),
        final(buffer)@ == old(buffer)@.subrange(0, at as int) + p@ + old(buffer)@.subrange(
            at as int,
            old(buffer)@.len() as int,
        ),
        final(history)@ == if p@.len() > 0 {
            HistoryView { undo: old(history)@.undo + insertions(p@, at as int), redo: Seq::empty() }
        } else {
            old(history)@
        },
{
    let ghost t = buffer@;
    let ghost h0 = history@;
    let mut k: usize = 0;
    proof {
        assert(t.subrange(0, at as int) + p@.take(0) + t.subrange(at as int, t.len() as int) =~= t);
        assert(h0.undo + insertions(p@, at as int).take(0) =~= h0.undo);
    }
    while k < p.len()
        invariant
            buffer.wf(),
            at <= t.len(),
            t.len() + p@.len() + GAP_SIZE <= usize::MAX,
            k <= p@.len(),
            buffer@ == t.subrange(0, at as int) + p@.take(k as int) + t.subrange(at as int, t.len() as int),
            history@.undo == h0.undo + insertions(p@, at as int).take(k as int),
            history@.redo == if k > 0 {
                Seq::<Action>::empty()
            } else {
                h0.redo
            },
        decreases p@.len() - k,
    {
        let c = p[k];
        let ghost before = buffer@;
        buffer.insert(at + k, c);
        proof {
            assert(before.insert(at + k, c) =~= t.subrange(0, at as int) + p@.take(k + 1) + t.subrange(
                at as int,
                t.len() as int,
            ));
            assert(Action::Insert((at + k) as usize, c) == insertion_of(p@[k as int], at + k));
            assert(insertions(p@, at as int).take(k + 1)[k as int] == Action::Insert((at + k) as usize, c));
            assert(insertions(p@, at as int).take(k + 1).drop_last() =~= insertions(p@, at as int).take(
                k as int,
            ));
        }
        history.record(Action::Insert(at + k, c));
        proof {
            assert(history@.undo =~= h0.undo + insertions(p@, at as int).take(k + 1));
        }
        k += 1;
    }
    proof {
        assert(p@.take(p@.len() as int) =~= p@);
        assert(insertions(p@, at as int).take(p@.len() as int) =~= insertions(p@, at as int));
        if p@.len() == 0 {
            assert(h0.undo + insertions(p@, at as int) =~= h0.undo);
        }
    }
}

/// Reads a decimal line number: digits with an optional leading `+`, fitting in
/// a `usize`.
fn parse_line_number(s: &str) -> (r: Option<usize>)
    ensures
        r == parse_usize(s@),
{
    let v = chars_of(s);
    let n = v.len();
    let start: usize = if n > 0 && v[0] == '+' {
        1
    } else {
        0
    };
    let ghost d = without_plus(s@);
    assert(d =~= s@.subrange(start as int, n as int));
    if start >= n {
        assert(d.len() == 0);
        assert(parse_usize(s@).is_none());
        return None;
    }
    let mut value: usize = 0;
    let mut i = start;
    while i < n
        invariant
            v@ == s@,
            n == v@.len(),
            start <= i <= n,
            d == s@.subrange(start as int, n as int),
            d == without_plus(s@),
            forall|k: int| 0 <= k < i - start ==> is_digit(#[trigger] d[k]),
            value == digits_value(d.take(i - start)),
        decreases n - i,
    {
        let c = v[i];
        if !(c >= '0' && c <= '9') {
            assert(!is_digit(d[i - start]));
            assert(!all_digits(d));
            assert(parse_usize(s@).is_none());
            return None;
        }
        let digit = (c as u32 - '0' as u32) as usize;
        proof {
            assert(d.take(i - start + 1).drop_last() =~= d.take(i - start));
            assert(d.take(i - start + 1).last() == c);
            assert(digits_value(d.take(i - start + 1)) == value * 10 + digit);
        }
        match value.checked_mul(10) {
            None => {
                proof {
                    lemma_digits_value_prefix(d, i - start + 1, n - start);
                    assert(d.take(n - start) =~= d);
                }
                return None;
            },
            Some(tens) => match tens.checked_add(digit) {
                None => {
                    proof {
                        lemma_digits_value_prefix(d, i - start + 1, n - start);
                        assert(d.take(n - start) =~= d);
                    }
                    return None;
                },
                Some(next) => {
                    value = next;
                },
            },
        }
        i += 1;
    }
    assert(d.take(n - start) =~= d);
    Some(value)
}

/// `s` without white space at either end.
fn trim_text(s: &str) -> (r: String)
    ensures
        r@ == trimmed(s@),
{
    let v = chars_of(s);
    let n = v.len();
    let mut a: usize = 0;
    assert(s@.subrange(0, n as int) =~= s@);
    while a < n && char_is_whitespace(v[a])
        invariant
            v@ == s@,
            n == v@.len(),
            a <= n,
            trim_front(s@) == trim_front(s@.subrange(a as int, n as int)),
        decreases n - a,
    {
        assert(s@.subrange(a as int, n as int).drop_first() =~= s@.subrange(a + 1, n as int));
        a += 1;
    }
    assert(trim_front(s@.subrange(a as int, n as int)) == s@.subrange(a as int, n as int));
    let mut b: usize = n;
    while b > a && char_is_whitespace(v[b - 1])
        invariant
            v@ == s@,
            n == v@.len(),
            a <= b <= n,
            trimmed(s@) == trim_back(s@.subrange(a as int, b as int)),
        decreases b,
    {
        assert(s@.subrange(a as int, b as int).drop_last() =~= s@.subrange(a as int, b - 1));
        b -= 1;
    }
    assert(trim_back(s@.subrange(a as int, b as int)) == s@.subrange(a as int, b as int));
    let mut r = String::new();
    let mut k = a;
    while k < b
        invariant
            v@ == s@,
            n == v@.len(),
            a <= k <= b <= n,
            r@ == s@.subrange(a as int, k as int),
        decreases b - k,
    {
        assert(s@.subrange(a as int, k + 1) =~= s@.subrange(a as int, k as int).push(v@[k as int]));
        push_char(&mut r, v[k]);
        k += 1;
    }
    r
}

impl Engine {
    /// The buffer is well formed and the session satisfies its invariant.
    pub open spec fn wf(&self) -> bool {
        self.buffer.wf() && self@.wf()
    }

    /// A session on an empty text, editing normally, with a welcome message.
    pub fn new() -> (e: Self)
        ensures
            e.wf(),
            e@ == (EngineView {
                text: Seq::empty(),
                history: HistoryView { undo: Seq::empty(), redo: Seq::empty() },
                cursor: 0,
                mode: Mode::Normal,
                filepath: None,
                dirty: false,
                prompt: Seq::empty(),
                matches: Seq::empty(),
                current_match: 0,
                status: "Welcome to Enzato | Ctrl+S: Save | Ctrl+Q: Quit | Ctrl+F: Find"@,
                selection: None,
            }),
    {
        Engine {
            buffer: GapBuffer::new(),
            history: History::new(),
            cursor_char_idx: 0,
            mode: Mode::Normal,
            filepath: None,
            dirty: false,
            prompt_input: String::new(),
            search_matches: Vec::new(),
            current_match_idx: 0,
            status_message: String::from_str(
                "Welcome to Enzato | Ctrl+S: Save | Ctrl+Q: Quit | Ctrl+F: Find",
            ),
            selection_start: None,
        }
    }

    /// Starts editing the file at `path`, given the text read from it, or `None`
    /// when no file exists there: the text is replaced, the history forgotten,
    /// the cursor put at the start and the text marked unmodified.
    pub fn load_file(&mut self, content: Option<&str>, path: &str)
        requires
            old(self).wf(),
            old(self).mode != Mode::Search,
            content matches Some(c) ==> c@.len() + GAP_SIZE <= usize::MAX,
        ensures
            final(self).wf(),
            final(self)@ == (EngineView {
                text: match content {
                    Some(c) => c@,
                    None => Seq::empty(),
                },
                history: HistoryView { undo: Seq::empty(), redo: Seq::empty() },
                cursor: 0,
                filepath: Some(path@),
                dirty: false,
                status: "Loaded: "@ + path@,
                selection: None,
                ..old(self)@
            }),
    {
        match content {
            Some(c) => {
                self.buffer = GapBuffer::from_string(c);
            },
            None => {
                self.buffer = GapBuffer::new();
            },
        }
        self.filepath = Some(String::from_str(path));
        self.cursor_char_idx = 0;
        self.dirty = false;
        self.history.clear();
        self.selection_start = None;
        let mut status = String::from_str("Loaded: ");
        status.append(path);
        self.status_message = status;
    }

    /// The first half of saving: the path to write the text to, or, when the
    /// session has no file yet, `None` and the save-as prompt opened.
    pub fn save_target(&mut self) -> (r: Option<String>)
        requires
            old(self).wf(),
            old(self).mode != Mode::Search,
        ensures
            final(self).wf(),
            match old(self)@.filepath {
                Some(p) => r matches Some(q) && q@ == p && final(self)@ == old(self)@,
                None => r.is_none() && final(self)@ == (EngineView {
                    mode: Mode::SavePrompt,
                    prompt: Seq::empty(),
                    ..old(self)@
                }),
            },
    {
        match &self.filepath {
            Some(path) => Some(path.clone()),
            None => {
                self.mode = Mode::SavePrompt;
                self.prompt_input = String::new();
                None
            },
        }
    }

    /// The second half of saving, once the text was written to `path`: the text is
    /// marked unmodified and the status line says so.
    pub fn mark_saved(&mut self, path: &str)
        requires
            old(self).wf(),
        ensures
            final(self).wf(),
            final(self)@ == (EngineView {
                dirty: false,
                status: "Saved successfully to "@ + path@,
                ..old(self)@
            }),
    {
        self.dirty = false;
        let mut status = String::from_str("Saved successfully to ");
        status.append(path);
        self.status_message = status;
    }

    /// Applies an edit to the text and puts the cursor after an insertion, or at a
    /// deletion. The history is left alone.
    pub fn apply_action(&mut self, action: Action)
        requires
            old(self).buffer.wf(),
            match action {
                Action::Insert(i, _) => i <= old(self).buffer@.len() && old(self).buffer@.len()
                    + GAP_SIZE <= usize::MAX,
                Action::Delete(_, _) => true,
            },
        ensures
            final(self).buffer.wf(),
            final(self)@ == old(self)@.applied(action),
    {
        match action {
            Action::Insert(idx, c) => {
                self.buffer.insert(idx, c);
                self.cursor_char_idx = idx + 1;
            },
            Action::Delete(idx, _) => {
                self.buffer.delete(idx);
                self.cursor_char_idx = idx;
            },
        }
    }

    /// Moves the cursor `dir` lines down (up when negative), keeping its column
    /// where the target line is long enough.
    pub fn move_cursor_vertical(&mut self, dir: isize)
        requires
            old(self).buffer.wf(),
            dir != isize::MIN,
        ensures
            final(self).buffer.wf(),
            final(self)@ == (EngineView {
                cursor: vertical_target(old(self)@.text, old(self)@.cursor, dir as int),
                ..old(self)@
            }),
    {
        let (current_line, current_col) = self.buffer.line_col_at_idx(self.cursor_char_idx);
        let target_line = if dir < 0 {
            current_line.saturating_sub((-dir) as usize)
        } else {
            current_line.saturating_add(dir as usize)
        };
        self.cursor_char_idx = self.buffer.idx_at_line_col(target_line, current_col);
    }

    /// Deletes the selection, if it covers at least one position, recording each
    /// deleted character; in any case the selection ends. Returns whether
    /// anything was selected.
    pub fn delete_selection(&mut self) -> (r: bool)
        requires
            old(self).wf(),
            old(self)@.matches.len() == 0,
        ensures
            final(self).wf(),
            final(self)@ == old(self)@.without_selection().0,
            r == old(self)@.without_selection().1,
    {
        proof {
            old(self)@.lemma_without_selection();
        }
        if let Some(start) = self.selection_start {
            let end = self.cursor_char_idx;
            let s_min = if start <= end {
                start
            } else {
                end
            };
            let s_max = if start <= end {
                end
            } else {
                start
            };
            if s_min != s_max {
                delete_range(&mut self.buffer, &mut self.history, s_min, s_max);
                self.cursor_char_idx = s_min;
                self.selection_start = None;
                self.dirty = true;
                return true;
            }
        }
        self.selection_start = None;
        false
    }

    /// Searches the text for the prompt's text: the matches are kept, and the
    /// cursor goes to the first one at or after it (else to the first one). No
    /// change when the prompt is empty or nothing matches.
    pub fn update_search(&mut self)
        requires
            old(self).wf(),
            old(self).mode == Mode::Search,
        ensures
            final(self).wf(),
            final(self)@ == old(self)@.searched(),
    {
        proof {
            old(self)@.lemma_searched();
        }
        if self.prompt_input.as_str().is_empty() {
            return;
        }
        // `search_all` gives the positions in increasing order.
        let matches = self.buffer.search_all(self.prompt_input.as_str());
        if matches.len() > 0 {
            let mut i: usize = 0;
            while i < matches.len() && matches[i] < self.cursor_char_idx
                invariant
                    i <= matches@.len(),
                    forall|k: int| 0 <= k < i ==> matches@[k] < self.cursor_char_idx,
                    first_at_least(matches@, self.cursor_char_idx, 0) == first_at_least(
                        matches@,
                        self.cursor_char_idx,
                        i as int,
                    ),
                decreases matches@.len() - i,
            {
                i += 1;
            }
            let current = if i < matches.len() {
                i
            } else {
                0
            };
            self.search_matches = matches;
            self.current_match_idx = current;
            self.cursor_char_idx = self.search_matches[current];
        }
    }

    /// Whether position `idx` lies in the selection, which runs from the lower to,
    /// not including, the higher of its start and the cursor.
    pub fn in_selection(&self, idx: usize) -> (r: bool)
        ensures
            r == match self.selection_start {
                Some(start) => min_of(start, self.cursor_char_idx) <= idx < max_of(
                    start,
                    self.cursor_char_idx,
                ),
                None => false,
            },
    {
        match self.selection_bounds() {
            Some((s_min, s_max)) => idx >= s_min && idx < s_max,
            None => false,
        }
    }

    /// Inserts `c` at the cursor, replacing the selection first, records the
    /// insertion and moves the cursor after it.
    fn type_char(&mut self, c: char)
        requires
            old(self).wf(),
            old(self).mode == Mode::Normal,
            old(self)@.has_room(GAP_SIZE as nat),
        ensures
            final(self).buffer.wf(),
            final(self)@ == old(self)@.typed(c),
    {
        self.delete_selection();
        let i = self.cursor_char_idx;
        self.buffer.insert(i, c);
        self.history.record(Action::Insert(i, c));
        self.cursor_char_idx = i + 1;
        self.dirty = true;
    }

    /// A cursor key: with Shift the selection starts (or goes on) at the cursor,
    /// without it the selection ends; then the cursor moves.
    fn handle_movement_key(&mut self, key: KeyPress)
        requires
            old(self).wf(),
        ensures
            final(self).buffer.wf(),
            final(self)@ == old(self)@.moved(key.code, key.shift),
    {
        if key.shift {
            if self.selection_start.is_none() {
                self.selection_start = Some(self.cursor_char_idx);
            }
        } else {
            self.selection_start = None;
        }
        match key.code {
            Key::Left => {
                if self.cursor_char_idx > 0 {
                    self.cursor_char_idx -= 1;
                }
            },
            Key::Right => {
                if self.cursor_char_idx < self.buffer.len() {
                    self.cursor_char_idx += 1;
                }
            },
            Key::Up => {
                self.move_cursor_vertical(-1);
            },
            Key::Down => {
                self.move_cursor_vertical(1);
            },
            Key::Home => {
                self.cursor_char_idx = self.buffer.line_start_idx(self.cursor_char_idx);
            },
            Key::End => {
                self.cursor_char_idx = self.buffer.line_end_idx(self.cursor_char_idx);
            },
            _ => {},
        }
    }

    /// The selection's bounds, lower first, when a selection exists.
    fn selection_bounds(&self) -> (r: Option<(usize, usize)>)
        ensures
            match self.selection_start {
                Some(start) => r == Some(
                    (min_of(start, self.cursor_char_idx), max_of(start, self.cursor_char_idx)),
                ),
                None => r.is_none(),
            },
    {
        match self.selection_start {
            Some(start) => {
                let end = self.cursor_char_idx;
                if start <= end {
                    Some((start, end))
                } else {
                    Some((end, start))
                }
            },
            None => None,
        }
    }

    /// A key while editing normally.
    fn handle_normal_key(&mut self, key: KeyPress) -> (r: Effect)
        requires
            old(self).wf(),
            old(self).mode == Mode::Normal,
            old(self)@.has_room(GAP_SIZE as nat),
        ensures
            final(self).wf(),
            final(self)@ == old(self)@.normal_step(key).0,
            r@ == old(self)@.normal_step(key).1,
    {
        proof {
            law_step_keeps_invariant(old(self)@, key);
        }
        if key.ctrl {
            match key.code {
                Key::Char(ch) => {
                    if ch == 'q' {
                        if self.dirty {
                            self.mode = Mode::QuitPrompt;
                            return Effect::Continue;
                        }
                        return Effect::Quit;
                    } else if ch == 's' {
                        return Effect::Save;
                    } else if ch == 'z' {
                        proof {
                            if old(self)@.history.undo.len() > 0 {
                                assert(applies(
                                    old(self)@.text,
                                    old(self)@.history.undo.last().inverse(),
                                ));
                            }
                        }
                        if let Some(action) = self.history.undo() {
                            self.apply_action(action);
                            self.dirty = true;
                        }
                    } else if ch == 'y' {
                        proof {
                            if old(self)@.history.redo.len() > 0 {
                                assert(applies(old(self)@.text, old(self)@.history.redo.last()));
                            }
                        }
                        if let Some(action) = self.history.redo() {
                            self.apply_action(action);
                            self.dirty = true;
                        }
                    } else if ch == 'f' {
                        self.mode = Mode::Search;
                        self.prompt_input = String::new();
                        self.search_matches.clear();
                    } else if ch == 'g' {
                        self.mode = Mode::GoToLine;
                        self.prompt_input = String::new();
                    } else if ch == 'a' {
                        self.selection_start = Some(0);
                        self.cursor_char_idx = self.buffer.len();
                    } else if ch == 'c' {
                        if let Some((s_min, s_max)) = self.selection_bounds() {
                            if s_min != s_max {
                                let text = self.buffer.get_range_string(s_min, s_max);
                                return Effect::Copy(text);
                            }
                        }
                    } else if ch == 'v' {
                        return Effect::Paste;
                    } else if ch == 'x' {
                        if let Some((s_min, s_max)) = self.selection_bounds() {
                            if s_min != s_max {
                                let text = self.buffer.get_range_string(s_min, s_max);
                                self.delete_selection();
                                return Effect::Copy(text);
                            }
                        }
                    }
                },
                _ => {},
            }
            return Effect::Continue;
        }
        match key.code {
            Key::Left | Key::Right | Key::Up | Key::Down | Key::Home | Key::End => {
                self.handle_movement_key(key);
            },
            Key::Char(c) => {
                self.type_char(c);
            },
            Key::Enter => {
                self.type_char('\n');
            },
            Key::Backspace => {
                if !self.delete_selection() {
                    if self.cursor_char_idx > 0 {
                        self.cursor_char_idx -= 1;
                        let i = self.cursor_char_idx;
                        let ghost t = self.buffer@;
                        if let Some(c) = self.buffer.delete(i) {
                            assert(Action::Delete(i, c) == deletion_of(t, i as int));
                            self.history.record(Action::Delete(i, c));
                            self.dirty = true;
                        }
                    }
                }
            },
            Key::Delete => {
                if !self.delete_selection() {
                    if self.cursor_char_idx < self.buffer.len() {
                        let i = self.cursor_char_idx;
                        let ghost t = self.buffer@;
                        if let Some(c) = self.buffer.delete(i) {
                            assert(Action::Delete(i, c) == deletion_of(t, i as int));
                            self.history.record(Action::Delete(i, c));
                            self.dirty = true;
                        }
                    }
                }
            },
            _ => {},
        }
        Effect::Continue
    }

    /// Inserts the clipboard's text `text` at the cursor, replacing the selection
    /// first, and records each inserted character.
    pub fn paste(&mut self, text: &str)
        requires
            old(self).wf(),
            old(self).mode != Mode::Search,
            old(self)@.has_room((GAP_SIZE + text@.len()) as nat),
        ensures
            final(self).wf(),
            final(self)@ == old(self)@.pasted(text@),
    {
        proof {
            old(self)@.lemma_pasted(text@);
        }
        self.delete_selection();
        let chars = chars_of(text);
        let at = self.cursor_char_idx;
        insert_chars(&mut self.buffer, &mut self.history, at, &chars);
        self.cursor_char_idx = at + chars.len();
        if chars.len() > 0 {
            self.dirty = true;
        }
    }

    /// A key while the search prompt is open.
    fn handle_search_key(&mut self, key: KeyPress) -> (r: Effect)
        requires
            old(self).wf(),
            old(self).mode == Mode::Search,
        ensures
            final(self).wf(),
            final(self)@ == old(self)@.search_step(key).0,
            r@ == old(self)@.search_step(key).1,
    {
        match key.code {
            Key::Char(c) => {
                push_char(&mut self.prompt_input, c);
                self.update_search();
            },
            Key::Backspace => {
                pop_char(&mut self.prompt_input);
                self.update_search();
            },
            Key::Enter => {
                if self.search_matches.len() > 0 {
                    self.current_match_idx = (self.current_match_idx + 1) % self.search_matches.len();
                    self.cursor_char_idx = self.search_matches[self.current_match_idx];
                }
            },
            Key::Esc => {
                self.mode = Mode::Normal;
                self.prompt_input = String::new();
                self.search_matches.clear();
            },
            _ => {},
        }
        Effect::Continue
    }

    /// A key while the go-to-line prompt is open: digits build the line number,
    /// Enter goes to the start of that line (counting from 1).
    fn handle_goto_key(&mut self, key: KeyPress) -> (r: Effect)
        requires
            old(self).wf(),
            old(self).mode == Mode::GoToLine,
        ensures
            final(self).wf(),
            final(self)@ == old(self)@.goto_step(key).0,
            r@ == old(self)@.goto_step(key).1,
    {
        match key.code {
            Key::Char(c) => {
                if c >= '0' && c <= '9' {
                    push_char(&mut self.prompt_input, c);
                }
            },
            Key::Backspace => {
                pop_char(&mut self.prompt_input);
            },
            Key::Enter => {
                if let Some(line_num) = parse_line_number(self.prompt_input.as_str()) {
                    proof {
                        lemma_line_offset_exists(
                            self.buffer@,
                            (if line_num > 0 { line_num - 1 } else { 0 }) as nat,
                        );
                    }
                    self.cursor_char_idx = self.buffer.idx_at_line(line_num);
                }
                self.mode = Mode::Normal;
                self.prompt_input = String::new();
            },
            Key::Esc => {
                self.mode = Mode::Normal;
                self.prompt_input = String::new();
            },
            _ => {},
        }
        Effect::Continue
    }

    /// A key while the save-as prompt is open: Enter takes the prompt's text,
    /// without white space at its ends, as the file's path and asks for a save.
    fn handle_save_prompt_key(&mut self, key: KeyPress) -> (r: Effect)
        requires
            old(self).wf(),
            old(self).mode == Mode::SavePrompt,
        ensures
            final(self).wf(),
            final(self)@ == old(self)@.save_prompt_step(key).0,
            r@ == old(self)@.save_prompt_step(key).1,
    {
        match key.code {
            Key::Char(c) => {
                push_char(&mut self.prompt_input, c);
            },
            Key::Backspace => {
                pop_char(&mut self.prompt_input);
            },
            Key::Enter => {
                let name = trim_text(self.prompt_input.as_str());
                let save = !name.as_str().is_empty();
                if save {
                    self.filepath = Some(name);
                }
                self.mode = Mode::Normal;
                self.prompt_input = String::new();
                if save {
                    return Effect::Save;
                }
            },
            Key::Esc => {
                self.mode = Mode::Normal;
                self.prompt_input = String::new();
            },
            _ => {},
        }
        Effect::Continue
    }

    /// A key while the editor asks whether to save before quitting: y saves and
    /// quits, n quits, c or Esc goes back to editing.
    fn handle_quit_prompt_key(&mut self, key: KeyPress) -> (r: Effect)
        requires
            old(self).wf(),
            old(self).mode == Mode::QuitPrompt,
        ensures
            final(self).wf(),
            final(self)@ == old(self)@.quit_prompt_step(key).0,
            r@ == old(self)@.quit_prompt_step(key).1,
    {
        match key.code {
            Key::Char(c) => {
                if c == 'y' || c == 'Y' {
                    return Effect::SaveAndQuit;
                } else if c == 'n' || c == 'N' {
                    return Effect::Quit;
                } else if c == 'c' || c == 'C' {
                    self.mode = Mode::Normal;
                }
            },
            Key::Esc => {
                self.mode = Mode::Normal;
            },
            _ => {},
        }
        Effect::Continue
    }

    /// Handles one key press: changes the session as `EngineView::step` says and
    /// returns what the program around it has to do.
    pub fn handle_key(&mut self, key: KeyPress) -> (r: Effect)
        requires
            old(self).wf(),
            old(self)@.has_room(GAP_SIZE as nat),
        ensures
            final(self).wf(),
            final(self)@ == old(self)@.step(key).0,
            r@ == old(self)@.step(key).1,
    {
        match self.mode {
            Mode::Normal => self.handle_normal_key(key),
            Mode::Search => self.handle_search_key(key),
            Mode::GoToLine => self.handle_goto_key(key),
            Mode::SavePrompt => self.handle_save_prompt_key(key),
            Mode::QuitPrompt => self.handle_quit_prompt_key(key),
        }
    }
}

} // verus!
