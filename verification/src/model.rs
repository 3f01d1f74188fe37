//! The editor as a state machine over mathematical values: what every key press
//! does to the text, the cursor, the history and the prompts, and the laws that
//! hold of it.
use vstd::prelude::*;

use crate::engine::{Key, KeyPress, Mode};
use crate::history::{Action, HistoryView};
use crate::strings::is_white_space;
use crate::text::{
    is_line_offset,     lemma_line_begin, lemma_line_end, lemma_line_offset_exists, lemma_occurrences, line_begin,
    line_col, line_end, line_offset, occurrences_from, occurs_at, pos_at_line_col, search_results,
};

verus! {

/// What a key press asks of the program around the editor.
pub enum Outcome {
    /// Nothing; wait for the next key.
    Continue,
    /// Stop the editor.
    Quit,
    /// Save the text.
    Save,
    /// Save the text, then stop the editor.
    SaveAndQuit,
    /// Put these characters on the clipboard.
    Copy(Seq<char>),
    /// Insert the clipboard's text at the cursor.
    Paste,
}

/// The whole state of an editor, as mathematical values.
#[verifier::ext_equal]
pub struct EngineView {
    pub text: Seq<char>,
    pub history: HistoryView,
    pub cursor: usize,
    pub mode: Mode,
    pub filepath: Option<Seq<char>>,
    pub dirty: bool,
    pub prompt: Seq<char>,
    pub matches: Seq<usize>,
    pub current_match: usize,
    pub status: Seq<char>,
    pub selection: Option<usize>,
}

/// `t` after the edit `a`; deleting past the end changes nothing.
pub open spec fn apply_edit(t: Seq<char>, a: Action) -> Seq<char> {
    match a {
        Action::Insert(i, c) => t.insert(i as int, c),
        Action::Delete(i, _) => if i < t.len() {
            t.remove(i as int)
        } else {
            t
        },
    }
}

/// The edit `a` fits `t`: an insertion inside or at the end, a deletion of the
/// very character it names.
pub open spec fn applies(t: Seq<char>, a: Action) -> bool {
    match a {
        Action::Insert(i, _) => i <= t.len(),
        Action::Delete(i, c) => i < t.len() && t[i as int] == c,
    }
}

/// Undoing the edits of `undo`, the last first, steps back through texts that each
/// undo fits.
pub open spec fn can_undo_all(t: Seq<char>, undo: Seq<Action>) -> bool
    decreases undo.len(),
{
    if undo.len() == 0 {
        true
    } else {
        let a = undo.last().inverse();
        applies(t, a) && can_undo_all(apply_edit(t, a), undo.drop_last())
    }
}

/// Redoing the edits of `redo`, the last first, steps forward through texts that
/// each redo fits.
pub open spec fn can_redo_all(t: Seq<char>, redo: Seq<Action>) -> bool
    decreases redo.len(),
{
    if redo.len() == 0 {
        true
    } else {
        let a = redo.last();
        applies(t, a) && can_redo_all(apply_edit(t, a), redo.drop_last())
    }
}

/// The edits recorded when the characters of `t` in `[lo, hi)` are deleted one by
/// one from the last to the first.
pub open spec fn deletions(t: Seq<char>, lo: int, hi: int) -> Seq<Action> {
    Seq::new((hi - lo) as nat, |j: int| deletion_of(t, hi - 1 - j))
}

/// The edit that deletes the character of `t` at `i`.
pub open spec fn deletion_of(t: Seq<char>, i: int) -> Action {
    Action::Delete(i as usize, t[i])
}

/// The edit that inserts `c` at `i`.
pub open spec fn insertion_of(c: char, i: int) -> Action {
    Action::Insert(i as usize, c)
}

/// The edits recorded when the characters of `p` are inserted one by one from
/// position `at` on.
pub open spec fn insertions(p: Seq<char>, at: int) -> Seq<Action> {
    Seq::new(p.len(), |j: int| insertion_of(p[j], at + j))
}

/// The characters from `start` up to, not including, `end`, with `end` cut down to
/// the length of `t`.
pub open spec fn range_text(t: Seq<char>, start: int, end: int) -> Seq<char> {
    if start < end && start < t.len() {
        t.subrange(start, if end < t.len() { end } else { t.len() as int })
    } else {
        Seq::empty()
    }
}

pub open spec fn min_of(a: usize, b: usize) -> usize {
    if a <= b { a } else { b }
}

pub open spec fn max_of(a: usize, b: usize) -> usize {
    if a <= b { b } else { a }
}

/// The first index of `s` that holds a value at least `x`, searching from `k`; 0
/// when there is none.
pub open spec fn first_at_least(s: Seq<usize>, x: usize, k: int) -> int
    decreases s.len() - k,
{
    if k < 0 || k >= s.len() {
        0
    } else if s[k] >= x {
        k
    } else {
        first_at_least(s, x, k + 1)
    }
}

/// Where a vertical move of `dir` lines from position `cursor` lands: same column,
/// or the end of the target line when it is shorter.
pub open spec fn vertical_target(t: Seq<char>, cursor: usize, dir: int) -> usize {
    let (line, col) = line_col(t, cursor as int);
    let target = if dir < 0 {
        if line + dir > 0 {
            line + dir
        } else {
            0
        }
    } else {
        if line + dir < usize::MAX {
            line + dir
        } else {
            usize::MAX as int
        }
    };
    pos_at_line_col(t, target as nat, col) as usize
}

/// `s` without the white space at its start.
pub open spec fn trim_front(s: Seq<char>) -> Seq<char>
    decreases s.len(),
{
    if s.len() > 0 && is_white_space(s[0]) {
        trim_front(s.drop_first())
    } else {
        s
    }
}

/// `s` without the white space at its end.
pub open spec fn trim_back(s: Seq<char>) -> Seq<char>
    decreases s.len(),
{
    if s.len() > 0 && is_white_space(s.last()) {
        trim_back(s.drop_last())
    } else {
        s
    }
}

/// `s` without white space at either end.
pub open spec fn trimmed(s: Seq<char>) -> Seq<char> {
    trim_back(trim_front(s))
}

pub open spec fn is_digit(c: char) -> bool {
    '0' <= c && c <= '9'
}

/// `s` without a leading `+`, if it has one.
pub open spec fn without_plus(s: Seq<char>) -> Seq<char> {
    if s.len() > 0 && s[0] == '+' {
        s.drop_first()
    } else {
        s
    }
}

/// Every character of `d` is a decimal digit.
pub open spec fn all_digits(d: Seq<char>) -> bool {
    forall|i: int| 0 <= i < d.len() ==> is_digit(#[trigger] d[i])
}

/// The number that the decimal digits `s` write.
pub open spec fn digits_value(s: Seq<char>) -> nat
    decreases s.len(),
{
    if s.len() == 0 {
        0
    } else {
        digits_value(s.drop_last()) * 10 + (s.last() as int - '0' as int) as nat
    }
}

/// The `usize` that `s` writes in decimal, with an optional leading `+`; `None`
/// when `s` is anything else or the number does not fit.
pub open spec fn parse_usize(s: Seq<char>) -> Option<usize> {
    let d = without_plus(s);
    if d.len() > 0 && all_digits(d) && digits_value(d) <= usize::MAX {
        Some(digits_value(d) as usize)
    } else {
        None
    }
}

impl EngineView {
    /// What every reachable state satisfies: the cursor lies in the text, every
    /// recorded edit can be undone and redone in turn, and search results lie in
    /// the text and exist only while searching.
    pub open spec fn wf(self) -> bool {
        &&& self.cursor <= self.text.len()
        &&& self.text.len() < usize::MAX
        &&& can_undo_all(self.text, self.history.undo)
        &&& can_redo_all(self.text, self.history.redo)
        &&& (self.mode != Mode::Search ==> self.matches.len() == 0)
        &&& forall|k: int| 0 <= k < self.matches.len() ==> #[trigger] self.matches[k] <= self.text.len()
        &&& (self.matches.len() == 0 || self.current_match < self.matches.len())
    }

    /// The state after an edit `a` is applied to the text, with the cursor placed
    /// after an insertion or at a deletion.
    pub open spec fn applied(self, a: Action) -> EngineView {
        EngineView {
            text: apply_edit(self.text, a),
            cursor: match a {
                Action::Insert(i, _) => (i + 1) as usize,
                Action::Delete(i, _) => i,
            },
            ..self
        }
    }

    /// The state after an undo: the inverse of the last edit applied, and the text
    /// marked modified; no change when there is nothing to undo.
    pub open spec fn undone(self) -> EngineView {
        let (h, r) = self.history.undone();
        match r {
            Some(a) => EngineView { dirty: true, ..(EngineView { history: h, ..self }).applied(a) },
            None => self,
        }
    }

    /// The state after a redo: the last undone edit applied again, and the text
    /// marked modified; no change when there is nothing to redo.
    pub open spec fn redone(self) -> EngineView {
        let (h, r) = self.history.redone();
        match r {
            Some(a) => EngineView { dirty: true, ..(EngineView { history: h, ..self }).applied(a) },
            None => self,
        }
    }

    /// The selected characters, when a selection of at least one position exists.
    pub open spec fn selected_text(self) -> Option<Seq<char>> {
        match self.selection {
            Some(start) => {
                let lo = min_of(start, self.cursor);
                let hi = max_of(start, self.cursor);
                if lo != hi {
                    Some(range_text(self.text, lo as int, hi as int))
                } else {
                    None
                }
            },
            None => None,
        }
    }

    /// The state after the selection is deleted, and whether a selection was
    /// deleted. Each deleted character is recorded, the cursor goes to the start of
    /// the selection and the selection ends.
    pub open spec fn without_selection(self) -> (EngineView, bool) {
        match self.selection {
            Some(start) => {
                let lo = min_of(start, self.cursor);
                let hi0 = max_of(start, self.cursor);
                if lo != hi0 {
                    let hi: int = if hi0 < self.text.len() {
                        hi0 as int
                    } else {
                        self.text.len() as int
                    };
                    (
                        EngineView {
                            text: self.text.subrange(0, lo as int) + self.text.subrange(
                                hi,
                                self.text.len() as int,
                            ),
                            history: if lo < hi {
                                HistoryView {
                                    undo: self.history.undo + deletions(self.text, lo as int, hi),
                                    redo: Seq::empty(),
                                }
                            } else {
                                self.history
                            },
                            cursor: lo,
                            selection: None,
                            dirty: true,
                            ..self
                        },
                        true,
                    )
                } else {
                    (EngineView { selection: None, ..self }, false)
                }
            },
            None => (self, false),
        }
    }

    /// The state after `c` is typed: the selection replaced, `c` inserted and
    /// recorded at the cursor, the cursor after it.
    pub open spec fn typed(self, c: char) -> EngineView {
        let m = self.without_selection().0;
        EngineView {
            text: m.text.insert(m.cursor as int, c),
            history: m.history.recorded(Action::Insert(m.cursor, c)),
            cursor: (m.cursor + 1) as usize,
            dirty: true,
            ..m
        }
    }

    /// The state after Backspace: the selection deleted, or else the character
    /// before the cursor deleted and recorded.
    pub open spec fn backspaced(self) -> EngineView {
        let (m, deleted) = self.without_selection();
        if deleted {
            m
        } else if m.cursor > 0 {
            let i = (m.cursor - 1) as usize;
            if i < m.text.len() {
                EngineView {
                    text: m.text.remove(i as int),
                    history: m.history.recorded(deletion_of(m.text, i as int)),
                    cursor: i,
                    dirty: true,
                    ..m
                }
            } else {
                EngineView { cursor: i, ..m }
            }
        } else {
            m
        }
    }

    /// The state after Delete: the selection deleted, or else the character at the
    /// cursor deleted and recorded.
    pub open spec fn deleted_forward(self) -> EngineView {
        let (m, deleted) = self.without_selection();
        if deleted {
            m
        } else if m.cursor < m.text.len() {
            EngineView {
                text: m.text.remove(m.cursor as int),
                history: m.history.recorded(deletion_of(m.text, m.cursor as int)),
                dirty: true,
                ..m
            }
        } else {
            m
        }
    }

    /// The state after the clipboard text `p` is pasted: the selection replaced, the
    /// characters of `p` inserted and recorded one by one at the cursor.
    pub open spec fn pasted(self, p: Seq<char>) -> EngineView {
        let m = self.without_selection().0;
        EngineView {
            text: m.text.subrange(0, m.cursor as int) + p + m.text.subrange(
                m.cursor as int,
                m.text.len() as int,
            ),
            history: if p.len() > 0 {
                HistoryView {
                    undo: m.history.undo + insertions(p, m.cursor as int),
                    redo: Seq::empty(),
                }
            } else {
                m.history
            },
            cursor: (m.cursor + p.len()) as usize,
            dirty: if p.len() > 0 {
                true
            } else {
                m.dirty
            },
            ..m
        }
    }

    /// The state after a cursor key: with Shift the selection starts (or goes on)
    /// at the cursor, without it the selection ends; then the cursor moves.
    pub open spec fn moved(self, code: Key, shift: bool) -> EngineView {
        let sel = if shift {
            if self.selection.is_none() {
                Some(self.cursor)
            } else {
                self.selection
            }
        } else {
            None
        };
        let c = match code {
            Key::Left => if self.cursor > 0 {
                (self.cursor - 1) as usize
            } else {
                self.cursor
            },
            Key::Right => if self.cursor < self.text.len() {
                (self.cursor + 1) as usize
            } else {
                self.cursor
            },
            Key::Up => vertical_target(self.text, self.cursor, -1),
            Key::Down => vertical_target(self.text, self.cursor, 1),
            Key::Home => line_begin(self.text, self.cursor as int) as usize,
            Key::End => line_end(self.text, self.cursor as int) as usize,
            _ => self.cursor,
        };
        EngineView { selection: sel, cursor: c, ..self }
    }

    /// The state after the search for the prompt's text: the matches, the first one
    /// at or after the cursor (else the first one), and the cursor on it; no change
    /// when the prompt is empty or nothing matches.
    pub open spec fn searched(self) -> EngineView {
        let ms = search_results(self.text, self.prompt);
        if self.prompt.len() == 0 || ms.len() == 0 {
            self
        } else {
            let c = first_at_least(ms, self.cursor, 0);
            EngineView { matches: ms, current_match: c as usize, cursor: ms[c], ..self }
        }
    }

    /// The state after a prompt is left: back to normal editing, prompt emptied.
    pub open spec fn prompt_closed(self) -> EngineView {
        EngineView { mode: Mode::Normal, prompt: Seq::empty(), ..self }
    }

    /// The prompt with its last character removed, if any.
    pub open spec fn prompt_popped(self) -> EngineView {
        EngineView {
            prompt: if self.prompt.len() > 0 {
                self.prompt.drop_last()
            } else {
                self.prompt
            },
            ..self
        }
    }

    /// What a key does while editing normally.
    pub open spec fn normal_step(self, k: KeyPress) -> (EngineView, Outcome) {
        if k.ctrl {
            match k.code {
                Key::Char(ch) => if ch == 'q' {
                    if self.dirty {
                        (EngineView { mode: Mode::QuitPrompt, ..self }, Outcome::Continue)
                    } else {
                        (self, Outcome::Quit)
                    }
                } else if ch == 's' {
                    (self, Outcome::Save)
                } else if ch == 'z' {
                    (self.undone(), Outcome::Continue)
                } else if ch == 'y' {
                    (self.redone(), Outcome::Continue)
                } else if ch == 'f' {
                    (
                        EngineView {
                            mode: Mode::Search,
                            prompt: Seq::empty(),
                            matches: Seq::empty(),
                            ..self
                        },
                        Outcome::Continue,
                    )
                } else if ch == 'g' {
                    (EngineView { mode: Mode::GoToLine, prompt: Seq::empty(), ..self }, Outcome::Continue)
                } else if ch == 'a' {
                    (
                        EngineView { selection: Some(0), cursor: self.text.len() as usize, ..self },
                        Outcome::Continue,
                    )
                } else if ch == 'c' {
                    match self.selected_text() {
                        Some(s) => (self, Outcome::Copy(s)),
                        None => (self, Outcome::Continue),
                    }
                } else if ch == 'v' {
                    (self, Outcome::Paste)
                } else if ch == 'x' {
                    match self.selected_text() {
                        Some(s) => (self.without_selection().0, Outcome::Copy(s)),
                        None => (self, Outcome::Continue),
                    }
                } else {
                    (self, Outcome::Continue)
                },
                _ => (self, Outcome::Continue),
            }
        } else {
            match k.code {
                Key::Left | Key::Right | Key::Up | Key::Down | Key::Home | Key::End => (
                    self.moved(k.code, k.shift),
                    Outcome::Continue,
                ),
                Key::Char(ch) => (self.typed(ch), Outcome::Continue),
                Key::Enter => (self.typed('\n'), Outcome::Continue),
                Key::Backspace => (self.backspaced(), Outcome::Continue),
                Key::Delete => (self.deleted_forward(), Outcome::Continue),
                _ => (self, Outcome::Continue),
            }
        }
    }

    /// What a key does while the search prompt is open.
    pub open spec fn search_step(self, k: KeyPress) -> (EngineView, Outcome) {
        match k.code {
            Key::Char(ch) => ((EngineView { prompt: self.prompt.push(ch), ..self }).searched(), Outcome::Continue),
            Key::Backspace => (self.prompt_popped().searched(), Outcome::Continue),
            Key::Enter => if self.matches.len() > 0 {
                let c = ((self.current_match + 1) % (self.matches.len() as int)) as usize;
                (EngineView { current_match: c, cursor: self.matches[c as int], ..self }, Outcome::Continue)
            } else {
                (self, Outcome::Continue)
            },
            Key::Esc => (EngineView { matches: Seq::empty(), ..self.prompt_closed() }, Outcome::Continue),
            _ => (self, Outcome::Continue),
        }
    }

    /// What a key does while the go-to-line prompt is open.
    pub open spec fn goto_step(self, k: KeyPress) -> (EngineView, Outcome) {
        match k.code {
            Key::Char(ch) => if is_digit(ch) {
                (EngineView { prompt: self.prompt.push(ch), ..self }, Outcome::Continue)
            } else {
                (self, Outcome::Continue)
            },
            Key::Backspace => (self.prompt_popped(), Outcome::Continue),
            Key::Enter => match parse_usize(self.prompt) {
                Some(n) => (
                    EngineView {
                        cursor: line_offset(self.text, (if n > 0 { n - 1 } else { 0 }) as nat) as usize,
                        ..self.prompt_closed()
                    },
                    Outcome::Continue,
                ),
                None => (self.prompt_closed(), Outcome::Continue),
            },
            Key::Esc => (self.prompt_closed(), Outcome::Continue),
            _ => (self, Outcome::Continue),
        }
    }

    /// What a key does while the save-as prompt is open.
    pub open spec fn save_prompt_step(self, k: KeyPress) -> (EngineView, Outcome) {
        match k.code {
            Key::Char(ch) => (EngineView { prompt: self.prompt.push(ch), ..self }, Outcome::Continue),
            Key::Backspace => (self.prompt_popped(), Outcome::Continue),
            Key::Enter => {
                let name = trimmed(self.prompt);
                if name.len() > 0 {
                    (EngineView { filepath: Some(name), ..self.prompt_closed() }, Outcome::Save)
                } else {
                    (self.prompt_closed(), Outcome::Continue)
                }
            },
            Key::Esc => (self.prompt_closed(), Outcome::Continue),
            _ => (self, Outcome::Continue),
        }
    }

    /// What a key does while the editor asks whether to save before quitting.
    pub open spec fn quit_prompt_step(self, k: KeyPress) -> (EngineView, Outcome) {
        match k.code {
            Key::Char(ch) => if ch == 'y' || ch == 'Y' {
                (self, Outcome::SaveAndQuit)
            } else if ch == 'n' || ch == 'N' {
                (self, Outcome::Quit)
            } else if ch == 'c' || ch == 'C' {
                (EngineView { mode: Mode::Normal, ..self }, Outcome::Continue)
            } else {
                (self, Outcome::Continue)
            },
            Key::Esc => (EngineView { mode: Mode::Normal, ..self }, Outcome::Continue),
            _ => (self, Outcome::Continue),
        }
    }

    /// What a key does, by mode.
    pub open spec fn step(self, k: KeyPress) -> (EngineView, Outcome) {
        match self.mode {
            Mode::Normal => self.normal_step(k),
            Mode::Search => self.search_step(k),
            Mode::GoToLine => self.goto_step(k),
            Mode::SavePrompt => self.save_prompt_step(k),
            Mode::QuitPrompt => self.quit_prompt_step(k),
        }
    }
}

/// An edit that fits the text is undone by its inverse, which fits the result.
pub proof fn lemma_edit_roundtrip(t: Seq<char>, a: Action)
    requires
        applies(t, a),
    ensures
        applies(apply_edit(t, a), a.inverse()),
        apply_edit(apply_edit(t, a), a.inverse()) == t,
{
    match a {
        Action::Insert(i, c) => {
            assert(t.insert(i as int, c).remove(i as int) =~= t);
        },
        Action::Delete(i, c) => {
            assert(t.remove(i as int).insert(i as int, c) =~= t);
        },
    }
}

/// An inverse that fits the text is undone by the edit itself.
pub proof fn lemma_inverse_roundtrip(t: Seq<char>, a: Action)
    requires
        applies(t, a.inverse()),
    ensures
        applies(apply_edit(t, a.inverse()), a),
        apply_edit(apply_edit(t, a.inverse()), a) == t,
{
    lemma_edit_roundtrip(t, a.inverse());
    assert(a.inverse().inverse() == a);
}

/// Recording an edit that fits keeps every recorded edit undoable.
pub proof fn lemma_record_undoable(t: Seq<char>, undo: Seq<Action>, a: Action)
    requires
        can_undo_all(t, undo),
        applies(t, a),
    ensures
        can_undo_all(apply_edit(t, a), undo.push(a)),
{
    lemma_edit_roundtrip(t, a);
    assert(undo.push(a).drop_last() =~= undo);
}

/// Deleting `[j, hi)` from the last character to the first, recording each
/// deletion, keeps every recorded edit undoable.
pub proof fn lemma_deletions_undoable(t: Seq<char>, undo: Seq<Action>, j: int, hi: int)
    requires
        can_undo_all(t, undo),
        0 <= j <= hi <= t.len(),
        t.len() <= usize::MAX,
    ensures
        can_undo_all(t.subrange(0, j) + t.subrange(hi, t.len() as int), undo + deletions(t, j, hi)),
    decreases hi - j,
{
    if j == hi {
        assert(t.subrange(0, j) + t.subrange(hi, t.len() as int) =~= t);
        assert(deletions(t, j, hi).len() == 0);
        assert(undo + deletions(t, j, hi) =~= undo);
    } else {
        lemma_deletions_undoable(t, undo, j + 1, hi);
        let before = t.subrange(0, j + 1) + t.subrange(hi, t.len() as int);
        let a = deletion_of(t, j);
        assert(before[j] == t[j]);
        assert(applies(before, a));
        lemma_record_undoable(before, undo + deletions(t, j + 1, hi), a);
        assert(apply_edit(before, a) =~= t.subrange(0, j) + t.subrange(hi, t.len() as int));
        assert(deletions(t, j, hi)[hi - 1 - j] == a);
        assert(deletions(t, j, hi).drop_last() =~= deletions(t, j + 1, hi));
        assert((undo + deletions(t, j + 1, hi)).push(a) =~= undo + deletions(t, j, hi));
    }
}

/// Inserting the first `k` characters of `p` one by one from `at` on, recording
/// each insertion, keeps every recorded edit undoable.
pub proof fn lemma_insertions_undoable(t: Seq<char>, undo: Seq<Action>, p: Seq<char>, at: int, k: int)
    requires
        can_undo_all(t, undo),
        0 <= at <= t.len(),
        0 <= k <= p.len(),
        at + p.len() <= usize::MAX,
    ensures
        can_undo_all(
            t.subrange(0, at) + p.take(k) + t.subrange(at, t.len() as int),
            undo + insertions(p, at).take(k),
        ),
    decreases k,
{
    if k == 0 {
        assert(t.subrange(0, at) + p.take(k) + t.subrange(at, t.len() as int) =~= t);
        assert(undo + insertions(p, at).take(k) =~= undo);
    } else {
        lemma_insertions_undoable(t, undo, p, at, k - 1);
        let before = t.subrange(0, at) + p.take(k - 1) + t.subrange(at, t.len() as int);
        let a = insertion_of(p[k - 1], at + k - 1);
        lemma_record_undoable(before, undo + insertions(p, at).take(k - 1), a);
        assert(apply_edit(before, a) =~= t.subrange(0, at) + p.take(k) + t.subrange(
            at,
            t.len() as int,
        ));
        assert(insertions(p, at).take(k)[k - 1] == a);
        assert(insertions(p, at).take(k).drop_last() =~= insertions(p, at).take(k - 1));
        assert((undo + insertions(p, at).take(k - 1)).push(a) =~= undo + insertions(p, at).take(k));
    }
}

/// `first_at_least` names an index of a non-empty sequence.
pub proof fn lemma_first_at_least(s: Seq<usize>, x: usize, k: int)
    requires
        0 <= k,
        s.len() > 0,
    ensures
        0 <= first_at_least(s, x, k) < s.len(),
    decreases s.len() - k,
{
    if k < s.len() && s[k] < x {
        lemma_first_at_least(s, x, k + 1);
    }
}

/// Every search result lies inside the text.
pub proof fn lemma_search_results_in_text(t: Seq<char>, q: Seq<char>)
    requires
        t.len() <= usize::MAX,
    ensures
        forall|k: int| 0 <= k < search_results(t, q).len() ==> #[trigger] search_results(t, q)[k] <= t.len(),
{
    if q.len() > 0 {
        lemma_occurrences(t, q, 0);
    }
}

/// The place a vertical move lands on lies inside the text.
pub proof fn lemma_vertical_target(t: Seq<char>, cursor: usize, dir: int)
    ensures
        vertical_target(t, cursor, dir) <= t.len(),
{
    let (line, col) = line_col(t, cursor as int);
    let target = if dir < 0 {
        if line + dir > 0 {
            line + dir
        } else {
            0
        }
    } else {
        if line + dir < usize::MAX {
            line + dir
        } else {
            usize::MAX as int
        }
    };
    lemma_line_offset_exists(t, target as nat);
    lemma_line_end(t, line_offset(t, target as nat));
}

impl EngineView {
    /// Room to insert a character without the length reaching `usize::MAX`.
    pub open spec fn has_room(self, extra: nat) -> bool {
        self.text.len() + extra + 2 <= usize::MAX
    }

    pub proof fn lemma_without_selection(self)
        requires
            self.wf(),
            self.matches.len() == 0,
        ensures
            self.without_selection().0.wf(),
            self.without_selection().0.text.len() <= self.text.len(),
            self.without_selection().0.mode == self.mode,
            self.without_selection().0.matches == self.matches,
            self.without_selection().0.selection.is_none(),
    {
        match self.selection {
            Some(start) => {
                let lo = min_of(start, self.cursor);
                let hi0 = max_of(start, self.cursor);
                if lo != hi0 {
                    let hi: int = if hi0 < self.text.len() {
                        hi0 as int
                    } else {
                        self.text.len() as int
                    };
                    if lo < hi {
                        lemma_deletions_undoable(self.text, self.history.undo, lo as int, hi);
                    } else {
                        assert(self.text.subrange(0, lo as int) + self.text.subrange(
                            hi,
                            self.text.len() as int,
                        ) =~= self.text);
                    }
                }
            },
            None => {},
        }
    }

    pub proof fn lemma_typed(self, c: char)
        requires
            self.wf(),
            self.matches.len() == 0,
            self.has_room(0),
        ensures
            self.typed(c).wf(),
    {
        self.lemma_without_selection();
        let m = self.without_selection().0;
        lemma_record_undoable(m.text, m.history.undo, Action::Insert(m.cursor, c));
    }

    pub proof fn lemma_backspaced(self)
        requires
            self.wf(),
            self.matches.len() == 0,
        ensures
            self.backspaced().wf(),
    {
        self.lemma_without_selection();
        let m = self.without_selection().0;
        if !self.without_selection().1 && m.cursor > 0 {
            let i = (m.cursor - 1) as usize;
            lemma_record_undoable(m.text, m.history.undo, deletion_of(m.text, i as int));
        }
    }

    pub proof fn lemma_deleted_forward(self)
        requires
            self.wf(),
            self.matches.len() == 0,
        ensures
            self.deleted_forward().wf(),
    {
        self.lemma_without_selection();
        let m = self.without_selection().0;
        if m.cursor < m.text.len() {
            lemma_record_undoable(m.text, m.history.undo, deletion_of(m.text, m.cursor as int));
        }
    }

    pub proof fn lemma_pasted(self, p: Seq<char>)
        requires
            self.wf(),
            self.matches.len() == 0,
            self.has_room(p.len()),
        ensures
            self.pasted(p).wf(),
    {
        self.lemma_without_selection();
        let m = self.without_selection().0;
        lemma_insertions_undoable(m.text, m.history.undo, p, m.cursor as int, p.len() as int);
        assert(p.take(p.len() as int) =~= p);
        assert(insertions(p, m.cursor as int).take(p.len() as int) =~= insertions(p, m.cursor as int));
        if p.len() == 0 {
            assert(m.text.subrange(0, m.cursor as int) + p + m.text.subrange(
                m.cursor as int,
                m.text.len() as int,
            ) =~= m.text);
        }
    }

    pub proof fn lemma_undone(self)
        requires
            self.wf(),
            self.matches.len() == 0,
            self.has_room(0),
        ensures
            self.undone().wf(),
    {
        let (h, r) = self.history.undone();
        if let Some(a) = r {
            let last = self.history.undo.last();
            lemma_inverse_roundtrip(self.text, last);
            assert(self.history.redo.push(last).drop_last() =~= self.history.redo);
        }
    }

    pub proof fn lemma_redone(self)
        requires
            self.wf(),
            self.matches.len() == 0,
            self.has_room(0),
        ensures
            self.redone().wf(),
    {
        let (h, r) = self.history.redone();
        if let Some(a) = r {
            lemma_record_undoable(self.text, self.history.undo, a);
        }
    }

    pub proof fn lemma_moved(self, code: Key, shift: bool)
        requires
            self.wf(),
        ensures
            self.moved(code, shift).wf(),
    {
        match code {
            Key::Up => lemma_vertical_target(self.text, self.cursor, -1),
            Key::Down => lemma_vertical_target(self.text, self.cursor, 1),
            Key::Home => lemma_line_begin(self.text, self.cursor as int),
            Key::End => lemma_line_end(self.text, self.cursor as int),
            _ => {},
        }
    }

    pub proof fn lemma_searched(self)
        requires
            self.wf(),
            self.mode == Mode::Search,
        ensures
            self.searched().wf(),
    {
        let ms = search_results(self.text, self.prompt);
        lemma_search_results_in_text(self.text, self.prompt);
        if self.prompt.len() > 0 && ms.len() > 0 {
            lemma_first_at_least(ms, self.cursor, 0);
        }
    }
}

/// Law: every key press keeps the editor's invariant: the cursor stays in the
/// text, every recorded edit stays undoable and redoable, and search results stay
/// in the text.
pub proof fn law_step_keeps_invariant(m: EngineView, k: KeyPress)
    requires
        m.wf(),
        m.has_room(0),
    ensures
        m.step(k).0.wf(),
{
    match m.mode {
        Mode::Normal => {
            if k.ctrl {
                match k.code {
                    Key::Char(ch) => {
                        if ch == 'z' {
                            m.lemma_undone();
                        } else if ch == 'y' {
                            m.lemma_redone();
                        } else if ch == 'x' {
                            m.lemma_without_selection();
                        }
                    },
                    _ => {},
                }
            } else {
                match k.code {
                    Key::Left | Key::Right | Key::Up | Key::Down | Key::Home | Key::End => m.lemma_moved(
                        k.code,
                        k.shift,
                    ),
                    Key::Char(ch) => m.lemma_typed(ch),
                    Key::Enter => m.lemma_typed('\n'),
                    Key::Backspace => m.lemma_backspaced(),
                    Key::Delete => m.lemma_deleted_forward(),
                    _ => {},
                }
            }
        },
        Mode::Search => {
            match k.code {
                Key::Char(ch) => (EngineView { prompt: m.prompt.push(ch), ..m }).lemma_searched(),
                Key::Backspace => m.prompt_popped().lemma_searched(),
                _ => {},
            }
        },
        Mode::GoToLine => {
            if let Key::Enter = k.code {
                if let Some(n) = parse_usize(m.prompt) {
                    lemma_line_offset_exists(m.text, (if n > 0 { n - 1 } else { 0 }) as nat);
                }
            }
        },
        _ => {},
    }
}

/// Law: in normal editing with no selection, a key that edits the text (a
/// character, Enter, Backspace or Delete) is undone by Ctrl+Z: the text is back
/// to what it was.
pub proof fn law_undo_reverses_edit(m: EngineView, k: KeyPress, z: KeyPress)
    requires
        m.wf(),
        m.has_room(0),
        m.mode == Mode::Normal,
        m.selection.is_none(),
        !k.ctrl,
        k.code is Char || k.code is Enter || k.code is Backspace || k.code is Delete,
        m.step(k).0.text != m.text,
        z.ctrl,
        z.code == Key::Char('z'),
    ensures
        m.step(k).0.step(z).0.text == m.text,
{
    assert(m.without_selection() == (m, false));
    match k.code {
        Key::Char(c) => lemma_edit_roundtrip(m.text, Action::Insert(m.cursor, c)),
        Key::Enter => lemma_edit_roundtrip(m.text, Action::Insert(m.cursor, '\n')),
        Key::Backspace => lemma_edit_roundtrip(m.text, deletion_of(m.text, m.cursor - 1)),
        Key::Delete => lemma_edit_roundtrip(m.text, deletion_of(m.text, m.cursor as int)),
        _ => {},
    }
}

/// Law: in normal editing, Ctrl+Z followed by Ctrl+Y gives back the text and the
/// whole history, whenever there is something to undo.
pub proof fn law_redo_after_undo(m: EngineView, z: KeyPress, y: KeyPress)
    requires
        m.wf(),
        m.mode == Mode::Normal,
        m.history.undo.len() > 0,
        z.ctrl,
        z.code == Key::Char('z'),
        y.ctrl,
        y.code == Key::Char('y'),
    ensures
        m.step(z).0.step(y).0.text == m.text,
        m.step(z).0.step(y).0.history == m.history,
{
    let last = m.history.undo.last();
    lemma_inverse_roundtrip(m.text, last);
    crate::history::law_redo_after_undo(m.history);
}

/// Law: in normal editing, Ctrl+Y followed by Ctrl+Z gives back the text and the
/// whole history, whenever there is something to redo.
pub proof fn law_undo_after_redo(m: EngineView, y: KeyPress, z: KeyPress)
    requires
        m.wf(),
        m.mode == Mode::Normal,
        m.history.redo.len() > 0,
        z.ctrl,
        z.code == Key::Char('z'),
        y.ctrl,
        y.code == Key::Char('y'),
    ensures
        m.step(y).0.step(z).0.text == m.text,
        m.step(y).0.step(z).0.history == m.history,
{
    let last = m.history.redo.last();
    lemma_edit_roundtrip(m.text, last);
    crate::history::law_undo_after_redo(m.history);
}

/// A longer run of digits writes at least as large a number.
pub proof fn lemma_digits_value_prefix(d: Seq<char>, k: int, n: int)
    requires
        0 <= k <= n <= d.len(),
    ensures
        digits_value(d.take(k)) <= digits_value(d.take(n)),
    decreases n - k,
{
    if k < n {
        lemma_digits_value_prefix(d, k, n - 1);
        assert(d.take(n).drop_last() =~= d.take(n - 1));
    }
}

/// Law: while a prompt is open (search, go to line, save as, quit), no key
/// changes the text or its history.
pub proof fn law_prompt_keys_keep_text(m: EngineView, k: KeyPress)
    requires
        m.mode != Mode::Normal,
    ensures
        m.step(k).0.text == m.text,
        m.step(k).0.history == m.history,
{
}

/// There are no more occurrences from `i` on than positions from `i` on.
pub proof fn lemma_occurrences_len(t: Seq<char>, q: Seq<char>, i: int)
    requires
        0 <= i,
    ensures
        occurrences_from(t, q, i).len() <= if i < t.len() {
            t.len() - i
        } else {
            0
        },
    decreases t.len() - i,
{
    if !(i >= t.len() || i + q.len() > t.len()) {
        lemma_occurrences_len(t, q, i + 1);
    }
}

/// What `first_at_least` picks: every earlier entry is below `x`, and the entry
/// picked is at least `x` unless no entry is (then it is the first).
pub proof fn lemma_first_at_least_props(s: Seq<usize>, x: usize, k: int)
    requires
        0 <= k <= s.len(),
        s.len() > 0,
        forall|j: int| 0 <= j < k ==> s[j] < x,
    ensures
        0 <= first_at_least(s, x, k) < s.len(),
        forall|j: int| 0 <= j < first_at_least(s, x, k) ==> s[j] < x,
        s[first_at_least(s, x, k)] >= x || (first_at_least(s, x, k) == 0 && forall|j: int|
            0 <= j < s.len() ==> s[j] < x),
    decreases s.len() - k,
{
    if k < s.len() && s[k] < x {
        lemma_first_at_least_props(s, x, k + 1);
    }
}

/// Law: with a selection of at least one position, Backspace and Delete both
/// remove exactly the selected characters (the part of the selection inside the
/// text), put the cursor where the selection began, and end the selection;
/// nothing else is removed.
pub proof fn law_delete_keys_remove_exactly_the_selection(m: EngineView, k: KeyPress)
    requires
        m.wf(),
        m.mode == Mode::Normal,
        !k.ctrl,
        k.code == Key::Delete || k.code == Key::Backspace,
        m.selection is Some,
        m.selection->0 != m.cursor,
    ensures
        ({
            let start = m.selection->0;
            let lo = if start < m.cursor {
                start
            } else {
                m.cursor
            };
            let hi = if start < m.cursor {
                m.cursor
            } else {
                start
            };
            let end: int = if hi < m.text.len() {
                hi as int
            } else {
                m.text.len() as int
            };
            &&& m.step(k).0.text == m.text.subrange(0, lo as int) + m.text.subrange(
                end,
                m.text.len() as int,
            )
            &&& m.step(k).0.text.len() == m.text.len() - (end - lo)
            &&& m.step(k).0.cursor == lo
            &&& m.step(k).0.selection.is_none()
        }),
{
}

/// Law: Ctrl+C and Ctrl+X with a selection of at least one position hand the
/// clipboard exactly the selected characters (the part of the selection inside
/// the text), as many as are selected. Ctrl+C changes nothing; after Ctrl+X the
/// old text is the new text with the handed characters put back where the
/// selection began.
pub proof fn law_copy_and_cut_hand_over_the_selection(m: EngineView, k: KeyPress)
    requires
        m.wf(),
        m.mode == Mode::Normal,
        k.ctrl,
        k.code == Key::Char('c') || k.code == Key::Char('x'),
        m.selection is Some,
        m.selection->0 != m.cursor,
    ensures
        ({
            let start = m.selection->0;
            let lo = if start < m.cursor {
                start
            } else {
                m.cursor
            };
            let hi = if start < m.cursor {
                m.cursor
            } else {
                start
            };
            let end: int = if hi < m.text.len() {
                hi as int
            } else {
                m.text.len() as int
            };
            let after = m.step(k).0;
            &&& m.step(k).1 matches Outcome::Copy(s) && s == m.text.subrange(lo as int, end) && s.len()
                == end - lo
            &&& k.code == Key::Char('c') ==> after == m
            &&& k.code == Key::Char('x') ==> (m.step(k).1 matches Outcome::Copy(s) && m.text
                == after.text.subrange(0, lo as int) + s + after.text.subrange(
                lo as int,
                after.text.len() as int,
            ))
        }),
{
    let start = m.selection->0;
    let lo = if start < m.cursor {
        start
    } else {
        m.cursor
    };
    let hi = if start < m.cursor {
        m.cursor
    } else {
        start
    };
    let end: int = if hi < m.text.len() {
        hi as int
    } else {
        m.text.len() as int
    };
    assert(range_text(m.text, lo as int, hi as int) =~= m.text.subrange(lo as int, end));
    if k.code == Key::Char('x') {
        let after = m.step(k).0;
        let s = m.text.subrange(lo as int, end);
        assert(after.text =~= m.text.subrange(0, lo as int) + m.text.subrange(end, m.text.len() as int));
        assert(after.text.subrange(0, lo as int) =~= m.text.subrange(0, lo as int));
        assert(after.text.subrange(lo as int, after.text.len() as int) =~= m.text.subrange(
            end,
            m.text.len() as int,
        ));
        assert(m.text =~= after.text.subrange(0, lo as int) + s + after.text.subrange(
            lo as int,
            after.text.len() as int,
        ));
    }
}

/// Law: in the search prompt, a character or Backspace edits the prompt, and when
/// the new prompt is not empty and occurs in the text, the kept matches are every
/// position where it occurs, in increasing order, and the cursor goes to the first
/// match at or after it (to the first match when there is none).
pub proof fn law_search_edits_find_every_match(m: EngineView, k: KeyPress)
    requires
        m.wf(),
        m.mode == Mode::Search,
        k.code is Char || k.code is Backspace,
    ensures
        ({
            let after = m.step(k).0;
            let p = after.prompt;
            let t = m.text;
            let ms = after.matches;
            &&& p == match k.code {
                Key::Char(c) => m.prompt.push(c),
                _ => if m.prompt.len() > 0 {
                    m.prompt.drop_last()
                } else {
                    m.prompt
                },
            }
            &&& after.text == t
            &&& (p.len() > 0 && exists|i: int| occurs_at(t, p, i)) ==> {
                &&& forall|j: int| 0 <= j < ms.len() ==> occurs_at(t, p, #[trigger] ms[j] as int)
                &&& forall|j1: int, j2: int|
                    0 <= j1 < j2 < ms.len() ==> #[trigger] ms[j1] < #[trigger] ms[j2]
                &&& forall|i: int| #[trigger] occurs_at(t, p, i) ==> ms.contains(i as usize)
                &&& after.current_match < ms.len()
                &&& after.cursor == ms[after.current_match as int]
                &&& forall|j: int| 0 <= j < after.current_match ==> #[trigger] ms[j] < m.cursor
                &&& (after.cursor >= m.cursor || (after.current_match == 0 && forall|j: int|
                    0 <= j < ms.len() ==> #[trigger] ms[j] < m.cursor))
            }
        }),
{
    let m1 = match k.code {
        Key::Char(c) => EngineView { prompt: m.prompt.push(c), ..m },
        _ => m.prompt_popped(),
    };
    let p = m1.prompt;
    let t = m.text;
    if p.len() > 0 && exists|i: int| occurs_at(t, p, i) {
        let i = choose|i: int| occurs_at(t, p, i);
        lemma_occurrences(t, p, 0);
        let ms = search_results(t, p);
        assert(ms.contains(i as usize));
        assert(ms.len() > 0);
        lemma_first_at_least_props(ms, m.cursor, 0);
        lemma_occurrences_len(t, p, 0);
        assert(m.step(k).0 == m1.searched());
        let after = m.step(k).0;
        assert(after.matches == ms);
        let c = first_at_least(ms, m.cursor, 0);
        assert(after.current_match == c as usize);
        assert(after.cursor == ms[c]);
    } else {
        assert(m.step(k).0 == m1.searched());
    }
}

/// Law: in the quit prompt, `n` or `N` quits and `y` or `Y` saves and quits,
/// whatever the state, which those keys leave as it is.
pub proof fn law_quit_prompt_answers(m: EngineView, k: KeyPress)
    requires
        m.mode == Mode::QuitPrompt,
    ensures
        (k.code == Key::Char('n') || k.code == Key::Char('N')) ==> m.step(k).0 == m && m.step(
            k,
        ).1 == Outcome::Quit,
        (k.code == Key::Char('y') || k.code == Key::Char('Y')) ==> m.step(k).0 == m && m.step(
            k,
        ).1 == Outcome::SaveAndQuit,
{
}

/// Law: a single digit reads as its value, the empty prompt reads as nothing, and
/// appending a digit to a number that reads as `v` reads as `10 * v` plus that
/// digit, or as nothing when that does not fit in a `usize`.
pub proof fn law_parse_appends_digit(d: Seq<char>, c: char)
    requires
        is_digit(c),
    ensures
        parse_usize(Seq::empty()).is_none(),
        parse_usize(seq![c]) == Some((c as int - '0' as int) as usize),
        parse_usize(d) matches Some(v) ==> parse_usize(d.push(c)) == if 10 * v + (c as int
            - '0' as int) <= usize::MAX {
            Some((10 * v + (c as int - '0' as int)) as usize)
        } else {
            None
        },
{
    let one = seq![c];
    assert(without_plus(one) == one);
    assert(one.drop_last() =~= Seq::<char>::empty());
    assert(one.last() == c);
    assert(digits_value(one.drop_last()) == 0);
    assert(c as int >= '0' as int);
    assert(digits_value(one) == (c as int - '0' as int));
    if let Some(v) = parse_usize(d) {
        let w = without_plus(d);
        let wc = without_plus(d.push(c));
        if d[0] == '+' {
            assert(wc =~= w.push(c));
        } else {
            assert(wc =~= w.push(c));
        }
        assert(wc.drop_last() =~= w);
        assert(all_digits(wc));
        assert(digits_value(wc) == digits_value(w) * 10 + (c as int - '0' as int));
    }
}

/// Law: Enter in the go-to-line prompt goes back to normal editing and, when
/// the prompt reads as a line number `n` (counting from 1; 0 counts as 1), puts
/// the cursor where line `n` begins, or at the end of a text with fewer lines;
/// otherwise the cursor stays.
pub proof fn law_goto_enter(m: EngineView, k: KeyPress)
    requires
        m.wf(),
        m.mode == Mode::GoToLine,
        k.code == Key::Enter,
    ensures
        m.step(k).0.mode == Mode::Normal,
        m.step(k).0.prompt.len() == 0,
        m.step(k).0.text == m.text,
        parse_usize(m.prompt) matches Some(n) ==> is_line_offset(
            m.text,
            (if n > 0 { n - 1 } else { 0 }) as nat,
            m.step(k).0.cursor as int,
        ),
        parse_usize(m.prompt) is None ==> m.step(k).0.cursor == m.cursor,
{
    if let Some(n) = parse_usize(m.prompt) {
        lemma_line_offset_exists(m.text, (if n > 0 { n - 1 } else { 0 }) as nat);
    }
}

} // verus!
