//! A gap buffer of characters: the text is the storage with the gap cut out, and
//! edits at the gap cost constant time.
use vstd::prelude::*;

use crate::strings::{chars_of, push_char};
use crate::text::{
    is_line_offset, lemma_line_begin, lemma_line_end, lemma_line_offset_is, lemma_newlines_all,
    lemma_newlines_step, lemma_newlines_zero, lemma_occurrences, line_begin, line_col, line_end,
    line_offset, newlines, newlines_before, occurrences_from, occurs_at, pos_at_line_col,
    search_results,
};

verus! {

/// Size of the gap that a new buffer starts with, and that a full gap grows to.
pub const GAP_SIZE: usize = 1024;

/// A text held as `data[..gap_start] ++ data[gap_end..]`; the cells in
/// `data[gap_start..gap_end]` are free room for insertions.
pub struct GapBuffer {
    data: Vec<char>,
    gap_start: usize,
    gap_end: usize,
}

impl View for GapBuffer {
    type V = Seq<char>;

    open spec fn view(&self) -> Seq<char> {
        self.text()
    }
}

impl GapBuffer {
    /// The gap lies inside the storage, and the text is shorter than `usize::MAX`.
    pub closed spec fn wf(&self) -> bool {
        &&& self.gap_start <= self.gap_end <= self.data@.len() <= usize::MAX
        &&& self.data@.len() - self.gap_len() < usize::MAX
    }

    spec fn gap_len(&self) -> int {
        self.gap_end - self.gap_start
    }

    /// Where position `i` of the text is stored.
    spec fn raw(&self, i: int) -> int {
        if i < self.gap_start {
            i
        } else {
            i + self.gap_len()
        }
    }

    /// The text the buffer holds.
    pub closed spec fn text(&self) -> Seq<char> {
        Seq::new((self.data@.len() - self.gap_len()) as nat, |i: int| self.data@[self.raw(i)])
    }

    /// Number of free cells in the gap.
    pub closed spec fn room(&self) -> nat {
        self.gap_len() as nat
    }

    /// An empty buffer with a gap of `GAP_SIZE` cells.
    pub fn new() -> (r: Self)
        ensures
            r.wf(),
            r@ == Seq::<char>::empty(),
            r.room() == GAP_SIZE,
    {
        let r = GapBuffer { data: vec!['\0'; GAP_SIZE], gap_start: 0, gap_end: GAP_SIZE };
        assert(r@ =~= Seq::<char>::empty());
        r
    }

    /// A buffer that holds the characters of `content`, followed by a gap of
    /// `GAP_SIZE` cells.
    pub fn from_string(content: &str) -> (r: Self)
        requires
            content@.len() + GAP_SIZE <= usize::MAX,
        ensures
            r.wf(),
            r@ == content@,
            r.room() == GAP_SIZE,
    {
        let mut data = chars_of(content);
        let len = data.len();
        let mut k: usize = 0;
        while k < GAP_SIZE
            invariant
                len == content@.len(),
                k <= GAP_SIZE,
                data@.len() == len + k,
                data@.take(len as int) == content@,
            decreases GAP_SIZE - k,
        {
            proof {
                assert(data@.push('\0').take(len as int) =~= data@.take(len as int));
            }
            data.push('\0');
            k += 1;
        }
        let r = GapBuffer { data, gap_start: len, gap_end: len + GAP_SIZE };
        assert(r@ =~= content@) by {
            assert forall|i: int| 0 <= i < len implies r@[i] == content@[i] by {
                assert(data@.take(len as int)[i] == data@[i]);
            }
        }
        r
    }

    /// Number of characters in the text.
    pub fn len(&self) -> (n: usize)
        requires
            self.wf(),
        ensures
            n == self@.len(),
    {
        self.data.len() - (self.gap_end - self.gap_start)
    }

    /// The text as a `String`.
    pub fn to_string(&self) -> (s: String)
        requires
            self.wf(),
        ensures
            s@ == self@,
    {
        let mut s = String::new();
        let mut i: usize = 0;
        while i < self.gap_start
            invariant
                self.wf(),
                i <= self.gap_start,
                s@ == self@.take(i as int),
            decreases self.gap_start - i,
        {
            proof {
                assert(self@.take(i + 1) =~= self@.take(i as int).push(self@[i as int]));
            }
            push_char(&mut s, self.data[i]);
            i += 1;
        }
        let mut j: usize = self.gap_end;
        while j < self.data.len()
            invariant
                self.wf(),
                self.gap_end <= j <= self.data@.len(),
                s@ == self@.take(self.gap_start + (j - self.gap_end)),
            decreases self.data@.len() - j,
        {
            proof {
                let p = self.gap_start + (j - self.gap_end);
                assert(self@[p] == self.data@[j as int]);
                assert(self@.take(p + 1) =~= self@.take(p).push(self@[p]));
            }
            push_char(&mut s, self.data[j]);
            j += 1;
        }
        assert(s@ =~= self@);
        s
    }

    /// Inserts `c` at position `idx`, growing the gap first when it is full.
    pub fn insert(&mut self, idx: usize, c: char)
        requires
            old(self).wf(),
            idx <= old(self)@.len(),
            old(self)@.len() + GAP_SIZE <= usize::MAX,
        ensures
            final(self).wf(),
            final(self)@ == old(self)@.insert(idx as int, c),
    {
        if self.gap_start == self.gap_end {
            self.grow();
        }
        self.move_gap(idx);
        let ghost before = self@;
        let gs = self.gap_start;
        self.data.set(gs, c);
        self.gap_start = gs + 1;
        assert(self@ =~= before.insert(idx as int, c));
    }

    /// Removes and returns the character at position `idx`; `None`, and no change,
    /// when `idx` is past the end.
    pub fn delete(&mut self, idx: usize) -> (r: Option<char>)
        requires
            old(self).wf(),
        ensures
            final(self).wf(),
            idx < old(self)@.len() ==> r == Some(old(self)@[idx as int]) && final(self)@ == old(
                self,
            )@.remove(idx as int),
            idx >= old(self)@.len() ==> r.is_none() && final(self)@ == old(self)@,
    {
        if idx >= self.len() {
            return None;
        }
        self.move_gap(idx);
        let ghost before = self@;
        let c = self.data[self.gap_end];
        assert(c == before[idx as int]);
        self.gap_end = self.gap_end + 1;
        assert(self@ =~= before.remove(idx as int));
        Some(c)
    }

    /// The characters from position `start` up to, not including, `end`; `end` is
    /// cut down to the length of the text.
    pub fn get_range_string(&self, start: usize, end: usize) -> (s: String)
        requires
            self.wf(),
        ensures
            s@ == (if start < end && start < self@.len() {
                self@.subrange(start as int, if end < self@.len() { end as int } else { self@.len() as int })
            } else {
                Seq::<char>::empty()
            }),
    {
        let mut s = String::new();
        let len = self.len();
        let limit = if end < len {
            end
        } else {
            len
        };
        if start < limit {
            let mut i = start;
            while i < limit
                invariant
                    self.wf(),
                    limit <= self@.len(),
                    start <= i <= limit,
                    s@ == self@.subrange(start as int, i as int),
                decreases limit - i,
            {
                let ch = self.get_char(i);
                proof {
                    assert(self@.subrange(start as int, i + 1) =~= self@.subrange(
                        start as int,
                        i as int,
                    ).push(ch));
                }
                push_char(&mut s, ch);
                i += 1;
            }
        }
        s
    }

    /// The start of the line that holds position `idx`.
    pub fn line_start_idx(&self, idx: usize) -> (r: usize)
        requires
            self.wf(),
            idx <= self@.len(),
        ensures
            r == line_begin(self@, idx as int),
    {
        let mut i = idx;
        while i > 0 && self.get_char(i - 1) != '\n'
            invariant
                self.wf(),
                i <= idx <= self@.len(),
                line_begin(self@, i as int) == line_begin(self@, idx as int),
            decreases i,
        {
            i -= 1;
        }
        i
    }

    /// The end of the line that holds position `idx`: the next line break at or
    /// after `idx`, or the end of the text (`idx` itself when it is past the end).
    pub fn line_end_idx(&self, idx: usize) -> (r: usize)
        requires
            self.wf(),
        ensures
            r == line_end(self@, idx as int),
    {
        let mut i = idx;
        let len = self.len();
        while i < len && self.get_char(i) != '\n'
            invariant
                self.wf(),
                len == self@.len(),
                idx <= i,
                i <= len || i == idx,
                line_end(self@, i as int) == line_end(self@, idx as int),
            decreases len - i,
        {
            i += 1;
        }
        i
    }

    /// Scans from the start of the text to where line `target` (counting from 0)
    /// begins, or to the end of the text when it has no such line.
    fn offset_of_line(&self, target: usize) -> (r: usize)
        requires
            self.wf(),
        ensures
            is_line_offset(self@, target as nat, r as int),
            r == line_offset(self@, target as nat),
    {
        let mut current_line: usize = 0;
        let mut idx: usize = 0;
        let len = self.len();
        proof {
            lemma_newlines_zero(self@);
        }
        while idx < len && current_line < target
            invariant
                self.wf(),
                len == self@.len(),
                idx <= len,
                current_line <= target,
                current_line == newlines_before(self@, idx as int),
                forall|k: int| 0 <= k < idx ==> #[trigger] newlines_before(self@, k) < target,
            decreases len - idx,
        {
            proof {
                lemma_newlines_step(self@, idx as int);
            }
            if self.get_char(idx) == '\n' {
                current_line += 1;
            }
            idx += 1;
        }
        proof {
            assert(is_line_offset(self@, target as nat, idx as int));
            lemma_line_offset_is(self@, target as nat, idx as int);
        }
        idx
    }

    /// Where line `line_num` begins, counting lines from 1 (0 counts as 1); the end
    /// of the text when it has fewer lines.
    pub fn idx_at_line(&self, line_num: usize) -> (r: usize)
        requires
            self.wf(),
        ensures
            r == line_offset(self@, (if line_num > 0 { line_num - 1 } else { 0 }) as nat),
    {
        let target_line = line_num.saturating_sub(1);
        self.offset_of_line(target_line)
    }

    /// Line and column, both counting from 0, of position `idx`; a position past
    /// the end counts as the end.
    pub fn line_col_at_idx(&self, idx: usize) -> (r: (usize, usize))
        requires
            self.wf(),
        ensures
            (r.0 as nat, r.1 as nat) == line_col(self@, idx as int),
    {
        let mut line: usize = 0;
        let mut col: usize = 0;
        let len = self.len();
        let m = if idx < len {
            idx
        } else {
            len
        };
        proof {
            lemma_newlines_zero(self@);
        }
        let mut i: usize = 0;
        while i < m
            invariant
                self.wf(),
                m <= self@.len(),
                i <= m,
                line == newlines_before(self@, i as int),
                col == i - line_begin(self@, i as int),
                line <= i,
                col <= i,
            decreases m - i,
        {
            proof {
                lemma_newlines_step(self@, i as int);
                lemma_line_begin(self@, i as int);
            }
            if self.get_char(i) == '\n' {
                line += 1;
                col = 0;
            } else {
                col += 1;
            }
            i += 1;
        }
        (line, col)
    }

    /// The position reached from the start of line `line` (counting from 0) by
    /// moving right `col` times without passing the end of that line.
    pub fn idx_at_line_col(&self, line: usize, col: usize) -> (r: usize)
        requires
            self.wf(),
        ensures
            r == pos_at_line_col(self@, line as nat, col as nat),
    {
        let start = self.offset_of_line(line);
        let len = self.len();
        let mut idx = start;
        let mut current_col: usize = 0;
        proof {
            lemma_line_end(self@, start as int);
        }
        while idx < len && current_col < col && self.get_char(idx) != '\n'
            invariant
                self.wf(),
                len == self@.len(),
                start == line_offset(self@, line as nat),
                start <= idx <= len,
                idx == start + current_col,
                current_col <= col,
                line_end(self@, idx as int) == line_end(self@, start as int),
                idx <= line_end(self@, start as int),
            decreases len - idx,
        {
            proof {
                lemma_line_end(self@, idx + 1);
            }
            current_col += 1;
            idx += 1;
        }
        proof {
            lemma_line_end(self@, idx as int);
        }
        idx
    }

    /// Number of lines: one more than the number of line breaks.
    pub fn total_lines(&self) -> (n: usize)
        requires
            self.wf(),
        ensures
            n == newlines(self@) + 1,
    {
        let mut count: usize = 1;
        let len = self.len();
        let mut i: usize = 0;
        proof {
            lemma_newlines_zero(self@);
        }
        while i < len
            invariant
                self.wf(),
                len == self@.len(),
                i <= len,
                count == newlines_before(self@, i as int) + 1,
                count <= i + 1,
            decreases len - i,
        {
            proof {
                lemma_newlines_step(self@, i as int);
            }
            if self.get_char(i) == '\n' {
                count += 1;
            }
            i += 1;
        }
        proof {
            lemma_newlines_all(self@);
        }
        count
    }

    /// The characters of line `line_idx` (counting from 0), without its line break;
    /// empty when the text has no such line.
    pub fn get_line_string(&self, line_idx: usize) -> (s: String)
        requires
            self.wf(),
        ensures
            s@ == self@.subrange(
                line_offset(self@, line_idx as nat),
                line_end(self@, line_offset(self@, line_idx as nat)),
            ),
    {
        let start = self.offset_of_line(line_idx);
        let len = self.len();
        let mut idx = start;
        let mut line_str = String::new();
        proof {
            lemma_line_end(self@, start as int);
        }
        while idx < len && self.get_char(idx) != '\n'
            invariant
                self.wf(),
                len == self@.len(),
                start <= idx <= len,
                line_end(self@, idx as int) == line_end(self@, start as int),
                line_str@ == self@.subrange(start as int, idx as int),
            decreases len - idx,
        {
            let c = self.get_char(idx);
            proof {
                assert(self@.subrange(start as int, idx + 1) =~= self@.subrange(start as int, idx as int).push(c));
            }
            push_char(&mut line_str, c);
            idx += 1;
        }
        line_str
    }

    /// Whether `q` occurs at position `i` of the text.
    fn matches_at(&self, q: &Vec<char>, i: usize) -> (r: bool)
        requires
            self.wf(),
            i + q@.len() <= self@.len(),
        ensures
            r == occurs_at(self@, q@, i as int),
    {
        let mut j: usize = 0;
        while j < q.len()
            invariant
                self.wf(),
                i + q@.len() <= self@.len(),
                j <= q@.len(),
                forall|k: int| 0 <= k < j ==> self@[i + k] == q@[k],
            decreases q@.len() - j,
        {
            if self.get_char(i + j) != q[j] {
                assert(self@.subrange(i as int, i + q@.len())[j as int] != q@[j as int]);
                return false;
            }
            j += 1;
        }
        assert(self@.subrange(i as int, i + q@.len()) =~= q@);
        true
    }

    /// Every position where `query` occurs, in increasing order; nothing for an
    /// empty query.
    pub fn search_all(&self, query: &str) -> (matches: Vec<usize>)
        requires
            self.wf(),
        ensures
            matches@ == search_results(self@, query@),
            forall|k: int| 0 <= k < matches@.len() ==> occurs_at(self@, query@, #[trigger] matches@[k] as int),
            forall|k1: int, k2: int| 0 <= k1 < k2 < matches@.len() ==> #[trigger] matches@[k1] < #[trigger] matches@[k2],
            query@.len() > 0 ==> forall|p: int| #[trigger] occurs_at(self@, query@, p) ==> matches@.contains(p as usize),
    {
        let mut matches: Vec<usize> = Vec::new();
        if query.is_empty() {
            return matches;
        }
        let query_chars = chars_of(query);
        let len = self.len();
        proof {
            lemma_occurrences(self@, query@, 0);
        }
        if len < query_chars.len() {
            assert(occurrences_from(self@, query@, 0) =~= Seq::<usize>::empty());
            return matches;
        }
        let last = len - query_chars.len();
        let mut i: usize = 0;
        while i <= last
            invariant
                self.wf(),
                len == self@.len(),
                query_chars@ == query@,
                query@.len() > 0,
                last == len - query@.len(),
                i <= last + 1,
                matches@ + occurrences_from(self@, query@, i as int) == occurrences_from(self@, query@, 0),
            decreases last + 1 - i,
        {
            if self.matches_at(&query_chars, i) {
                proof {
                    assert(matches@.push(i) + occurrences_from(self@, query@, i + 1) =~= matches@
                        + occurrences_from(self@, query@, i as int));
                }
                matches.push(i);
            } else {
                assert(occurrences_from(self@, query@, i as int) == occurrences_from(self@, query@, i + 1));
            }
            i += 1;
        }
        assert(occurrences_from(self@, query@, i as int) =~= Seq::<usize>::empty());
        assert(matches@ =~= occurrences_from(self@, query@, 0));
        matches
    }

    /// The character at position `idx` of the text.
    fn get_char(&self, idx: usize) -> (c: char)
        requires
            self.wf(),
            idx < self@.len(),
        ensures
            c == self@[idx as int],
    {
        if idx < self.gap_start {
            self.data[idx]
        } else {
            self.data[idx + (self.gap_end - self.gap_start)]
        }
    }

    /// Moves the gap so that it starts at position `pos`, keeping the text and the
    /// gap's size.
    fn move_gap(&mut self, pos: usize)
        requires
            old(self).wf(),
            pos <= old(self)@.len(),
        ensures
            final(self).wf(),
            final(self)@ == old(self)@,
            final(self).gap_start == pos,
            final(self).room() == old(self).room(),
            final(self).data@.len() == old(self).data@.len(),
    {
        if pos == self.gap_start {
            return;
        }
        let ghost d0 = self.data@;
        let gs = self.gap_start;
        let ge = self.gap_end;
        if pos < gs {
            let shift = gs - pos;
            let mut i: usize = 0;
            while i < shift
                invariant
                    gs == old(self).gap_start,
                    ge == old(self).gap_end,
                    d0 == old(self).data@,
                    gs <= ge <= d0.len() <= usize::MAX,
                    pos < gs,
                    shift == gs - pos,
                    i <= shift,
                    self.data@.len() == d0.len(),
                    forall|k: int|
                        0 <= k < d0.len() ==> #[trigger] self.data@[k] == if ge - i <= k < ge {
                            d0[k - (ge - gs)]
                        } else {
                            d0[k]
                        },
                decreases shift - i,
            {
                let v = self.data[gs - 1 - i];
                self.data.set(ge - 1 - i, v);
                i += 1;
            }
            self.gap_start = gs - shift;
            self.gap_end = ge - shift;
        } else {
            let shift = pos - gs;
            let mut i: usize = 0;
            while i < shift
                invariant
                    gs == old(self).gap_start,
                    ge == old(self).gap_end,
                    d0 == old(self).data@,
                    gs <= ge <= d0.len() <= usize::MAX,
                    pos <= d0.len() - (ge - gs),
                    gs < pos,
                    shift == pos - gs,
                    i <= shift,
                    self.data@.len() == d0.len(),
                    forall|k: int|
                        0 <= k < d0.len() ==> #[trigger] self.data@[k] == if gs <= k < gs + i {
                            d0[k + (ge - gs)]
                        } else {
                            d0[k]
                        },
                decreases shift - i,
            {
                let v = self.data[ge + i];
                self.data.set(gs + i, v);
                i += 1;
            }
            self.gap_start = gs + shift;
            self.gap_end = ge + shift;
        }
        assert(self@ =~= old(self)@);
    }

    /// Replaces the gap by a fresh one: `GAP_SIZE` cells when it was full, twice its
    /// size otherwise.
    fn grow(&mut self)
        requires
            old(self).wf(),
            old(self).data@.len() + 2 * old(self).room() + GAP_SIZE <= usize::MAX,
        ensures
            final(self).wf(),
            final(self)@ == old(self)@,
            final(self).gap_start == old(self).gap_start,
            final(self).room() == if old(self).room() == 0 {
                GAP_SIZE as nat
            } else {
                2 * old(self).room()
            },
    {
        let current_gap_size = self.gap_end - self.gap_start;
        let grow_by = if current_gap_size == 0 {
            GAP_SIZE
        } else {
            current_gap_size * 2
        };
        let gs = self.gap_start;
        let ge = self.gap_end;
        let n = self.data.len();
        let mut new_data: Vec<char> = Vec::with_capacity(n + grow_by);
        let mut i: usize = 0;
        while i < gs
            invariant
                self.wf(),
                gs == self.gap_start,
                i <= gs,
                new_data@ == self.data@.take(i as int),
            decreases gs - i,
        {
            proof {
                assert(self.data@.take(i + 1) =~= self.data@.take(i as int).push(self.data@[i as int]));
            }
            new_data.push(self.data[i]);
            i += 1;
        }
        let mut k: usize = 0;
        while k < grow_by
            invariant
                self.wf(),
                gs == self.gap_start,
                k <= grow_by,
                new_data@.len() == gs + k,
                forall|m: int| 0 <= m < gs ==> new_data@[m] == self.data@[m],
            decreases grow_by - k,
        {
            new_data.push('\0');
            k += 1;
        }
        let mut j: usize = ge;
        while j < n
            invariant
                self.wf(),
                gs == self.gap_start,
                ge == self.gap_end,
                n == self.data@.len(),
                ge <= j <= n,
                new_data@.len() == gs + grow_by + (j - ge),
                forall|m: int| 0 <= m < gs ==> new_data@[m] == self.data@[m],
                forall|m: int| gs + grow_by <= m < new_data@.len() ==> new_data@[m] == self.data@[m - grow_by - gs + ge],
            decreases n - j,
        {
            new_data.push(self.data[j]);
            j += 1;
        }
        let ghost before = self@;
        self.gap_end = gs + grow_by;
        self.data = new_data;
        assert(self@ =~= before);
    }
}

} // verus!
