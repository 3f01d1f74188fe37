//! The mathematical model of a text: lines, line breaks and occurrences of a query,
//! as spec functions over `Seq<char>`, with the lemmas that relate them.
use vstd::prelude::*;

verus! {

/// Number of line breaks in `s`.
pub open spec fn newlines(s: Seq<char>) -> nat
    decreases s.len(),
{
    if s.len() == 0 {
        0
    } else {
        newlines(s.drop_last()) + if s.last() == '\n' {
            1nat
        } else {
            0nat
        }
    }
}

/// Number of line breaks strictly before position `i` of `t`.
pub open spec fn newlines_before(t: Seq<char>, i: int) -> nat {
    newlines(t.take(i))
}

/// Start of the line that holds position `i`: just after the last line break
/// before `i`, or 0 when there is none.
pub open spec fn line_begin(t: Seq<char>, i: int) -> int
    decreases i,
{
    if i <= 0 {
        0
    } else if t[i - 1] == '\n' {
        i
    } else {
        line_begin(t, i - 1)
    }
}

/// End of the line that holds position `i`: the first line break at or after `i`,
/// or the end of the text when there is none.
pub open spec fn line_end(t: Seq<char>, i: int) -> int
    decreases t.len() - i,
{
    if i >= t.len() {
        i
    } else if t[i] == '\n' {
        i
    } else {
        line_end(t, i + 1)
    }
}

/// `r` is where line `n` (counting from 0) begins, or the end of the text when
/// the text has no line `n`.
pub open spec fn is_line_offset(t: Seq<char>, n: nat, r: int) -> bool {
    &&& 0 <= r <= t.len()
    &&& forall|k: int| 0 <= k < r ==> #[trigger] newlines_before(t, k) < n
    &&& (r == t.len() || newlines_before(t, r) == n)
}

/// Where line `n` (counting from 0) begins, or the end of the text when the text
/// has no line `n`.
pub open spec fn line_offset(t: Seq<char>, n: nat) -> int {
    choose|r: int| is_line_offset(t, n, r)
}

/// The position reached from the start of line `line` by moving right `col`
/// times without leaving that line.
pub open spec fn pos_at_line_col(t: Seq<char>, line: nat, col: nat) -> int {
    let s = line_offset(t, line);
    let e = line_end(t, s);
    if s + col <= e {
        s + col
    } else {
        e
    }
}

/// Line (counting from 0) and column of position `i`, where positions past the end
/// count as the end.
pub open spec fn line_col(t: Seq<char>, i: int) -> (nat, nat) {
    let m = if i < t.len() {
        i
    } else {
        t.len() as int
    };
    (newlines_before(t, m), (m - line_begin(t, m)) as nat)
}

/// `q` occurs in `t` starting at position `i`.
pub open spec fn occurs_at(t: Seq<char>, q: Seq<char>, i: int) -> bool {
    0 <= i && i + q.len() <= t.len() && t.subrange(i, i + q.len()) == q
}

/// The positions at or after `i` where `q` occurs in `t`, in increasing order.
pub open spec fn occurrences_from(t: Seq<char>, q: Seq<char>, i: int) -> Seq<usize>
    decreases t.len() - i,
{
    if i < 0 || i >= t.len() || i + q.len() > t.len() {
        Seq::empty()
    } else if occurs_at(t, q, i) {
        seq![i as usize] + occurrences_from(t, q, i + 1)
    } else {
        occurrences_from(t, q, i + 1)
    }
}

/// Where a search for `q` finds it in `t`: every position where `q` occurs, in
/// increasing order; nothing for an empty query.
pub open spec fn search_results(t: Seq<char>, q: Seq<char>) -> Seq<usize> {
    if q.len() == 0 {
        Seq::empty()
    } else {
        occurrences_from(t, q, 0)
    }
}

/// Counting one more position adds one exactly when that position holds a line break.
pub proof fn lemma_newlines_step(t: Seq<char>, i: int)
    requires
        0 <= i < t.len(),
    ensures
        newlines_before(t, i + 1) == newlines_before(t, i) + if t[i] == '\n' {
            1nat
        } else {
            0nat
        },
{
    assert(t.take(i + 1).drop_last() =~= t.take(i));
}

pub proof fn lemma_newlines_all(t: Seq<char>)
    ensures
        newlines_before(t, t.len() as int) == newlines(t),
{
    assert(t.take(t.len() as int) =~= t);
}

pub proof fn lemma_newlines_zero(t: Seq<char>)
    ensures
        newlines_before(t, 0) == 0,
{
    assert(t.take(0).len() == 0);
}

/// The count of line breaks before a position never decreases as the position grows.
pub proof fn lemma_newlines_monotone(t: Seq<char>, k: int, j: int)
    requires
        0 <= k <= j <= t.len(),
    ensures
        newlines_before(t, k) <= newlines_before(t, j),
    decreases j - k,
{
    if k < j {
        lemma_newlines_monotone(t, k, j - 1);
        lemma_newlines_step(t, j - 1);
    }
}

/// No line break in `[k, j)` leaves the count unchanged.
pub proof fn lemma_newlines_flat(t: Seq<char>, k: int, j: int)
    requires
        0 <= k <= j <= t.len(),
        forall|m: int| k <= m < j ==> t[m] != '\n',
    ensures
        newlines_before(t, k) == newlines_before(t, j),
    decreases j - k,
{
    if k < j {
        lemma_newlines_flat(t, k, j - 1);
        lemma_newlines_step(t, j - 1);
    }
}

/// Two positions that both satisfy the line-offset property are the same.
pub proof fn lemma_line_offset_unique(t: Seq<char>, n: nat, r1: int, r2: int)
    requires
        is_line_offset(t, n, r1),
        is_line_offset(t, n, r2),
    ensures
        r1 == r2,
{
    if r1 < r2 {
        assert(newlines_before(t, r1) < n);
    } else if r2 < r1 {
        assert(newlines_before(t, r2) < n);
    }
}

/// A position with the line-offset property is the one `line_offset` names.
pub proof fn lemma_line_offset_is(t: Seq<char>, n: nat, r: int)
    requires
        is_line_offset(t, n, r),
    ensures
        line_offset(t, n) == r,
{
    let s = line_offset(t, n);
    assert(is_line_offset(t, n, s));
    lemma_line_offset_unique(t, n, s, r);
}

proof fn lemma_line_offset_exists_from(t: Seq<char>, n: nat, i: int)
    requires
        0 <= i <= t.len(),
        forall|k: int| 0 <= k < i ==> #[trigger] newlines_before(t, k) < n,
    ensures
        exists|r: int| is_line_offset(t, n, r),
    decreases t.len() - i,
{
    if i == t.len() {
        assert(is_line_offset(t, n, i));
    } else if newlines_before(t, i) >= n {
        if i == 0 {
            lemma_newlines_zero(t);
        } else {
            lemma_newlines_step(t, i - 1);
            assert(newlines_before(t, i - 1) < n);
        }
        assert(is_line_offset(t, n, i));
    } else {
        lemma_line_offset_exists_from(t, n, i + 1);
    }
}

/// Every text has a position with the line-offset property for every line number.
pub proof fn lemma_line_offset_exists(t: Seq<char>, n: nat)
    ensures
        is_line_offset(t, n, line_offset(t, n)),
{
    lemma_line_offset_exists_from(t, n, 0);
}

/// What `line_begin` is: a position at or before `i` right after a line break (or
/// 0), with no line break between it and `i`.
pub proof fn lemma_line_begin(t: Seq<char>, i: int)
    requires
        0 <= i <= t.len(),
    ensures
        0 <= line_begin(t, i) <= i,
        line_begin(t, i) == 0 || t[line_begin(t, i) - 1] == '\n',
        forall|m: int| line_begin(t, i) <= m < i ==> t[m] != '\n',
    decreases i,
{
    if i > 0 && t[i - 1] != '\n' {
        lemma_line_begin(t, i - 1);
    }
}

/// What `line_end` is: a position at or after `i` that is the end of the text or a
/// line break, with no line break between `i` and it.
pub proof fn lemma_line_end(t: Seq<char>, i: int)
    requires
        0 <= i <= t.len(),
    ensures
        i <= line_end(t, i) <= t.len(),
        line_end(t, i) == t.len() || t[line_end(t, i)] == '\n',
        forall|m: int| i <= m < line_end(t, i) ==> t[m] != '\n',
    decreases t.len() - i,
{
    if i < t.len() && t[i] != '\n' {
        lemma_line_end(t, i + 1);
    }
}

/// The positions in `occurrences_from(t, q, i)` are exactly the positions at or
/// after `i` where `q` occurs, listed in strictly increasing order.
pub proof fn lemma_occurrences(t: Seq<char>, q: Seq<char>, i: int)
    requires
        0 <= i,
        q.len() > 0,
        t.len() <= usize::MAX,
    ensures
        forall|k: int|
            0 <= k < occurrences_from(t, q, i).len() ==> i <= #[trigger] occurrences_from(
                t,
                q,
                i,
            )[k] && occurs_at(t, q, occurrences_from(t, q, i)[k] as int),
        forall|k1: int, k2: int|
            0 <= k1 < k2 < occurrences_from(t, q, i).len() ==> #[trigger] occurrences_from(
                t,
                q,
                i,
            )[k1] < #[trigger] occurrences_from(t, q, i)[k2],
        forall|p: int|
            i <= p && #[trigger] occurs_at(t, q, p) ==> occurrences_from(t, q, i).contains(
                p as usize,
            ),
    decreases t.len() - i,
{
    if i >= t.len() || i + q.len() > t.len() {
    } else {
        lemma_occurrences(t, q, i + 1);
        let rest = occurrences_from(t, q, i + 1);
        if occurs_at(t, q, i) {
            let all = seq![i as usize] + rest;
            assert(occurrences_from(t, q, i) == all);
            assert forall|p: int| i <= p && #[trigger] occurs_at(t, q, p) implies all.contains(
                p as usize,
            ) by {
                if p == i {
                    assert(all[0] == p as usize);
                } else {
                    let k = choose|k: int| 0 <= k < rest.len() && rest[k] == p as usize;
                    assert(all[k + 1] == p as usize);
                }
            }
        }
    }
}

/// Law: inserting `c` at `i` and then deleting at `i` gives back `c` and the
/// original text.
pub proof fn law_insert_then_delete(t: Seq<char>, i: int, c: char)
    requires
        0 <= i <= t.len(),
    ensures
        t.insert(i, c)[i] == c,
        t.insert(i, c).remove(i) == t,
{
    assert(t.insert(i, c).remove(i) =~= t);
}

/// Law: deleting the character at `i` and inserting it again at `i` gives back the
/// original text.
pub proof fn law_delete_then_insert(t: Seq<char>, i: int)
    requires
        0 <= i < t.len(),
    ensures
        t.remove(i).insert(i, t[i]) == t,
{
    assert(t.remove(i).insert(i, t[i]) =~= t);
}

/// Law: going from a position to its line and column and back gives the same
/// position, for every position from the start to the end of the text.
pub proof fn law_line_col_round_trip(t: Seq<char>, i: int)
    requires
        0 <= i <= t.len(),
    ensures
        pos_at_line_col(t, line_col(t, i).0, line_col(t, i).1) == i,
{
    let b = line_begin(t, i);
    let n = newlines_before(t, i);
    lemma_line_begin(t, i);
    lemma_newlines_flat(t, b, i);
    assert forall|k: int| 0 <= k < b implies #[trigger] newlines_before(t, k) < n by {
        lemma_newlines_step(t, b - 1);
        lemma_newlines_monotone(t, k, b - 1);
    }
    assert(is_line_offset(t, n, b));
    lemma_line_offset_is(t, n, b);
    lemma_line_end(t, b);
    let e = line_end(t, b);
    if e < i {
        assert(t[e] != '\n');
    }
}

/// Law: the line of every position is below the number of lines, which is one more
/// than the number of line breaks.
pub proof fn law_line_below_total(t: Seq<char>, i: int)
    requires
        0 <= i,
    ensures
        line_col(t, i).0 < newlines(t) + 1,
{
    let m = if i < t.len() {
        i
    } else {
        t.len() as int
    };
    lemma_newlines_monotone(t, m, t.len() as int);
    lemma_newlines_all(t);
}

} // verus!
