//! The text buffer engine: a flat character sequence partitioned into lines
//! by the separator `'\n'`, together with a (row, column) cursor. Splicing
//! operations translate the cursor to a flat offset; cursor moves clamp the
//! column to the destination line's length.

use vstd::prelude::*;

verus! {

// ---------------------------------------------------------------------------
// The line model: how a flat sequence decomposes into lines.
// ---------------------------------------------------------------------------

/// Length of the head line: the number of characters before the first
/// separator (all of `s` when no separator occurs).
pub open spec fn head_len(s: Seq<char>) -> nat
    decreases s.len(),
{
    if s.len() == 0 {
        0
    } else if s[0] == '\n' {
        0
    } else {
        1 + head_len(s.skip(1))
    }
}

/// Number of lines: one more than the number of separators.
pub open spec fn line_count(s: Seq<char>) -> nat
    decreases s.len(),
{
    if s.len() == 0 {
        1
    } else if s[0] == '\n' {
        1 + line_count(s.skip(1))
    } else {
        line_count(s.skip(1))
    }
}

/// Index of the first character of line `r` (meaningful for `r < line_count(s)`).
pub open spec fn line_start(s: Seq<char>, r: nat) -> nat
    decreases s.len(),
{
    if r == 0 {
        0
    } else if s.len() == 0 {
        0
    } else if s[0] == '\n' {
        1 + line_start(s.skip(1), (r - 1) as nat)
    } else {
        1 + line_start(s.skip(1), r)
    }
}

/// Length of line `r` (meaningful for `r < line_count(s)`).
pub open spec fn line_len(s: Seq<char>, r: nat) -> nat {
    head_len(s.skip(line_start(s, r) as int))
}

/// Flat offset of the cursor position (row, col): the lengths of all lines
/// strictly above `row`, each plus one separator, plus `col`.
pub open spec fn offset_of(s: Seq<char>, row: nat, col: nat) -> nat {
    line_start(s, row) + col
}

/// The cursor invariant: the row addresses an existing line and the column
/// is at most that line's length (one-past-end allowed).
pub open spec fn cursor_ok(s: Seq<char>, row: nat, col: nat) -> bool {
    row < line_count(s) && col <= line_len(s, row)
}

// ---------------------------------------------------------------------------
// Foundational lemmas about the line model.
// ---------------------------------------------------------------------------

/// Every sequence has at least one line.
pub proof fn lemma_line_count_pos(s: Seq<char>)
    ensures
        line_count(s) >= 1,
    decreases s.len(),
{
    if s.len() != 0 {
        lemma_line_count_pos(s.skip(1));
    }
}

/// Dropping `a` characters and then `b` more drops `a + b` characters.
pub proof fn lemma_skip_skip(s: Seq<char>, a: int, b: int)
    requires
        0 <= a,
        0 <= b,
        a + b <= s.len(),
    ensures
        s.skip(a).skip(b) == s.skip(a + b),
{
    assert(s.skip(a).skip(b) =~= s.skip(a + b));
}

/// `skip(0)` leaves a sequence unchanged.
pub proof fn lemma_skip0(s: Seq<char>)
    ensures
        s.skip(0) == s,
{
    assert(s.skip(0) =~= s);
}

/// The head line's characters are not separators; where the head line stops
/// short of the end, a separator follows it, and the rest of the lines are
/// the lines of what stands after that separator.
pub proof fn lemma_head(s: Seq<char>)
    ensures
        head_len(s) <= s.len(),
        forall|j: int| 0 <= j < head_len(s) ==> s[j] != '\n',
        head_len(s) < s.len() ==> s[head_len(s) as int] == '\n',
        (head_len(s) == s.len()) <==> (line_count(s) == 1),
        head_len(s) < s.len() ==> line_count(s) == 1 + line_count(
            s.skip(head_len(s) as int + 1),
        ),
        head_len(s) < s.len() ==> forall|rr: nat|
            1 <= rr < line_count(s) ==> line_start(s, rr) == head_len(s) + 1 + line_start(
                s.skip(head_len(s) as int + 1),
                (rr - 1) as nat,
            ),
    decreases s.len(),
{
    lemma_line_count_pos(s);
    if s.len() == 0 {
    } else if s[0] == '\n' {
        lemma_line_count_pos(s.skip(1));
        lemma_skip0(s.skip(1));
    } else {
        let s1 = s.skip(1);
        lemma_head(s1);
        let h = head_len(s) as int;
        assert(forall|j: int| 1 <= j < h ==> s[j] == s1[j - 1]);
        if head_len(s) < s.len() {
            // The separator after the head line.
            assert(s[h] == s1[h - 1]);
            // The text after the first line agrees with the tail's.
            lemma_skip_skip(s, 1, h);
            // Line count decomposition.
            assert(line_count(s) == line_count(s1));
            // Starts of the later lines.
            assert forall|rr: nat| 1 <= rr < line_count(s) implies line_start(s, rr)
                == head_len(s) + 1 + line_start(s.skip(h + 1), (rr - 1) as nat) by {
                assert(line_start(s, rr) == 1 + line_start(s1, rr));
                assert(line_start(s1, rr) == head_len(s1) + 1 + line_start(
                    s1.skip(head_len(s1) as int + 1),
                    (rr - 1) as nat,
                ));
                assert(s1.skip(head_len(s1) as int + 1) == s.skip(h + 1)) by {
                    lemma_skip_skip(s, 1, head_len(s1) as int + 1);
                }
            }
        }
    }
}

/// The head line's length is the unique cut `h` with no separator before it
/// and a separator (or the end) at it.
pub proof fn lemma_head_len_is(s: Seq<char>, h: nat)
    requires
        h <= s.len(),
        forall|j: int| 0 <= j < h ==> s[j] != '\n',
        h < s.len() ==> s[h as int] == '\n',
    ensures
        head_len(s) == h,
    decreases s.len(),
{
    if s.len() == 0 {
    } else if s[0] == '\n' {
        assert(h == 0) by {
            if h > 0 {
                assert(s[0] != '\n');
            }
        }
    } else {
        assert(h >= 1) by {
            if h == 0 {
                assert(s[0] == '\n');
            }
        }
        let s1 = s.skip(1);
        assert forall|j: int| 0 <= j < h - 1 implies s1[j] != '\n' by {
            assert(s1[j] == s[j + 1]);
        }
        assert(h - 1 < s1.len() ==> s1[h - 1] == s[h as int]);
        lemma_head_len_is(s1, (h - 1) as nat);
    }
}

/// The shape of line `r` inside the flat sequence: it lies within bounds,
/// holds no separator, is delimited by a separator on each side that exists,
/// and the next line starts right after its separator.
pub proof fn lemma_line_structure(s: Seq<char>, r: nat)
    requires
        r < line_count(s),
    ensures
        line_start(s, r) + line_len(s, r) <= s.len(),
        forall|i: int|
            line_start(s, r) <= i < line_start(s, r) + line_len(s, r) ==> s[i] != '\n',
        r + 1 < line_count(s) ==> line_start(s, r) + line_len(s, r) < s.len()
            && s[(line_start(s, r) + line_len(s, r)) as int] == '\n'
            && line_start(s, (r + 1) as nat) == line_start(s, r) + line_len(s, r) + 1,
        r + 1 == line_count(s) ==> line_start(s, r) + line_len(s, r) == s.len(),
        r > 0 ==> 1 <= line_start(s, r) <= s.len() && s[line_start(s, r) as int - 1] == '\n',
    decreases r,
{
    lemma_head(s);
    if r == 0 {
        lemma_skip0(s);
        assert(line_len(s, 0) == head_len(s));
        if r + 1 < line_count(s) {
            // A second line exists, so the head line ends at a separator.
            assert(head_len(s) < s.len());
            assert(line_start(s, 1) == head_len(s) + 1 + line_start(
                s.skip(head_len(s) as int + 1),
                0,
            ));
        }
    } else {
        assert(line_count(s) >= 2);
        assert(head_len(s) < s.len());
        let h = head_len(s) as int;
        let tail = s.skip(h + 1);
        assert(line_count(s) == 1 + line_count(tail));
        lemma_line_structure(tail, (r - 1) as nat);
        let ls1 = line_start(tail, (r - 1) as nat) as int;
        let ll1 = line_len(tail, (r - 1) as nat) as int;
        assert(line_start(s, r) == h + 1 + ls1);
        // Line r of s is line r-1 of the tail.
        assert(s.skip(h + 1 + ls1) == tail.skip(ls1)) by {
            lemma_skip_skip(s, h + 1, ls1);
        }
        assert(line_len(s, r) == ll1);
        let ls = line_start(s, r) as int;
        let ll = line_len(s, r) as int;
        // Its characters are the tail's, shifted.
        assert forall|i: int| ls <= i < ls + ll implies s[i] != '\n' by {
            assert(s[i] == tail[i - (h + 1)]);
            assert(tail[i - (h + 1)] != '\n');
        }
        if r + 1 < line_count(s) {
            assert((r - 1) + 1 < line_count(tail));
            assert(s[ls + ll] == tail[ls1 + ll1]);
            assert(line_start(s, (r + 1) as nat) == h + 1 + line_start(tail, r));
            assert(line_start(tail, r) == ls1 + ll1 + 1);
        }
        if r + 1 == line_count(s) {
            assert(ls1 + ll1 == tail.len());
        }
        // The separator before line r.
        if r == 1 {
            assert(ls1 == 0);
            assert(s[ls - 1] == s[h]);
        } else {
            assert(s[ls - 1] == tail[ls1 - 1]);
        }
    }
}

/// Lines below the head are the tail's lines: peeling the first line off `s`
/// shifts every later line by the head's length plus one.
pub proof fn lemma_tail_line(s: Seq<char>, r: nat)
    requires
        1 <= r < line_count(s),
    ensures
        head_len(s) < s.len(),
        line_count(s) == 1 + line_count(s.skip(head_len(s) as int + 1)),
        line_start(s, r) == head_len(s) + 1 + line_start(
            s.skip(head_len(s) as int + 1),
            (r - 1) as nat,
        ),
        line_len(s, r) == line_len(s.skip(head_len(s) as int + 1), (r - 1) as nat),
{
    lemma_head(s);
    assert(line_count(s) >= 2);
    let h = head_len(s) as int;
    let tail = s.skip(h + 1);
    lemma_line_structure(tail, (r - 1) as nat);
    let ls1 = line_start(tail, (r - 1) as nat) as int;
    assert(s.skip(h + 1 + ls1) == tail.skip(ls1)) by {
        lemma_skip_skip(s, h + 1, ls1);
    }
}

/// Splicing a non-separator character at a valid cursor offset lengthens
/// that row by one and leaves the line layout otherwise unmoved.
pub proof fn lemma_insert_char(s: Seq<char>, row: nat, col: nat, c: char)
    requires
        cursor_ok(s, row, col),
        c != '\n',
    ensures
        line_count(s.insert(offset_of(s, row, col) as int, c)) == line_count(s),
        line_start(s.insert(offset_of(s, row, col) as int, c), row) == line_start(s, row),
        line_len(s.insert(offset_of(s, row, col) as int, c), row) == line_len(s, row) + 1,
    decreases row,
{
    let off = offset_of(s, row, col) as int;
    let t = s.insert(off, c);
    lemma_line_structure(s, row);
    lemma_head(s);
    s.insert_ensures(off, c);
    if row == 0 {
        lemma_skip0(s);
        let h = head_len(s) as int;
        assert(head_len(t) == h + 1) by {
            assert forall|j: int| 0 <= j < h + 1 implies t[j] != '\n' by {
                if j < off {
                    assert(t[j] == s[j]);
                } else if j == off {
                } else {
                    assert(t[j] == s[j - 1]);
                }
            }
            assert(h + 1 < t.len() ==> t[h + 1] == s[h]);
            lemma_head_len_is(t, (h + 1) as nat);
        }
        lemma_head(t);
        if h == s.len() {
            assert(line_count(s) == 1);
            assert(head_len(t) == t.len());
            assert(line_count(t) == 1);
        } else {
            assert(t.skip(h + 2) == s.skip(h + 1)) by {
                assert(t.skip(h + 2) =~= s.skip(h + 1));
            }
            assert(line_count(t) == 1 + line_count(t.skip(h + 2)));
            assert(line_count(s) == 1 + line_count(s.skip(h + 1)));
        }
        lemma_skip0(t);
    } else {
        lemma_tail_line(s, row);
        let h = head_len(s) as int;
        let tail = s.skip(h + 1);
        let ls1 = line_start(tail, (row - 1) as nat) as int;
        let off1 = off - (h + 1);
        lemma_line_structure(tail, (row - 1) as nat);
        tail.insert_ensures(off1, c);
        assert(head_len(t) == h) by {
            assert forall|j: int| 0 <= j < h implies t[j] != '\n' by {
                assert(t[j] == s[j]);
            }
            assert(t[h] == s[h]);
            lemma_head_len_is(t, h as nat);
        }
        assert(t.skip(h + 1) == tail.insert(off1, c)) by {
            assert(t.skip(h + 1) =~= tail.insert(off1, c));
        }
        lemma_insert_char(tail, (row - 1) as nat, col, c);
        lemma_head(t);
        assert(line_count(t) == 1 + line_count(tail.insert(off1, c)));
        lemma_tail_line(t, row);
    }
}

/// Splicing the separator at a valid cursor offset splits that row in two:
/// the row keeps the text left of the cursor, and a new row below it takes
/// what stood at and after the cursor.
#[verifier::rlimit(60)]
pub proof fn lemma_insert_newline(s: Seq<char>, row: nat, col: nat)
    requires
        cursor_ok(s, row, col),
    ensures
        line_count(s.insert(offset_of(s, row, col) as int, '\n')) == line_count(s) + 1,
        line_start(s.insert(offset_of(s, row, col) as int, '\n'), row) == line_start(s, row),
        line_len(s.insert(offset_of(s, row, col) as int, '\n'), row) == col,
        line_start(s.insert(offset_of(s, row, col) as int, '\n'), (row + 1) as nat)
            == offset_of(s, row, col) + 1,
        line_len(s.insert(offset_of(s, row, col) as int, '\n'), (row + 1) as nat)
            == line_len(s, row) - col,
    decreases row,
{
    let off = offset_of(s, row, col) as int;
    let t = s.insert(off, '\n');
    lemma_line_structure(s, row);
    lemma_head(s);
    s.insert_ensures(off, '\n');
    if row == 0 {
        lemma_skip0(s);
        let h = head_len(s) as int;
        assert(head_len(t) == col) by {
            assert forall|j: int| 0 <= j < col implies t[j] != '\n' by {
                assert(t[j] == s[j]);
            }
            lemma_head_len_is(t, col);
        }
        lemma_head(t);
        assert(t.skip(off + 1) == s.skip(off)) by {
            assert(t.skip(off + 1) =~= s.skip(off));
        }
        assert(head_len(s.skip(off)) == h - off) by {
            assert forall|j: int| 0 <= j < h - off implies s.skip(off)[j] != '\n' by {
                assert(s.skip(off)[j] == s[off + j]);
            }
            assert(h - off < s.skip(off).len() ==> s.skip(off)[h - off] == s[h]);
            lemma_head_len_is(s.skip(off), (h - off) as nat);
        }
        lemma_head(s.skip(off));
        assert(line_count(t) == 1 + line_count(s.skip(off)));
        if h == s.len() {
            assert(line_count(s) == 1);
            assert(head_len(s.skip(off)) == s.skip(off).len());
            assert(line_count(s.skip(off)) == 1);
        } else {
            assert(s.skip(off).skip(h - off + 1) == s.skip(h + 1)) by {
                lemma_skip_skip(s, off, h - off + 1);
            }
            assert(line_count(s.skip(off)) == 1 + line_count(s.skip(h + 1)));
            assert(line_count(s) == 1 + line_count(s.skip(h + 1)));
        }
        // The split-off rows.
        lemma_skip0(t);
        lemma_tail_line(t, 1);
        lemma_skip0(s.skip(off));
    } else {
        lemma_tail_line(s, row);
        let h = head_len(s) as int;
        let tail = s.skip(h + 1);
        let off1 = off - (h + 1);
        lemma_line_structure(tail, (row - 1) as nat);
        tail.insert_ensures(off1, '\n');
        assert(head_len(t) == h) by {
            assert forall|j: int| 0 <= j < h implies t[j] != '\n' by {
                assert(t[j] == s[j]);
            }
            assert(t[h] == s[h]);
            lemma_head_len_is(t, h as nat);
        }
        assert(t.skip(h + 1) == tail.insert(off1, '\n')) by {
            assert(t.skip(h + 1) =~= tail.insert(off1, '\n'));
        }
        lemma_insert_newline(tail, (row - 1) as nat, col);
        lemma_head(t);
        assert(line_count(t) == 1 + line_count(tail.insert(off1, '\n')));
        lemma_tail_line(t, row);
        lemma_tail_line(t, (row + 1) as nat);
    }
}

/// Removing the character just before a cursor that stands past the start of
/// its row shortens that row by one; the removed character is no separator.
pub proof fn lemma_remove_in_line(s: Seq<char>, row: nat, col: nat)
    requires
        cursor_ok(s, row, col),
        col >= 1,
    ensures
        s[offset_of(s, row, col) - 1] != '\n',
        line_count(s.remove(offset_of(s, row, col) - 1)) == line_count(s),
        line_start(s.remove(offset_of(s, row, col) - 1), row) == line_start(s, row),
        line_len(s.remove(offset_of(s, row, col) - 1), row) == line_len(s, row) - 1,
    decreases row,
{
    let off = offset_of(s, row, col) as int;
    let t = s.remove(off - 1);
    lemma_line_structure(s, row);
    lemma_head(s);
    s.remove_ensures(off - 1);
    if row == 0 {
        lemma_skip0(s);
        let h = head_len(s) as int;
        assert(head_len(t) == h - 1) by {
            assert forall|j: int| 0 <= j < h - 1 implies t[j] != '\n' by {
                if j < off - 1 {
                    assert(t[j] == s[j]);
                } else {
                    assert(t[j] == s[j + 1]);
                }
            }
            assert(h - 1 < t.len() ==> t[h - 1] == s[h]);
            lemma_head_len_is(t, (h - 1) as nat);
        }
        lemma_head(t);
        if h == s.len() {
            assert(line_count(s) == 1);
            assert(head_len(t) == t.len());
            assert(line_count(t) == 1);
        } else {
            assert(t.skip(h) == s.skip(h + 1)) by {
                assert(t.skip(h) =~= s.skip(h + 1));
            }
            assert(line_count(t) == 1 + line_count(t.skip(h)));
            assert(line_count(s) == 1 + line_count(s.skip(h + 1)));
        }
        lemma_skip0(t);
    } else {
        lemma_tail_line(s, row);
        let h = head_len(s) as int;
        let tail = s.skip(h + 1);
        let off1 = off - (h + 1);
        lemma_line_structure(tail, (row - 1) as nat);
        tail.remove_ensures(off1 - 1);
        assert(head_len(t) == h) by {
            assert forall|j: int| 0 <= j < h implies t[j] != '\n' by {
                assert(t[j] == s[j]);
            }
            assert(t[h] == s[h]);
            lemma_head_len_is(t, h as nat);
        }
        assert(t.skip(h + 1) == tail.remove(off1 - 1)) by {
            assert(t.skip(h + 1) =~= tail.remove(off1 - 1));
        }
        lemma_remove_in_line(tail, (row - 1) as nat, col);
        lemma_head(t);
        assert(line_count(t) == 1 + line_count(tail.remove(off1 - 1)));
        lemma_tail_line(t, row);
    }
}

/// Removing the separator just before the start of row `r >= 1` joins that
/// row onto the one above it; the removed character is the separator.
pub proof fn lemma_remove_sep(s: Seq<char>, row: nat)
    requires
        row >= 1,
        row < line_count(s),
    ensures
        s[line_start(s, row) - 1] == '\n',
        line_count(s.remove(line_start(s, row) - 1)) == line_count(s) - 1,
        line_start(s.remove(line_start(s, row) - 1), (row - 1) as nat)
            == line_start(s, (row - 1) as nat),
        line_len(s.remove(line_start(s, row) - 1), (row - 1) as nat)
            == line_len(s, (row - 1) as nat) + line_len(s, row),
    decreases row,
{
    let off = line_start(s, row) as int;
    let t = s.remove(off - 1);
    lemma_line_structure(s, row);
    lemma_line_structure(s, (row - 1) as nat);
    lemma_head(s);
    s.remove_ensures(off - 1);
    assert(head_len(s) < s.len());
    let h = head_len(s) as int;
    let tail = s.skip(h + 1);
    lemma_head(tail);
    if row == 1 {
        lemma_skip0(s);
        lemma_skip0(tail);
        let ll1 = line_len(s, 1) as int;
        assert(line_start(s, 1) == h + 1) by {
            lemma_tail_line(s, 1);
        }
        assert(ll1 == head_len(tail)) by {
            lemma_tail_line(s, 1);
        }
        assert(head_len(t) == h + ll1) by {
            assert forall|j: int| 0 <= j < h + ll1 implies t[j] != '\n' by {
                if j < h {
                    assert(t[j] == s[j]);
                } else {
                    assert(t[j] == s[j + 1]);
                    assert(s[j + 1] == tail[j - h]);
                }
            }
            assert(h + ll1 < t.len() ==> t[h + ll1] == tail[ll1]);
            lemma_head_len_is(t, (h + ll1) as nat);
        }
        lemma_head(t);
        if ll1 == tail.len() {
            assert(line_count(tail) == 1);
            assert(head_len(t) == t.len());
            assert(line_count(t) == 1);
            assert(line_count(s) == 2);
        } else {
            assert(t.skip(h + ll1 + 1) == tail.skip(ll1 + 1)) by {
                assert(t.skip(h + ll1 + 1) =~= tail.skip(ll1 + 1));
            }
            assert(line_count(t) == 1 + line_count(t.skip(h + ll1 + 1)));
            assert(line_count(tail) == 1 + line_count(tail.skip(ll1 + 1)));
            assert(line_count(s) == 1 + line_count(tail));
        }
        lemma_skip0(t);
    } else {
        lemma_tail_line(s, row);
        lemma_tail_line(s, (row - 1) as nat);
        let off1 = line_start(tail, (row - 1) as nat) as int;
        lemma_line_structure(tail, (row - 1) as nat);
        lemma_line_structure(tail, (row - 2) as nat);
        tail.remove_ensures(off1 - 1);
        assert(off - 1 == h + off1);
        assert(head_len(t) == h) by {
            assert forall|j: int| 0 <= j < h implies t[j] != '\n' by {
                assert(t[j] == s[j]);
            }
            assert(t[h] == s[h]);
            lemma_head_len_is(t, h as nat);
        }
        assert(t.skip(h + 1) == tail.remove(off1 - 1)) by {
            assert(t.skip(h + 1) =~= tail.remove(off1 - 1));
        }
        lemma_remove_sep(tail, (row - 1) as nat);
        lemma_head(t);
        assert(line_count(t) == 1 + line_count(tail.remove(off1 - 1)));
        lemma_tail_line(t, (row - 1) as nat);
    }
}

/// Line count never exceeds the character count plus one.
pub proof fn lemma_line_count_le(s: Seq<char>)
    ensures
        line_count(s) <= s.len() + 1,
    decreases s.len(),
{
    if s.len() != 0 {
        lemma_line_count_le(s.skip(1));
    }
}

// ---------------------------------------------------------------------------
// The buffer model and its transitions.
// ---------------------------------------------------------------------------

/// The mathematical value of an `EditState`: the flat text and the cursor.
#[verifier::ext_equal]
pub ghost struct BufferModel {
    pub text: Seq<char>,
    pub row: nat,
    pub col: nat,
}

/// The documented invariant, on the model.
pub open spec fn model_ok(m: BufferModel) -> bool {
    cursor_ok(m.text, m.row, m.col)
}

/// Insertion of a character: splice at the cursor offset, advance the column.
pub open spec fn insert_char_m(m: BufferModel, c: char) -> BufferModel {
    BufferModel {
        text: m.text.insert(offset_of(m.text, m.row, m.col) as int, c),
        row: m.row,
        col: m.col + 1,
    }
}

/// Insertion of the separator: splice at the cursor offset, move to the
/// start of the freshly created row below.
pub open spec fn insert_newline_m(m: BufferModel) -> BufferModel {
    BufferModel {
        text: m.text.insert(offset_of(m.text, m.row, m.col) as int, '\n'),
        row: m.row + 1,
        col: 0,
    }
}

/// Deletion before the cursor: within a row, remove the previous character;
/// at a row's start, remove the separator above and join onto the previous
/// row, the cursor landing on the junction; at (0, 0), do nothing.
pub open spec fn delete_m(m: BufferModel) -> BufferModel {
    if m.col > 0 {
        BufferModel {
            text: m.text.remove(offset_of(m.text, m.row, m.col) - 1),
            row: m.row,
            col: (m.col - 1) as nat,
        }
    } else if m.row > 0 {
        BufferModel {
            text: m.text.remove(offset_of(m.text, m.row, m.col) - 1),
            row: (m.row - 1) as nat,
            col: line_len(m.text, (m.row - 1) as nat),
        }
    } else {
        m
    }
}

/// Column clamping against a destination row's length.
pub open spec fn clamped(col: nat, limit: nat) -> nat {
    if col <= limit {
        col
    } else {
        limit
    }
}

/// One column left, stopping at the row's start.
pub open spec fn move_left_m(m: BufferModel) -> BufferModel {
    if m.col > 0 {
        BufferModel { text: m.text, row: m.row, col: (m.col - 1) as nat }
    } else {
        m
    }
}

/// One column right, stopping at the row's end.
pub open spec fn move_right_m(m: BufferModel) -> BufferModel {
    if m.col < line_len(m.text, m.row) {
        BufferModel { text: m.text, row: m.row, col: m.col + 1 }
    } else {
        m
    }
}

/// One row up, the column clamped to the destination row's length; a no-op
/// on the first row.
pub open spec fn move_up_m(m: BufferModel) -> BufferModel {
    if m.row > 0 {
        BufferModel {
            text: m.text,
            row: (m.row - 1) as nat,
            col: clamped(m.col, line_len(m.text, (m.row - 1) as nat)),
        }
    } else {
        m
    }
}

/// One row down, the column clamped to the destination row's length; a no-op
/// on the last row.
pub open spec fn move_down_m(m: BufferModel) -> BufferModel {
    if m.row + 1 < line_count(m.text) {
        BufferModel {
            text: m.text,
            row: m.row + 1,
            col: clamped(m.col, line_len(m.text, m.row + 1)),
        }
    } else {
        m
    }
}

// ---------------------------------------------------------------------------
// Laws of the buffer transitions.
// ---------------------------------------------------------------------------

/// Repeated character insertion, one `insert_char` per element in order.
pub open spec fn insert_chars_m(m: BufferModel, cs: Seq<char>) -> BufferModel
    decreases cs.len(),
{
    if cs.len() == 0 {
        m
    } else {
        insert_chars_m(insert_char_m(m, cs[0]), cs.skip(1))
    }
}

/// Typing onto the end of a separator-free buffer appends the characters.
proof fn lemma_insert_chars_at_end(m: BufferModel, cs: Seq<char>)
    requires
        m.row == 0,
        m.col == m.text.len(),
        forall|i: int| 0 <= i < m.text.len() ==> m.text[i] != '\n',
        forall|i: int| 0 <= i < cs.len() ==> cs[i] != '\n',
    ensures
        insert_chars_m(m, cs).text == m.text + cs,
        insert_chars_m(m, cs).row == 0,
        insert_chars_m(m, cs).col == m.text.len() + cs.len(),
    decreases cs.len(),
{
    if cs.len() == 0 {
        assert(m.text + cs =~= m.text);
    } else {
        let c = cs[0];
        let m1 = insert_char_m(m, c);
        m.text.insert_ensures(m.text.len() as int, c);
        assert(m1.text =~= m.text.push(c));
        assert forall|i: int| 0 <= i < m1.text.len() implies m1.text[i] != '\n' by {
            if i < m.text.len() {
                assert(m1.text[i] == m.text[i]);
            }
        }
        lemma_insert_chars_at_end(m1, cs.skip(1));
        assert(m.text.push(c) + cs.skip(1) =~= m.text + cs);
    }
}

/// Law: for any sequence of `insert_char` operations on the empty buffer,
/// the resulting text is exactly the characters in the order typed, with the
/// cursor on row 0 at a column equal to their count.
pub proof fn lemma_insert_chars_concat(cs: Seq<char>)
    requires
        forall|i: int| 0 <= i < cs.len() ==> cs[i] != '\n',
    ensures
        insert_chars_m(BufferModel { text: Seq::empty(), row: 0, col: 0 }, cs).text == cs,
        insert_chars_m(BufferModel { text: Seq::empty(), row: 0, col: 0 }, cs).row == 0,
        insert_chars_m(BufferModel { text: Seq::empty(), row: 0, col: 0 }, cs).col == cs.len(),
{
    let m = BufferModel { text: Seq::empty(), row: 0, col: 0 };
    lemma_insert_chars_at_end(m, cs);
    assert(m.text + cs =~= cs);
}

/// Law: deleting immediately after inserting a character restores the
/// buffer and the cursor, from any valid starting position.
pub proof fn lemma_insert_then_delete(m: BufferModel, c: char)
    requires
        model_ok(m),
        c != '\n',
    ensures
        delete_m(insert_char_m(m, c)) == m,
{
    lemma_line_structure(m.text, m.row);
    let off = offset_of(m.text, m.row, m.col) as int;
    lemma_insert_char(m.text, m.row, m.col, c);
    let m1 = insert_char_m(m, c);
    assert(m1.text.remove(off) =~= m.text) by {
        m.text.insert_ensures(off, c);
        m1.text.remove_ensures(off);
    }
    assert(delete_m(m1) =~= m);
}

/// Law: deleting at the cursor right after splitting a row restores the
/// original buffer and cursor: the join is the exact inverse of the split.
pub proof fn lemma_newline_then_delete(m: BufferModel)
    requires
        model_ok(m),
    ensures
        delete_m(insert_newline_m(m)) == m,
{
    lemma_line_structure(m.text, m.row);
    let off = offset_of(m.text, m.row, m.col) as int;
    lemma_insert_newline(m.text, m.row, m.col);
    let m1 = insert_newline_m(m);
    assert(m1.text.remove(off) =~= m.text) by {
        m.text.insert_ensures(off, '\n');
        m1.text.remove_ensures(off);
    }
    assert(delete_m(m1) =~= m);
}

// ---------------------------------------------------------------------------
// The executable buffer.
// ---------------------------------------------------------------------------

/// The editor's text content with its cursor: a flat character vector with
/// embedded separators, and the (row, column) the next operation applies at.
pub struct EditState {
    pub buffer: Vec<char>,
    pub row: usize,
    pub column: usize,
}

impl View for EditState {
    type V = BufferModel;

    open spec fn view(&self) -> BufferModel {
        BufferModel { text: self.buffer@, row: self.row as nat, col: self.column as nat }
    }
}

/// Flat offset of line `r`'s first character, found by scanning across the
/// rows above it, each ending at a separator.
fn line_start_at(buffer: &Vec<char>, r: usize) -> (start: usize)
    requires
        r < line_count(buffer@),
    ensures
        start == line_start(buffer@, r as nat),
{
    let ghost s = buffer@;
    let mut start: usize = 0;
    let mut k: usize = 0;
    while k < r
        invariant
            k <= r,
            r < line_count(s),
            s == buffer@,
            start == line_start(s, k as nat),
        decreases r - k,
    {
        proof {
            lemma_line_structure(s, k as nat);
        }
        let mut i: usize = start;
        while buffer[i] != '\n'
            invariant
                s == buffer@,
                buffer.len() == s.len(),
                line_start(s, k as nat) <= i,
                i <= line_start(s, k as nat) + line_len(s, k as nat),
                line_start(s, k as nat) + line_len(s, k as nat) < s.len(),
                s[(line_start(s, k as nat) + line_len(s, k as nat)) as int] == '\n',
                forall|j: int|
                    line_start(s, k as nat) <= j < line_start(s, k as nat) + line_len(
                        s,
                        k as nat,
                    ) ==> s[j] != '\n',
            decreases line_start(s, k as nat) + line_len(s, k as nat) - i,
        {
            i = i + 1;
        }
        start = i + 1;
        k = k + 1;
        proof {
            lemma_line_structure(s, (k - 1) as nat);
        }
    }
    start
}

/// Length of line `r`, found by scanning to the next separator or the end.
fn line_len_at(buffer: &Vec<char>, r: usize) -> (l: usize)
    requires
        r < line_count(buffer@),
    ensures
        l == line_len(buffer@, r as nat),
{
    let ghost s = buffer@;
    let start = line_start_at(buffer, r);
    proof {
        lemma_line_structure(s, r as nat);
    }
    let mut i: usize = start;
    while i < buffer.len() && buffer[i] != '\n'
        invariant
            s == buffer@,
            start == line_start(s, r as nat),
            start <= i,
            i <= start + line_len(s, r as nat),
            start + line_len(s, r as nat) <= s.len(),
            start + line_len(s, r as nat) < s.len() ==> s[(start + line_len(s, r as nat)) as int]
                == '\n',
            forall|j: int| start <= j < start + line_len(s, r as nat) ==> s[j] != '\n',
        decreases s.len() - i,
    {
        i = i + 1;
    }
    i - start
}

/// Number of separators in the buffer: the line count less one.
fn newline_count(buffer: &Vec<char>) -> (n: usize)
    ensures
        n == line_count(buffer@) - 1,
{
    let ghost s = buffer@;
    proof {
        lemma_skip0(s);
    }
    let mut n: usize = 0;
    let mut i: usize = 0;
    while i < buffer.len()
        invariant
            s == buffer@,
            n <= i <= s.len(),
            line_count(s) == n + line_count(s.skip(i as int)),
        decreases s.len() - i,
    {
        proof {
            lemma_skip_skip(s, i as int, 1);
            assert(s.skip(i as int)[0] == s[i as int]);
        }
        if buffer[i] == '\n' {
            n = n + 1;
        }
        i = i + 1;
    }
    proof {
        assert(s.skip(s.len() as int).len() == 0);
    }
    n
}

impl EditState {
    /// The documented invariant: the cursor addresses an existing row, at a
    /// column no greater than that row's length.
    pub open spec fn wf(self) -> bool {
        model_ok(self@)
    }

    /// An empty buffer with the cursor at the origin.
    pub fn new() -> (r: EditState)
        ensures
            r.wf(),
            r@.text == Seq::<char>::empty(),
            r@.row == 0,
            r@.col == 0,
    {
        let v: Vec<char> = Vec::new();
        proof {
            lemma_skip0(v@);
        }
        EditState { buffer: v, row: 0, column: 0 }
    }

    /// A buffer holding the given text, the cursor reset to the origin.
    pub fn from_text(text: Vec<char>) -> (r: EditState)
        ensures
            r.wf(),
            r@.text == text@,
            r@.row == 0,
            r@.col == 0,
    {
        proof {
            lemma_line_count_pos(text@);
            lemma_skip0(text@);
        }
        EditState { buffer: text, row: 0, column: 0 }
    }

    /// The cursor's flat offset: the sum of the lengths of the rows above,
    /// each plus one separator, plus the column.
    pub fn cursor_offset(&self) -> (off: usize)
        requires
            self.wf(),
        ensures
            off == offset_of(self@.text, self@.row, self@.col),
    {
        proof {
            lemma_line_structure(self.buffer@, self.row as nat);
            assert(line_start(self.buffer@, self.row as nat) + line_len(self.buffer@, self.row as nat)
                <= self.buffer.len());
        }
        line_start_at(&self.buffer, self.row) + self.column
    }

    /// Splice `c` at the cursor's offset and advance the column by one.
    pub fn insert_char(&mut self, c: char)
        requires
            old(self).wf(),
            c != '\n',
        ensures
            final(self).wf(),
            final(self)@ == insert_char_m(old(self)@, c),
    {
        proof {
            lemma_line_structure(self.buffer@, self.row as nat);
            assert(line_start(self.buffer@, self.row as nat) + line_len(self.buffer@, self.row as nat)
                <= self.buffer.len());
        }
        let off = line_start_at(&self.buffer, self.row) + self.column;
        self.buffer.insert(off, c);
        proof {
            lemma_insert_char(old(self).buffer@, old(self).row as nat, old(self).column as nat, c);
            assert(self.buffer.len() == old(self).buffer@.len() + 1);
        }
        self.column = self.column + 1;
    }

    /// Splice the separator at the cursor's offset: the current row is split
    /// and the cursor moves to the start of the new row below.
    pub fn insert_newline(&mut self)
        requires
            old(self).wf(),
        ensures
            final(self).wf(),
            final(self)@ == insert_newline_m(old(self)@),
    {
        proof {
            lemma_line_structure(self.buffer@, self.row as nat);
            assert(line_start(self.buffer@, self.row as nat) + line_len(self.buffer@, self.row as nat)
                <= self.buffer.len());
        }
        let off = line_start_at(&self.buffer, self.row) + self.column;
        self.buffer.insert(off, '\n');
        proof {
            lemma_insert_newline(old(self).buffer@, old(self).row as nat, old(self).column as nat);
            lemma_line_count_le(old(self).buffer@);
            assert(self.buffer.len() == old(self).buffer@.len() + 1);
        }
        self.row = self.row + 1;
        self.column = 0;
    }

    /// Remove the character just before the cursor. Within a row this takes
    /// the previous character and steps the column back; at a row's start it
    /// removes the separator above and joins the row onto the previous one,
    /// the cursor landing on the junction; at (0, 0) nothing happens.
    pub fn delete_before_cursor(&mut self)
        requires
            old(self).wf(),
        ensures
            final(self).wf(),
            final(self)@ == delete_m(old(self)@),
    {
        if self.column > 0 {
            proof {
                lemma_line_structure(self.buffer@, self.row as nat);
                assert(line_start(self.buffer@, self.row as nat) + line_len(self.buffer@, self.row as nat)
                    <= self.buffer.len());
            }
            let off = line_start_at(&self.buffer, self.row) + self.column;
            proof {
                lemma_remove_in_line(
                    old(self).buffer@,
                    old(self).row as nat,
                    old(self).column as nat,
                );
            }
            self.buffer.remove(off - 1);
            self.column = self.column - 1;
        } else if self.row > 0 {
            proof {
                lemma_line_structure(self.buffer@, self.row as nat);
            }
            let start = line_start_at(&self.buffer, self.row);
            let prev_len = line_len_at(&self.buffer, self.row - 1);
            proof {
                lemma_remove_sep(old(self).buffer@, old(self).row as nat);
            }
            self.buffer.remove(start - 1);
            self.row = self.row - 1;
            self.column = prev_len;
        }
    }

    /// One column left, stopping at the row's start.
    pub fn move_left(&mut self)
        requires
            old(self).wf(),
        ensures
            final(self).wf(),
            final(self)@ == move_left_m(old(self)@),
    {
        if self.column > 0 {
            self.column = self.column - 1;
        }
    }

    /// One column right, stopping at the row's end.
    pub fn move_right(&mut self)
        requires
            old(self).wf(),
        ensures
            final(self).wf(),
            final(self)@ == move_right_m(old(self)@),
    {
        let l = line_len_at(&self.buffer, self.row);
        if self.column < l {
            self.column = self.column + 1;
        }
    }

    /// One row up, the column clamped to the destination row's length; a
    /// no-op on the first row. The column never exceeds the destination
    /// row's length.
    pub fn move_up(&mut self)
        requires
            old(self).wf(),
        ensures
            final(self).wf(),
            final(self)@ == move_up_m(old(self)@),
            final(self)@.col <= line_len(final(self)@.text, final(self)@.row),
    {
        if self.row > 0 {
            let l = line_len_at(&self.buffer, self.row - 1);
            self.row = self.row - 1;
            if self.column > l {
                self.column = l;
            }
        }
    }

    /// One row down, the column clamped to the destination row's length; a
    /// no-op on the last row. The column never exceeds the destination
    /// row's length.
    pub fn move_down(&mut self)
        requires
            old(self).wf(),
        ensures
            final(self).wf(),
            final(self)@ == move_down_m(old(self)@),
            final(self)@.col <= line_len(final(self)@.text, final(self)@.row),
    {
        let n = newline_count(&self.buffer);
        if self.row < n {
            let l = line_len_at(&self.buffer, self.row + 1);
            self.row = self.row + 1;
            if self.column > l {
                self.column = l;
            }
        }
    }
}

} // verus!
