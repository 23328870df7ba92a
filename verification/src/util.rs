//! Text utilities: line-break counting, and the line/column arithmetic
//! the position conversions are specified with.

use vstd::prelude::*;

verus! {

/// Number of `'\n'` characters in a sequence of characters.
pub open spec fn newline_count(s: Seq<char>) -> nat
    decreases s.len(),
{
    if s.len() == 0 {
        0
    } else {
        newline_count(s.drop_last()) + if s.last() == '\n' {
            1nat
        } else {
            0nat
        }
    }
}

/// Extending a prefix by one character adds that character's contribution.
pub proof fn lemma_newline_count_push(s: Seq<char>, c: char)
    ensures
        newline_count(s.push(c)) == newline_count(s) + if c == '\n' {
            1nat
        } else {
            0nat
        },
{
    assert(s.push(c).drop_last() =~= s);
}

/// Newline counting distributes over concatenation.
pub proof fn lemma_newline_count_concat(a: Seq<char>, b: Seq<char>)
    ensures
        newline_count(a + b) == newline_count(a) + newline_count(b),
    decreases b.len(),
{
    if b.len() == 0 {
        assert(a + b =~= a);
    } else {
        lemma_newline_count_concat(a, b.drop_last());
        assert((a + b).drop_last() =~= a + b.drop_last());
        assert((a + b).last() == b.last());
    }
}

/// A sequence holds at most as many line breaks as characters.
pub proof fn lemma_newline_count_le(s: Seq<char>)
    ensures
        newline_count(s) <= s.len(),
    decreases s.len(),
{
    if s.len() > 0 {
        lemma_newline_count_le(s.drop_last());
    }
}

/// A sequence splits at any midpoint into its two subranges.
pub proof fn lemma_subrange_split(s: Seq<char>, mid: int)
    requires
        0 <= mid <= s.len(),
    ensures
        s == s.subrange(0, mid) + s.subrange(mid, s.len() as int),
{
    assert(s =~= s.subrange(0, mid) + s.subrange(mid, s.len() as int));
}

/// Index of the first `'\n'` at or after `from`, or the text's length if
/// there is none.
pub open spec fn next_newline(s: Seq<char>, from: int) -> int
    decreases s.len() - from,
{
    if from < 0 || from >= s.len() {
        s.len() as int
    } else if s[from] == '\n' {
        from
    } else {
        next_newline(s, from + 1)
    }
}

/// Offset at which the given zero-based line starts: offset 0 for line 0,
/// and one past the previous line's terminating `'\n'` otherwise.
pub open spec fn line_start(s: Seq<char>, line: int) -> int
    decreases line,
{
    if line <= 0 {
        0
    } else {
        next_newline(s, line_start(s, line - 1)) + 1
    }
}

/// The zero-based line an offset falls on: the number of `'\n'` before it.
pub open spec fn line_of(s: Seq<char>, off: int) -> int {
    newline_count(s.subrange(0, off)) as int
}

/// The zero-based column of an offset: its distance from its line's start.
pub open spec fn column_of(s: Seq<char>, off: int) -> int {
    off - line_start(s, line_of(s, off))
}

/// The offset a (line, column) position denotes: the column'th character
/// of the line when the line exists and is long enough (the position one
/// past the line's last character, on its `'\n'`, counts), and the text's
/// length otherwise.
pub open spec fn position_offset(s: Seq<char>, line: int, col: int) -> int {
    if line > newline_count(s) {
        s.len() as int
    } else {
        let ls = line_start(s, line);
        let le = next_newline(s, ls);
        if col <= le - ls {
            ls + col
        } else {
            s.len() as int
        }
    }
}

/// What `next_newline` returns: an in-range result marks a `'\n'`, and no
/// `'\n'` occurs before it.
pub proof fn lemma_next_newline_props(s: Seq<char>, from: int)
    requires
        0 <= from <= s.len(),
    ensures
        from <= next_newline(s, from) <= s.len(),
        next_newline(s, from) < s.len() ==> s[next_newline(s, from)] == '\n',
        forall|j: int| from <= j < next_newline(s, from) ==> s[j] != '\n',
    decreases s.len() - from,
{
    if from < s.len() && s[from] != '\n' {
        lemma_next_newline_props(s, from + 1);
    }
}

/// A stretch without `'\n'` pushes `next_newline` past it.
pub proof fn lemma_next_newline_ge(s: Seq<char>, from: int, x: int)
    requires
        0 <= from <= x <= s.len(),
        forall|j: int| from <= j < x ==> s[j] != '\n',
    ensures
        next_newline(s, from) >= x,
    decreases x - from,
{
    if from < x {
        assert(s[from] != '\n');
        lemma_next_newline_ge(s, from + 1, x);
    } else {
        lemma_next_newline_props(s, from);
    }
}

/// The first `'\n'` at or after `from` is found exactly.
pub proof fn lemma_next_newline_found(s: Seq<char>, from: int, i: int)
    requires
        0 <= from <= i < s.len(),
        s[i] == '\n',
        forall|j: int| from <= j < i ==> s[j] != '\n',
    ensures
        next_newline(s, from) == i,
    decreases i - from,
{
    if from < i {
        lemma_next_newline_found(s, from + 1, i);
    }
}

/// A stretch of text without `'\n'` has no line breaks.
pub proof fn lemma_newline_count_none(s: Seq<char>, a: int, b: int)
    requires
        0 <= a <= b <= s.len(),
        forall|j: int| a <= j < b ==> s[j] != '\n',
    ensures
        newline_count(s.subrange(a, b)) == 0,
    decreases b - a,
{
    if a < b {
        lemma_newline_count_none(s, a, b - 1);
        assert(s.subrange(a, b).drop_last() =~= s.subrange(a, b - 1));
        assert(s.subrange(a, b).last() == s[b - 1]);
    }
}

/// Counting line breaks in a prefix never exceeds counting them in the
/// whole text.
pub proof fn lemma_newline_count_prefix_le(s: Seq<char>, off: int)
    requires
        0 <= off <= s.len(),
    ensures
        newline_count(s.subrange(0, off)) <= newline_count(s),
{
    lemma_subrange_split(s, off);
    lemma_newline_count_concat(s.subrange(0, off), s.subrange(off, s.len() as int));
}

/// Where a line starts: within the text, preceded by a `'\n'` (except
/// line 0), and with exactly `line` breaks before it.
pub proof fn lemma_line_start_props(s: Seq<char>, line: int)
    requires
        0 <= line <= newline_count(s),
    ensures
        0 <= line_start(s, line) <= s.len(),
        newline_count(s.subrange(0, line_start(s, line))) == line,
    decreases line,
{
    if line == 0 {
        assert(s.subrange(0, 0) =~= Seq::<char>::empty());
    } else {
        lemma_line_start_props(s, line - 1);
        let ls = line_start(s, line - 1);
        lemma_next_newline_props(s, ls);
        let nn = next_newline(s, ls);
        lemma_newline_count_none(s, ls, nn);
        if nn == s.len() {
            lemma_subrange_split(s, ls);
            lemma_newline_count_concat(s.subrange(0, ls), s.subrange(ls, s.len() as int));
            assert(s.subrange(ls, s.len() as int) == s.subrange(ls, nn));
            assert(false);
        }
        assert(s.subrange(0, nn + 1) =~= s.subrange(0, ls) + s.subrange(ls, nn + 1));
        lemma_newline_count_concat(s.subrange(0, ls), s.subrange(ls, nn + 1));
        assert(s.subrange(ls, nn + 1).drop_last() =~= s.subrange(ls, nn));
        assert(s.subrange(ls, nn + 1).last() == s[nn]);
    }
}

/// Offsets within a line's span map back to that line and to the column
/// that reached them.
pub proof fn lemma_position_roundtrip(s: Seq<char>, line: int, col: int)
    requires
        0 <= line <= newline_count(s),
        0 <= col,
        line_start(s, line) + col <= next_newline(s, line_start(s, line)),
        line_start(s, line) + col <= s.len(),
    ensures
        line_of(s, line_start(s, line) + col) == line,
        column_of(s, line_start(s, line) + col) == col,
{
    let ls = line_start(s, line);
    lemma_line_start_props(s, line);
    lemma_next_newline_props(s, ls);
    let off = ls + col;
    assert(s.subrange(0, off) =~= s.subrange(0, ls) + s.subrange(ls, off));
    lemma_newline_count_concat(s.subrange(0, ls), s.subrange(ls, off));
    lemma_newline_count_none(s, ls, off);
}

/// Counts the number of line breaks (`'\n'` characters) in the given text.
pub fn count_line_breaks(text: &str) -> (r: usize)
    ensures
        r == newline_count(text@),
{
    let n: usize = text.unicode_len();
    let mut count: usize = 0;
    let mut i: usize = 0;
    while i < n
        invariant
            i <= n,
            n == text@.len(),
            count <= i,
            count == newline_count(text@.subrange(0, i as int)),
        decreases n - i,
    {
        let c = text.get_char(i);
        proof {
            lemma_newline_count_push(text@.subrange(0, i as int), text@[i as int]);
            assert(text@.subrange(0, i as int).push(text@[i as int]) =~= text@.subrange(
                0,
                i as int + 1,
            ));
        }
        if c == '\n' {
            count = count + 1;
        }
        i = i + 1;
    }
    proof {
        assert(text@.subrange(0, n as int) =~= text@);
    }
    count
}

} // verus!
