//! Texts: how they begin, and the positions in them.

use crate::model::PointUtf16;
use crate::order::chars_of;
use vstd::prelude::*;

verus! {

/// Tells whether a text begins with another.
pub fn has_prefix(text: &str, prefix: &str) -> (r: bool)
    ensures
        r == prefix@.is_prefix_of(text@),
{
    let t = chars_of(text);
    let p = chars_of(prefix);
    if p.len() > t.len() {
        return false;
    }
    for i in 0..p.len()
        invariant
            t@ == text@,
            p@ == prefix@,
            p@.len() <= t@.len(),
            forall|j: int| 0 <= j < i ==> p@[j] == t@[j],
    {
        if p[i] != t[i] {
            assert(prefix@[i as int] != text@.subrange(0, prefix@.len() as int)[i as int]);
            return false;
        }
    }
    assert(prefix@ =~= text@.subrange(0, prefix@.len() as int));
    true
}

/// What is left of a text that begins with another.
pub fn without_prefix<'a>(text: &'a str, prefix: &str) -> (r: Option<&'a str>)
    ensures
        match r {
            Some(rest) => prefix@.is_prefix_of(text@) && rest@ == text@.skip(prefix@.len() as int),
            None => !prefix@.is_prefix_of(text@),
        },
{
    if has_prefix(text, prefix) {
        let n: usize = chars_of(text).len();
        let m: usize = chars_of(prefix).len();
        let rest = text.substring_char(m, n);
        assert(rest@ =~= text@.skip(prefix@.len() as int));
        Some(rest)
    } else {
        None
    }
}

/// A text with every occurrence of a pattern replaced, from the left on.
pub open spec fn replaced(text: Seq<char>, pattern: Seq<char>, with: Seq<char>) -> Seq<char>
    decreases text.len(),
{
    if text.len() == 0 || pattern.len() == 0 {
        text
    } else if pattern.is_prefix_of(text) {
        with + replaced(text.skip(pattern.len() as int), pattern, with)
    } else {
        seq![text[0]] + replaced(text.skip(1), pattern, with)
    }
}

/// Replaces every occurrence of a pattern, from the left on.
pub fn replace_all(text: &str, pattern: &str, with: &str) -> (r: String)
    requires
        pattern@.len() > 0,
    ensures
        r@ == replaced(text@, pattern@, with@),
{
    let mut r = String::new();
    let mut rest = text;
    proof {
        reveal_strlit("");
        assert(r@ =~= Seq::<char>::empty());
        assert(r@ + replaced(text@, pattern@, with@) =~= replaced(text@, pattern@, with@));
    }
    let mut n: usize = chars_of(text).len();
    while n > 0
        invariant
            pattern@.len() > 0,
            n == rest@.len(),
            r@ + replaced(rest@, pattern@, with@) == replaced(text@, pattern@, with@),
        decreases n,
    {
        let ghost before = r@;
        let ghost current = rest@;
        match without_prefix(rest, pattern) {
            Some(tail) => {
                r.append(with);
                rest = tail;
                proof {
                    let more = replaced(tail@, pattern@, with@);
                    assert(before + (with@ + more) =~= (before + with@) + more);
                }
            },
            None => {
                let first = rest.substring_char(0, 1);
                r.append(first);
                rest = rest.substring_char(1, n);
                proof {
                    assert(current.subrange(0, 1) =~= seq![current[0]]);
                    assert(current.subrange(1, n as int) =~= current.skip(1));
                    let more = replaced(current.skip(1), pattern@, with@);
                    assert(before + (seq![current[0]] + more) =~= (before + seq![current[0]]) + more);
                }
            },
        }
        n = chars_of(rest).len();
    }
    assert(r@ + replaced(rest@, pattern@, with@) =~= r@);
    r
}

/// How many UTF-16 units a character takes.
pub open spec fn units(c: char) -> int {
    if (c as int) >= 0x10000 {
        2
    } else {
        1
    }
}

/// The row of the position before the character at `n`.
pub open spec fn row_at(text: Seq<char>, n: int) -> int
    decreases n,
{
    if n <= 0 {
        0
    } else if text[n - 1] == '\n' {
        row_at(text, n - 1) + 1
    } else {
        row_at(text, n - 1)
    }
}

/// The column of the position before the character at `n`, in UTF-16 units.
pub open spec fn column_at(text: Seq<char>, n: int) -> int
    decreases n,
{
    if n <= 0 || text[n - 1] == '\n' {
        0
    } else {
        column_at(text, n - 1) + units(text[n - 1])
    }
}

/// The offset in characters of a row and a column that are counted from `n` on. What lies beyond
/// the end of a row is taken for its end, and what lies beyond the last row for the end of the
/// text. In the middle of a character the offset is that before or after the character.
pub open spec fn offset_from(text: Seq<char>, n: int, row: int, column: int, after: bool) -> int
    decreases text.len() - n,
{
    if n < 0 || n >= text.len() {
        text.len() as int
    } else if row > 0 {
        if text[n] == '\n' {
            offset_from(text, n + 1, row - 1, column, after)
        } else {
            offset_from(text, n + 1, row, column, after)
        }
    } else if column <= 0 || text[n] == '\n' {
        n
    } else if units(text[n]) <= column {
        offset_from(text, n + 1, row, column - units(text[n]), after)
    } else if after {
        n + 1
    } else {
        n
    }
}

/// The offset that a point is clipped to.
pub open spec fn clipped(text: Seq<char>, p: PointUtf16, after: bool) -> int {
    offset_from(text, 0, p.row as int, p.column as int, after)
}

/// Rows and columns of the text can be counted with 32 bits.
pub open spec fn fits_points(text: Seq<char>) -> bool {
    text.len() <= 0x7fff_ffff
}

/// The point at an offset.
pub open spec fn point_at(text: Seq<char>, n: int) -> PointUtf16 {
    PointUtf16 { row: row_at(text, n) as u32, column: column_at(text, n) as u32 }
}

pub proof fn lemma_offset_bound(text: Seq<char>, n: int, row: int, column: int, after: bool)
    requires
        0 <= n <= text.len(),
    ensures
        n <= offset_from(text, n, row, column, after) <= text.len(),
    decreases text.len() - n,
{
    if n < text.len() {
        if row > 0 {
            if text[n] == '\n' {
                lemma_offset_bound(text, n + 1, row - 1, column, after);
            } else {
                lemma_offset_bound(text, n + 1, row, column, after);
            }
        } else if column > 0 && text[n] != '\n' && units(text[n]) <= column {
            lemma_offset_bound(text, n + 1, row, column - units(text[n]), after);
        }
    }
}

pub proof fn lemma_point_bound(text: Seq<char>, n: int)
    requires
        0 <= n <= text.len(),
    ensures
        0 <= row_at(text, n) <= n,
        0 <= column_at(text, n) <= 2 * n,
    decreases n,
{
    if n > 0 {
        lemma_point_bound(text, n - 1);
    }
}

/// A later position has a greater point.
pub proof fn lemma_points_ascend(text: Seq<char>, a: int, b: int)
    requires
        0 <= a < b <= text.len(),
    ensures
        row_at(text, a) < row_at(text, b) || (row_at(text, a) == row_at(text, b) && column_at(
            text,
            a,
        ) < column_at(text, b)),
    decreases b - a,
{
    lemma_point_bound(text, b - 1);
    if a < b - 1 {
        lemma_points_ascend(text, a, b - 1);
    }
}

proof fn lemma_offset_passes(text: Seq<char>, m: int, n: int, k: int, after: bool)
    requires
        0 <= m <= n <= text.len(),
        k >= 0,
    ensures
        ({
            let rows = row_at(text, n) - row_at(text, m);
            let columns = if rows > 0 {
                column_at(text, n)
            } else {
                column_at(text, n) - column_at(text, m)
            };
            offset_from(text, m, rows, columns + k, after) == offset_from(text, n, 0, k, after)
        }),
    decreases n - m,
{
    if m < n {
        lemma_offset_passes(text, m + 1, n, k, after);
        lemma_points_ascend(text, m, m + 1);
        lemma_point_bound(text, m);
        lemma_point_bound(text, n);
        if m + 1 < n {
            lemma_points_ascend(text, m + 1, n);
        }
    }
}

/// A column counted from a position leads to the same offset as one counted from its point.
pub proof fn lemma_clip_beyond(text: Seq<char>, n: int, k: int, after: bool)
    requires
        0 <= n <= text.len(),
        k >= 0,
    ensures
        offset_from(text, 0, row_at(text, n), column_at(text, n) + k, after) == offset_from(
            text,
            n,
            0,
            k,
            after,
        ),
{
    lemma_offset_passes(text, 0, n, k, after);
}

/// Clipping keeps a point that is a position of the text.
pub proof fn clipping_keeps_positions(text: Seq<char>, n: int, after: bool)
    requires
        fits_points(text),
        0 <= n <= text.len(),
    ensures
        clipped(text, point_at(text, n), after) == n,
{
    lemma_clip_beyond(text, n, 0, after);
    lemma_point_bound(text, n);
}

/// The characters of a text.
#[derive(Debug)]
pub struct LineText {
    chars: Vec<char>,
}

impl View for LineText {
    type V = Seq<char>;

    closed spec fn view(&self) -> Seq<char> {
        self.chars@
    }
}

fn is_astral(c: char) -> (r: bool)
    ensures
        r == (c as int >= 0x10000),
{
    (c as u32) >= 0x10000
}

impl LineText {
    pub fn new(text: &str) -> (r: Self)
        ensures
            r@ == text@,
    {
        LineText { chars: chars_of(text) }
    }

    pub fn len(&self) -> (r: usize)
        ensures
            r == self@.len(),
    {
        self.chars.len()
    }

    /// The offset that a point is clipped to.
    pub fn clip(&self, p: PointUtf16, after: bool) -> (r: usize)
        ensures
            r == clipped(self@, p, after),
            r <= self@.len(),
    {
        let ghost text = self@;
        let mut n: usize = 0;
        let mut row: u32 = p.row;
        let mut column: u32 = p.column;
        proof {
            lemma_offset_bound(text, 0, p.row as int, p.column as int, after);
        }
        while n < self.chars.len()
            invariant
                text == self.chars@,
                n <= text.len(),
                clipped(text, p, after) == offset_from(text, n as int, row as int, column as int, after),
                clipped(text, p, after) <= text.len(),
            decreases text.len() - n,
        {
            let c: char = self.chars[n];
            if row > 0 {
                if c == '\n' {
                    row = row - 1;
                }
                n = n + 1;
            } else if column == 0 || c == '\n' {
                return n;
            } else {
                let width: u32 = if is_astral(c) {
                    2
                } else {
                    1
                };
                if width <= column {
                    column = column - width;
                    n = n + 1;
                } else if after {
                    return n + 1;
                } else {
                    return n;
                }
            }
        }
        n
    }

    /// The point at an offset.
    pub fn point(&self, n: usize) -> (r: PointUtf16)
        requires
            n <= self@.len(),
            fits_points(self@),
        ensures
            r.row == row_at(self@, n as int),
            r.column == column_at(self@, n as int),
            r == point_at(self@, n as int),
    {
        let mut row: u32 = 0;
        let mut column: u32 = 0;
        for i in 0..n
            invariant
                n <= self.chars@.len(),
                fits_points(self@),
                self@ == self.chars@,
                row == row_at(self@, i as int),
                column == column_at(self@, i as int),
        {
            proof {
                lemma_point_bound(self@, i as int);
            }
            let c: char = self.chars[i];
            if c == '\n' {
                row = row + 1;
                column = 0;
            } else if is_astral(c) {
                column = column + 2;
            } else {
                column = column + 1;
            }
        }
        PointUtf16 { row, column }
    }
}

/// The text between two offsets.
pub fn slice_of(text: &str, from: usize, to: usize) -> (r: String)
    requires
        from <= to <= text@.len(),
    ensures
        r@ == text@.subrange(from as int, to as int),
{
    text.substring_char(from, to).to_owned()
}

/// A line break leads to the start of the next row. Any other character leads further in its row: by
/// two units if it lies beyond the basic plane of Unicode, and else by one.
pub proof fn points_advance_with_the_text(text: Seq<char>, n: int)
    requires
        0 <= n < text.len(),
    ensures
        row_at(text, 0) == 0,
        column_at(text, 0) == 0,
        text[n] == '\n' ==> row_at(text, n + 1) == row_at(text, n) + 1 && column_at(text, n + 1)
            == 0,
        text[n] != '\n' ==> row_at(text, n + 1) == row_at(text, n),
        text[n] != '\n' && (text[n] as int) < 0x10000 ==> column_at(text, n + 1) == column_at(
            text,
            n,
        ) + 1,
        text[n] != '\n' && (text[n] as int) >= 0x10000 ==> column_at(text, n + 1) == column_at(
            text,
            n,
        ) + 2,
{
}

/// What lies beyond the end of a row is taken for its end.
pub proof fn columns_are_clipped_to_their_row(text: Seq<char>, n: int, p: PointUtf16, after: bool)
    requires
        0 <= n <= text.len(),
        n == text.len() || text[n] == '\n',
        p.row == row_at(text, n),
        p.column >= column_at(text, n),
    ensures
        clipped(text, p, after) == n,
{
    lemma_clip_beyond(text, n, p.column - column_at(text, n), after);
}

/// A point in the middle of a character is taken for the place before or after it.
pub proof fn characters_are_not_split(text: Seq<char>, n: int, p: PointUtf16, after: bool)
    requires
        0 <= n < text.len(),
        (text[n] as int) >= 0x10000,
        p.row == row_at(text, n),
        p.column == column_at(text, n) + 1,
    ensures
        clipped(text, p, after) == (if after {
            n + 1
        } else {
            n
        }),
{
    lemma_clip_beyond(text, n, 1, after);
}

proof fn lemma_rows_are_clipped(text: Seq<char>, n: int, row: int, column: int, after: bool)
    requires
        0 <= n <= text.len(),
        row > row_at(text, text.len() as int) - row_at(text, n),
        row > 0,
    ensures
        offset_from(text, n, row, column, after) == text.len(),
    decreases text.len() - n,
{
    if n < text.len() {
        lemma_rows_do_not_fall(text, n + 1, text.len() as int);
        if text[n] == '\n' {
            lemma_rows_are_clipped(text, n + 1, row - 1, column, after);
        } else {
            lemma_rows_are_clipped(text, n + 1, row, column, after);
        }
    }
}

proof fn lemma_rows_do_not_fall(text: Seq<char>, a: int, b: int)
    requires
        0 <= a <= b <= text.len(),
    ensures
        row_at(text, a) <= row_at(text, b),
{
    if a < b {
        lemma_points_ascend(text, a, b);
    }
}

/// What lies beyond the last row is taken for the end of the text.
pub proof fn rows_are_clipped_to_the_text(text: Seq<char>, p: PointUtf16, after: bool)
    requires
        p.row > row_at(text, text.len() as int),
    ensures
        clipped(text, p, after) == text.len(),
{
    lemma_rows_do_not_fall(text, 0, text.len() as int);
    lemma_rows_are_clipped(text, 0, p.row as int, p.column as int, after);
}

/// A text in which a pattern does not occur stays as it is.
pub proof fn texts_without_the_pattern_stay(text: Seq<char>, pattern: Seq<char>, with: Seq<char>)
    requires
        forall|i: int| 0 <= i < text.len() ==> !pattern.is_prefix_of(#[trigger] text.skip(i)),
    ensures
        replaced(text, pattern, with) == text,
    decreases text.len(),
{
    if text.len() > 0 && pattern.len() > 0 {
        assert(text.skip(0) =~= text);
        let rest = text.skip(1);
        assert forall|i: int| 0 <= i < rest.len() implies !pattern.is_prefix_of(
            #[trigger] rest.skip(i),
        ) by {
            assert(rest.skip(i) =~= text.skip(i + 1));
        }
        texts_without_the_pattern_stay(rest, pattern, with);
        assert(seq![text[0]] + rest =~= text);
    }
}

/// The first occurrence of a pattern gives way to the replacement, what stands before it stays, and
/// what follows it is treated likewise.
pub proof fn occurrences_are_replaced(
    before: Seq<char>,
    pattern: Seq<char>,
    rest: Seq<char>,
    with: Seq<char>,
)
    requires
        pattern.len() > 0,
        forall|i: int|
            0 <= i < before.len() ==> !pattern.is_prefix_of(
                #[trigger] (before + pattern + rest).skip(i),
            ),
    ensures
        replaced(before + pattern + rest, pattern, with) == before + with + replaced(
            rest,
            pattern,
            with,
        ),
    decreases before.len(),
{
    let text = before + pattern + rest;
    if before.len() == 0 {
        assert(text.subrange(0, pattern.len() as int) =~= pattern);
        assert(pattern.is_prefix_of(text));
        assert(text.skip(pattern.len() as int) =~= rest);
        assert(before + with =~= with);
    } else {
        assert(text.skip(0) =~= text);
        let tail = before.skip(1);
        assert(text.skip(1) =~= tail + pattern + rest);
        assert forall|i: int| 0 <= i < tail.len() implies !pattern.is_prefix_of(
            #[trigger] (tail + pattern + rest).skip(i),
        ) by {
            assert((tail + pattern + rest).skip(i) =~= text.skip(i + 1));
        }
        occurrences_are_replaced(tail, pattern, rest, with);
        assert(seq![text[0]] + (tail + with + replaced(rest, pattern, with)) =~= before + with
            + replaced(rest, pattern, with));
    }
}

} // verus!
