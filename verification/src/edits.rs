//! Turning the edits that a language server proposes into edits of a buffer.

use crate::buffer_diagnostics::{meant_text, texts_after};
use crate::diagnostics::TextRange;
use crate::ids::LanguageServerId;
use crate::model::{Buffer, PointUtf16, TextSnapshot};
use crate::order::{chars_of, Key};
use crate::outside::{
    change_views, diff_lines, line_diff, new_side, old_side, LineChange, LineChangeView, LineTag,
};
use crate::project::{Project, ProjectError};
use crate::snapshots::snapshot_map;
use crate::sort::{sort_by_key, stable_sort};
use crate::text::{
    clipped, clipping_keeps_positions, column_at, fits_points, lemma_clip_beyond,
    lemma_offset_bound, lemma_point_bound, lemma_points_ascend, point_at, row_at, slice_of, units,
    LineText,
};
use vstd::prelude::*;
use vstd::seq_lib::to_multiset_contains;

verus! {

/// To which side a position clings when text is inserted at it.
#[derive(Clone, Copy, Debug, PartialEq, Eq, Structural)]
pub enum Bias {
    Left,
    Right,
}

/// A position in a text, counted in characters, that moves with the text around it.
#[derive(Clone, Copy, Debug, PartialEq, Eq, Structural)]
pub struct Anchor {
    pub offset: usize,
    pub bias: Bias,
}

/// A piece of text that takes the place of what lies between two positions.
#[derive(Debug, PartialEq, Eq)]
pub struct TextEdit {
    pub start: Anchor,
    pub end: Anchor,
    pub new_text: String,
}

/// What an edit stands for.
pub struct EditView {
    pub start: int,
    pub start_bias: Bias,
    pub end: int,
    pub end_bias: Bias,
    pub new_text: Seq<char>,
}

impl View for TextEdit {
    type V = EditView;

    open spec fn view(&self) -> EditView {
        EditView {
            start: self.start.offset as int,
            start_bias: self.start.bias,
            end: self.end.offset as int,
            end_bias: self.end.bias,
            new_text: self.new_text@,
        }
    }
}

pub open spec fn edit_views(edits: Seq<TextEdit>) -> Seq<EditView> {
    edits.map_values(|e: TextEdit| e@)
}

/// The edit that replaces what lies between two offsets.
pub open spec fn replacing(start: int, end: int, new_text: Seq<char>) -> EditView {
    EditView { start, start_bias: Bias::Right, end, end_bias: Bias::Left, new_text }
}

/// The edit that inserts at an offset.
pub open spec fn inserting(offset: int, new_text: Seq<char>) -> EditView {
    EditView {
        start: offset,
        start_bias: Bias::Right,
        end: offset,
        end_bias: Bias::Right,
        new_text,
    }
}

/// Edits, while changed lines are gone through.
pub struct DiffState {
    pub edits: Seq<EditView>,
    /// Where the next line of the old text begins.
    pub offset: int,
    /// The last line was kept, so that the next change needs an edit of its own.
    pub moved: bool,
}

impl DiffState {
    pub open spec fn after(self, change: LineChangeView) -> DiffState {
        let n = change.text.len() as int;
        match change.tag {
            LineTag::Equal => DiffState { offset: self.offset + n, moved: true, ..self },
            LineTag::Delete => DiffState {
                edits: if self.moved {
                    self.edits.push(replacing(self.offset, self.offset + n, Seq::empty()))
                } else {
                    self.edits.drop_last().push(
                        EditView {
                            end: self.offset + n,
                            end_bias: Bias::Left,
                            ..self.edits.last()
                        },
                    )
                },
                offset: self.offset + n,
                moved: false,
            },
            LineTag::Insert => DiffState {
                edits: if self.moved {
                    self.edits.push(inserting(self.offset, change.text))
                } else {
                    self.edits.drop_last().push(
                        EditView {
                            new_text: self.edits.last().new_text + change.text,
                            ..self.edits.last()
                        },
                    )
                },
                moved: false,
                ..self
            },
        }
    }
}

/// The edits for changed lines, of which the first begins at `offset`.
pub open spec fn diffed(changes: Seq<LineChangeView>, offset: int) -> DiffState
    decreases changes.len(),
{
    if changes.len() == 0 {
        DiffState { edits: Seq::empty(), offset, moved: true }
    } else {
        diffed(changes.drop_last(), offset).after(changes.last())
    }
}

proof fn lemma_diffed(changes: Seq<LineChangeView>, offset: int)
    ensures
        diffed(changes, offset).offset == offset + old_side(changes).len(),
        !diffed(changes, offset).moved ==> diffed(changes, offset).edits.len() > 0,
    decreases changes.len(),
{
    if changes.len() > 0 {
        lemma_diffed(changes.drop_last(), offset);
    }
}

proof fn lemma_old_side_prefix(changes: Seq<LineChangeView>, n: int)
    requires
        0 <= n <= changes.len(),
    ensures
        old_side(changes.take(n)).len() <= old_side(changes).len(),
    decreases changes.len(),
{
    if n < changes.len() {
        lemma_old_side_prefix(changes.drop_last(), n);
        assert(changes.drop_last().take(n) =~= changes.take(n));
    } else {
        assert(changes.take(n) =~= changes);
    }
}

/// The edits that make changed lines, of which the first begins at `start`. Changes that follow
/// each other without a line that is kept are one edit.
pub fn edits_for_changes(start: usize, changes: &Vec<LineChange>) -> (r: Vec<TextEdit>)
    requires
        start + old_side(change_views(changes@)).len() <= usize::MAX,
    ensures
        edit_views(r@) == diffed(change_views(changes@), start as int).edits,
{
    let ghost views = change_views(changes@);
    let mut edits: Vec<TextEdit> = Vec::new();
    let mut offset: usize = start;
    let mut moved_since_edit = true;
    assert(views.take(0) =~= Seq::empty());
    assert(edit_views(edits@) =~= Seq::empty());
    for i in 0..changes.len()
        invariant
            views == change_views(changes@),
            start + old_side(views).len() <= usize::MAX,
            ({
                let s = diffed(views.take(i as int), start as int);
                &&& edit_views(edits@) == s.edits
                &&& offset == s.offset
                &&& moved_since_edit == s.moved
            }),
    {
        let ghost s = diffed(views.take(i as int), start as int);
        let change = &changes[i];
        let len: usize = chars_of(change.text.as_str()).len();
        proof {
            assert(views.take(i + 1).drop_last() =~= views.take(i as int));
            assert(views.take(i + 1).last() == change@);
            lemma_diffed(views.take(i as int), start as int);
            lemma_diffed(views.take(i + 1), start as int);
            lemma_old_side_prefix(views, i + 1);
        }
        match change.tag {
            LineTag::Equal => {
                offset = offset + len;
                moved_since_edit = true;
            },
            LineTag::Delete => {
                let end = Anchor { offset: offset + len, bias: Bias::Left };
                if moved_since_edit {
                    let edit = TextEdit {
                        start: Anchor { offset, bias: Bias::Right },
                        end,
                        new_text: String::new(),
                    };
                    proof {
                        reveal_strlit("");
                        assert(edit.new_text@ =~= Seq::<char>::empty());
                    }
                    edits.push(edit);
                    assert(edit_views(edits@) =~= s.after(change@).edits);
                } else {
                    assert(edits@.len() == s.edits.len());
                    if let Some(mut last) = edits.pop() {
                        assert(last@ == s.edits.last());
                        last.end = end;
                        edits.push(last);
                    }
                    assert(edit_views(edits@) =~= s.after(change@).edits);
                }
                offset = offset + len;
                moved_since_edit = false;
            },
            LineTag::Insert => {
                if moved_since_edit {
                    let anchor = Anchor { offset, bias: Bias::Right };
                    edits.push(
                        TextEdit { start: anchor, end: anchor, new_text: change.text.clone() },
                    );
                    assert(edit_views(edits@) =~= s.after(change@).edits);
                } else {
                    assert(edits@.len() == s.edits.len());
                    if let Some(mut last) = edits.pop() {
                        assert(last@ == s.edits.last());
                        last.new_text.append(change.text.as_str());
                        edits.push(last);
                    }
                    assert(edit_views(edits@) =~= s.after(change@).edits);
                }
                moved_since_edit = false;
            },
        }
    }
    assert(views.take(views.len() as int) =~= views);
    edits
}

/// The edits follow each other between two offsets.
pub open spec fn in_order(edits: Seq<EditView>, from: int, to: int) -> bool
    decreases edits.len(),
{
    if edits.len() == 0 {
        from <= to
    } else {
        &&& in_order(edits.drop_last(), from, edits.last().start)
        &&& edits.last().start <= edits.last().end <= to
    }
}

/// Where the last edit ends.
pub open spec fn end_of(edits: Seq<EditView>, from: int) -> int {
    if edits.len() == 0 {
        from
    } else {
        edits.last().end
    }
}

/// What the edits make of the text from `from` up to the end of the last edit.
pub open spec fn rewritten(text: Seq<char>, edits: Seq<EditView>, from: int) -> Seq<char>
    decreases edits.len(),
{
    if edits.len() == 0 {
        Seq::empty()
    } else {
        rewritten(text, edits.drop_last(), from) + text.subrange(
            end_of(edits.drop_last(), from),
            edits.last().start,
        ) + edits.last().new_text
    }
}

/// What the edits make of the text between two offsets.
pub open spec fn spelled(text: Seq<char>, edits: Seq<EditView>, from: int, to: int) -> Seq<char> {
    rewritten(text, edits, from) + text.subrange(end_of(edits, from), to)
}

/// What the edits make of a text.
pub open spec fn applied(text: Seq<char>, edits: Seq<EditView>) -> Seq<char> {
    spelled(text, edits, 0, text.len() as int)
}

proof fn lemma_in_order(edits: Seq<EditView>, from: int, to: int)
    requires
        in_order(edits, from, to),
    ensures
        from <= end_of(edits, from) <= to,
        in_order(edits, from, end_of(edits, from)),
        forall|t: int| to <= t ==> #[trigger] in_order(edits, from, t),
    decreases edits.len(),
{
    if edits.len() > 0 {
        lemma_in_order(edits.drop_last(), from, edits.last().start);
    }
}

proof fn lemma_spelled_further(text: Seq<char>, edits: Seq<EditView>, from: int, mid: int, to: int)
    requires
        0 <= from,
        in_order(edits, from, mid),
        mid <= to <= text.len(),
    ensures
        spelled(text, edits, from, to) == spelled(text, edits, from, mid) + text.subrange(mid, to),
{
    lemma_in_order(edits, from, mid);
    let e = end_of(edits, from);
    assert(text.subrange(e, to) =~= text.subrange(e, mid) + text.subrange(mid, to));
    assert(spelled(text, edits, from, to) =~= spelled(text, edits, from, mid) + text.subrange(
        mid,
        to,
    ));
}

proof fn lemma_spelled_append(
    text: Seq<char>,
    a: Seq<EditView>,
    b: Seq<EditView>,
    from: int,
    mid: int,
    to: int,
)
    requires
        0 <= from,
        in_order(a, from, mid),
        in_order(b, mid, to),
        to <= text.len(),
    ensures
        in_order(a + b, from, to),
        spelled(text, a + b, from, to) == spelled(text, a, from, mid) + spelled(text, b, mid, to),
    decreases b.len(),
{
    lemma_in_order(a, from, mid);
    lemma_in_order(b, mid, to);
    if b.len() == 0 {
        assert(a + b =~= a);
        lemma_spelled_further(text, a, from, mid, to);
        assert(spelled(text, b, mid, to) =~= text.subrange(mid, to));
    } else {
        let head = b.drop_last();
        let last = b.last();
        lemma_spelled_append(text, a, head, from, mid, last.start);
        assert((a + b).drop_last() =~= a + head);
        assert((a + b).last() == last);
        lemma_in_order(a + head, from, last.start);
        assert(spelled(text, a + b, from, to) =~= spelled(text, a + head, from, last.start)
            + last.new_text + text.subrange(last.end, to));
        assert(spelled(text, b, mid, to) =~= spelled(text, head, mid, last.start) + last.new_text
            + text.subrange(last.end, to));
        assert(spelled(text, a + b, from, to) =~= spelled(text, a, from, mid) + spelled(
            text,
            b,
            mid,
            to,
        ));
    }
}

/// The edits for changed lines make the new lines of the old ones.
pub proof fn changes_spell_the_new_text(text: Seq<char>, start: int, changes: Seq<LineChangeView>)
    requires
        0 <= start,
        start + old_side(changes).len() <= text.len(),
        text.subrange(start, start + old_side(changes).len()) == old_side(changes),
    ensures
        ({
            let d = diffed(changes, start);
            &&& in_order(d.edits, start, d.offset)
            &&& d.offset == start + old_side(changes).len()
            &&& !d.moved ==> d.edits.len() > 0 && d.edits.last().end == d.offset
            &&& spelled(text, d.edits, start, d.offset) == new_side(changes)
        }),
    decreases changes.len(),
{
    lemma_diffed(changes, start);
    let d = diffed(changes, start);
    if changes.len() == 0 {
        assert(spelled(text, d.edits, start, d.offset) =~= Seq::empty());
    } else {
        let head = changes.drop_last();
        let c = changes.last();
        let h = diffed(head, start);
        let old = old_side(changes);
        let n = old_side(head).len() as int;
        assert(text.subrange(start, start + n) =~= old_side(head)) by {
            assert forall|i: int| 0 <= i < n implies text[start + i] == old_side(head)[i] by {
                assert(old[i] == text.subrange(start, start + old.len())[i]);
            }
        }
        lemma_diffed(head, start);
        changes_spell_the_new_text(text, start, head);
        lemma_in_order(h.edits, start, h.offset);
        let made = spelled(text, h.edits, start, h.offset);
        match c.tag {
            LineTag::Equal => {
                assert(text.subrange(h.offset, d.offset) =~= c.text) by {
                    assert forall|i: int| 0 <= i < c.text.len() implies text[h.offset + i]
                        == c.text[i] by {
                        assert(old[n + i] == text.subrange(start, start + old.len())[n + i]);
                    }
                }
                lemma_spelled_further(text, h.edits, start, h.offset, d.offset);
            },
            LineTag::Delete => {
                if h.moved {
                    assert(d.edits.drop_last() =~= h.edits);
                } else {
                    assert(d.edits.drop_last() =~= h.edits.drop_last());
                }
                assert(spelled(text, d.edits, start, d.offset) =~= made);
            },
            LineTag::Insert => {
                if h.moved {
                    assert(d.edits.drop_last() =~= h.edits);
                } else {
                    assert(d.edits.drop_last() =~= h.edits.drop_last());
                }
                assert(spelled(text, d.edits, start, d.offset) =~= made + c.text);
            },
        }
    }
}

/// An edit that a language server proposes.
#[derive(Debug, PartialEq, Eq)]
pub struct LspEdit {
    pub range: TextRange,
    pub new_text: String,
}

impl Clone for LspEdit {
    fn clone(&self) -> (r: Self)
        ensures
            r == *self,
    {
        LspEdit { range: self.range, new_text: self.new_text.clone() }
    }
}

pub open spec fn keyed_edit() -> spec_fn(LspEdit) -> ((u64, u64), LspEdit) {
    |e: LspEdit| ((e.range.start.row as u64, e.range.start.column as u64), e)
}

/// The edits in the order of their starts.
pub open spec fn sorted_edits(edits: Seq<LspEdit>) -> Seq<LspEdit> {
    stable_sort(edits.map_values(keyed_edit())).map_values(|k: ((u64, u64), LspEdit)| k.1)
}

/// How long the first `n` new texts are together, with a line break each.
pub open spec fn text_len(edits: Seq<LspEdit>, n: int) -> int
    decreases n,
{
    if n <= 0 {
        0
    } else {
        text_len(edits, n - 1) + edits[n - 1].new_text@.len() + 1
    }
}

proof fn lemma_text_len(edits: Seq<LspEdit>, m: int, n: int)
    requires
        0 <= m <= n,
    ensures
        0 <= text_len(edits, m) <= text_len(edits, n),
    decreases n,
{
    if m < n {
        lemma_text_len(edits, m, n - 1);
    } else if n > 0 {
        lemma_text_len(edits, n - 1, n - 1);
    }
}

/// There is text, if only the end of a line, between an offset and an edit.
pub open spec fn is_apart(text: Seq<char>, end: int, next: LspEdit) -> bool {
    !next.range.start.at_or_before(point_at(text, end))
}

/// More than the end of a line lies between an offset and an edit.
pub open spec fn is_far(text: Seq<char>, end: int, next: LspEdit) -> bool {
    ||| next.range.start.row > row_at(text, end) + 1
    ||| next.range.start.column > 0
    ||| clipped(text, PointUtf16 { row: row_at(text, end) as u32, column: u32::MAX }, false) > end
}

/// An edit that has been made of several.
pub struct MergedEdit {
    pub end: int,
    pub new_text: Seq<char>,
    /// The first edit that is no part of it.
    pub next: int,
}

/// Makes one edit of an edit up to `end` and those that follow it at once, or on the next line.
pub open spec fn merged(
    text: Seq<char>,
    edits: Seq<LspEdit>,
    i: int,
    end: int,
    new_text: Seq<char>,
) -> MergedEdit
    decreases edits.len() - i,
{
    if i < 0 || i >= edits.len() || (is_apart(text, end, edits[i]) && is_far(text, end, edits[i])) {
        MergedEdit { end, new_text, next: i }
    } else {
        merged(
            text,
            edits,
            i + 1,
            clipped(text, edits[i].range.end, false),
            new_text + (if is_apart(text, end, edits[i]) {
                seq!['\n']
            } else {
                Seq::empty()
            }) + edits[i].new_text@,
        )
    }
}

pub proof fn lemma_merged_next(
    text: Seq<char>,
    edits: Seq<LspEdit>,
    i: int,
    end: int,
    new_text: Seq<char>,
)
    requires
        0 <= i <= edits.len(),
    ensures
        i <= merged(text, edits, i, end, new_text).next <= edits.len(),
    decreases edits.len() - i,
{
    if i < edits.len() && !(is_apart(text, end, edits[i]) && is_far(text, end, edits[i])) {
        let more = new_text + (if is_apart(text, end, edits[i]) {
            seq!['\n']
        } else {
            Seq::empty()
        }) + edits[i].new_text@;
        lemma_merged_next(text, edits, i + 1, clipped(text, edits[i].range.end, false), more);
    }
}

/// The merged edit that begins with the edit at `i`.
pub open spec fn merged_at(text: Seq<char>, edits: Seq<LspEdit>, i: int) -> MergedEdit {
    merged(text, edits, i + 1, clipped(text, edits[i].range.end, false), edits[i].new_text@)
}

/// The edits of the buffer for one replacement. Where it spans several lines, only the lines that
/// differ are edited.
pub open spec fn piece_edits(text: Seq<char>, start: int, end: int, new_text: Seq<char>) -> Seq<
    EditView,
> {
    if row_at(text, end) > row_at(text, start) {
        diffed(line_diff(text.subrange(start, end), new_text), start).edits
    } else if start == end {
        seq![inserting(start, new_text)]
    } else {
        seq![replacing(start, end, new_text)]
    }
}

/// The edits of the buffer for the edits from `i` on.
pub open spec fn edits_of(text: Seq<char>, edits: Seq<LspEdit>, i: int) -> Seq<EditView>
    decreases edits.len() - i,
{
    if i < 0 || i >= edits.len() {
        Seq::empty()
    } else {
        proof {
            lemma_merged_next(
                text,
                edits,
                i + 1,
                clipped(text, edits[i].range.end, false),
                edits[i].new_text@,
            );
        }
        let m = merged_at(text, edits, i);
        piece_edits(text, clipped(text, edits[i].range.start, false), m.end, m.new_text) + edits_of(
            text,
            edits,
            m.next,
        )
    }
}

/// The point is a position of the text.
pub open spec fn is_position(text: Seq<char>, p: PointUtf16) -> bool {
    point_at(text, clipped(text, p, false)) == p
}

/// The edits speak of positions of the text, and none overlaps the one before it.
pub open spec fn are_proper(text: Seq<char>, edits: Seq<LspEdit>) -> bool {
    &&& forall|i: int|
        0 <= i < edits.len() ==> is_position(text, (#[trigger] edits[i]).range.start)
            && is_position(text, edits[i].range.end) && clipped(text, edits[i].range.start, false)
            <= clipped(text, edits[i].range.end, false)
    &&& forall|i: int, j: int|
        #![trigger edits[i], edits[j]]
        0 <= i < j < edits.len() && j == i + 1 ==> clipped(text, edits[i].range.end, false)
            <= clipped(text, edits[j].range.start, false)
}

pub open spec fn proposed(text: Seq<char>) -> spec_fn(LspEdit) -> EditView {
    |e: LspEdit|
        replacing(
            clipped(text, e.range.start, false),
            clipped(text, e.range.end, false),
            e.new_text@,
        )
}

/// The edits as the server proposed them.
pub open spec fn proposed_edits(text: Seq<char>, edits: Seq<LspEdit>) -> Seq<EditView> {
    edits.map_values(proposed(text))
}

proof fn lemma_clipped_bound(text: Seq<char>, p: PointUtf16)
    ensures
        0 <= clipped(text, p, false) <= text.len(),
{
    lemma_offset_bound(text, 0, p.row as int, p.column as int, false);
}

/// Where no further position of the row follows, the line or the text ends.
proof fn lemma_row_ends(text: Seq<char>, end: int)
    requires
        fits_points(text),
        0 <= end <= text.len(),
        clipped(text, PointUtf16 { row: row_at(text, end) as u32, column: u32::MAX }, false) <= end,
    ensures
        end == text.len() || text[end] == '\n',
{
    lemma_point_bound(text, end);
    let k = u32::MAX - column_at(text, end);
    lemma_clip_beyond(text, end, k, false);
    if end < text.len() && text[end] != '\n' {
        lemma_offset_bound(text, end + 1, 0, k - units(text[end]), false);
    }
}

/// A position that only the end of a line keeps apart from an offset is the next one.
proof fn lemma_next_line(text: Seq<char>, end: int, next: LspEdit)
    requires
        fits_points(text),
        0 <= end <= text.len(),
        is_position(text, next.range.start),
        is_apart(text, end, next),
        !is_far(text, end, next),
    ensures
        end < text.len(),
        text[end] == '\n',
        clipped(text, next.range.start, false) == end + 1,
{
    let p = next.range.start;
    let s = clipped(text, p, false);
    lemma_clipped_bound(text, p);
    lemma_point_bound(text, end);
    lemma_point_bound(text, s);
    lemma_row_ends(text, end);
    if s < end {
        lemma_points_ascend(text, s, end);
    }
    if end < text.len() {
        lemma_point_bound(text, end + 1);
        clipping_keeps_positions(text, end + 1, false);
        assert(point_at(text, end + 1) == p);
    }
}

/// A position that is not after an offset and not before it is at it.
proof fn lemma_touching(text: Seq<char>, end: int, next: LspEdit)
    requires
        fits_points(text),
        0 <= end <= text.len(),
        is_position(text, next.range.start),
        !is_apart(text, end, next),
        end <= clipped(text, next.range.start, false),
    ensures
        clipped(text, next.range.start, false) == end,
{
    let s = clipped(text, next.range.start, false);
    lemma_clipped_bound(text, next.range.start);
    lemma_point_bound(text, end);
    lemma_point_bound(text, s);
    if end < s {
        lemma_points_ascend(text, end, s);
    }
}

proof fn lemma_proposed_in_order(text: Seq<char>, edits: Seq<LspEdit>, n: int)
    requires
        are_proper(text, edits),
        0 <= n <= edits.len(),
    ensures
        in_order(proposed_edits(text, edits).take(n), 0, text.len() as int),
        n < edits.len() ==> in_order(
            proposed_edits(text, edits).take(n),
            0,
            clipped(text, edits[n].range.start, false),
        ),
    decreases n,
{
    let l = proposed_edits(text, edits);
    if n == 0 {
        if n < edits.len() {
            lemma_clipped_bound(text, edits[0].range.start);
        }
    } else {
        lemma_proposed_in_order(text, edits, n - 1);
        assert(l.take(n).drop_last() =~= l.take(n - 1));
        assert(l.take(n).last() == proposed(text)(edits[n - 1]));
        lemma_clipped_bound(text, edits[n - 1].range.end);
        if n < edits.len() {
            assert(clipped(text, edits[n - 1].range.end, false) <= clipped(
                text,
                edits[n].range.start,
                false,
            ));
        }
    }
}

/// What a proposed edit adds to what those before it make of the text.
proof fn lemma_proposed_step(text: Seq<char>, edits: Seq<LspEdit>, n: int, end: int)
    requires
        are_proper(text, edits),
        0 <= n < edits.len(),
        0 <= end <= clipped(text, edits[n].range.start, false),
        in_order(proposed_edits(text, edits).take(n), 0, end),
    ensures
        ({
            let l = proposed_edits(text, edits);
            let from = clipped(text, edits[n].range.start, false);
            let to = clipped(text, edits[n].range.end, false);
            &&& in_order(l.take(n + 1), 0, to)
            &&& spelled(text, l.take(n + 1), 0, to) == spelled(text, l.take(n), 0, end)
                + text.subrange(end, from) + edits[n].new_text@
        }),
{
    let l = proposed_edits(text, edits);
    let from = clipped(text, edits[n].range.start, false);
    let to = clipped(text, edits[n].range.end, false);
    lemma_clipped_bound(text, edits[n].range.start);
    lemma_clipped_bound(text, edits[n].range.end);
    lemma_proposed_in_order(text, edits, n);
    lemma_spelled_further(text, l.take(n), 0, end, from);
    assert(l.take(n + 1).drop_last() =~= l.take(n));
    assert(l.take(n + 1).last() == proposed(text)(edits[n]));
    lemma_in_order(l.take(n), 0, from);
    assert(spelled(text, l.take(n + 1), 0, to) =~= spelled(text, l.take(n), 0, from)
        + edits[n].new_text@);
}

/// The edits for one replacement make the new text of the old.
proof fn lemma_piece_spells(
    text: Seq<char>,
    start: int,
    end: int,
    new_text: Seq<char>,
    piece: Seq<EditView>,
)
    requires
        0 <= start <= end <= text.len(),
        piece == piece_edits(text, start, end, new_text),
        row_at(text, end) > row_at(text, start) ==> old_side(
            line_diff(text.subrange(start, end), new_text),
        ) == text.subrange(start, end) && new_side(line_diff(text.subrange(start, end), new_text))
            == new_text,
    ensures
        in_order(piece, start, end),
        spelled(text, piece, start, end) == new_text,
{
    if row_at(text, end) > row_at(text, start) {
        changes_spell_the_new_text(
            text,
            start,
            line_diff(text.subrange(start, end), new_text),
        );
    } else {
        reveal_with_fuel(rewritten, 2);
        reveal_with_fuel(in_order, 2);
        assert(spelled(text, piece, start, end) =~= new_text);
    }
}

fn sort_edits(edits: &Vec<LspEdit>) -> (r: Vec<LspEdit>)
    ensures
        r@ == sorted_edits(edits@),
{
    let mut keyed: Vec<((u64, u64), LspEdit)> = Vec::new();
    let ghost all = edits@.map_values(keyed_edit());
    assert(all.take(0) =~= Seq::empty());
    for i in 0..edits.len()
        invariant
            all == edits@.map_values(keyed_edit()),
            keyed@ == all.take(i as int),
    {
        let start = edits[i].range.start;
        keyed.push(((start.row as u64, start.column as u64), edits[i].clone()));
        assert(keyed@ =~= all.take(i + 1));
    }
    assert(keyed@ =~= all);
    let sorted = sort_by_key(keyed);
    let mut r: Vec<LspEdit> = Vec::new();
    let ghost last = sorted@.map_values(|k: ((u64, u64), LspEdit)| k.1);
    assert(last.take(0) =~= Seq::empty());
    for i in 0..sorted.len()
        invariant
            last == sorted@.map_values(|k: ((u64, u64), LspEdit)| k.1),
            r@ == last.take(i as int),
    {
        r.push(sorted[i].1.clone());
        assert(r@ =~= last.take(i + 1));
    }
    assert(last.take(last.len() as int) =~= last);
    r
}

/// Turns the edits that a server proposes for a text into edits of the text. They are sorted;
/// those that touch, or that only the end of a line keeps apart, become one; and where several
/// lines are replaced, only the lines that differ are edited. What proper edits make of the text
/// stays the same, and what comes of them follows each other in the text.
#[verifier::spinoff_prover]
#[verifier::rlimit(40)]
pub fn edits_for_text(text: &str, edits: &Vec<LspEdit>) -> (r: Vec<TextEdit>)
    requires
        fits_points(text@),
        text_len(sorted_edits(edits@), edits@.len() as int) <= 0x7fff_ffff,
    ensures
        edit_views(r@) == edits_of(text@, sorted_edits(edits@), 0),
        are_proper(text@, sorted_edits(edits@)) ==> applied(text@, edit_views(r@)) == applied(
            text@,
            proposed_edits(text@, sorted_edits(edits@)),
        ) && in_order(edit_views(r@), 0, text@.len() as int),
{
    let sorted = sort_edits(edits);
    let lines = LineText::new(text);
    let ghost t = text@;
    let ghost es = sorted@;
    let ghost l = proposed_edits(t, es);
    let ghost proper = are_proper(t, es);
    let n: usize = sorted.len();
    proof {
        crate::sort::sorting_orders_and_keeps(edits@.map_values(keyed_edit()));
        assert(n == edits@.len());
    }
    let mut r: Vec<TextEdit> = Vec::new();
    let mut i: usize = 0;
    let ghost mut done: int = 0;
    proof {
        assert(edit_views(r@) =~= Seq::<EditView>::empty());
        assert(edit_views(r@) + edits_of(t, es, 0) =~= edits_of(t, es, 0));
        assert(l.take(0) =~= Seq::<EditView>::empty());
    }
    while i < n
        invariant
            n == es.len(),
            es == sorted@,
            t == text@,
            lines@ == t,
            l == proposed_edits(t, es),
            proper == are_proper(t, es),
            fits_points(t),
            text_len(es, n as int) <= 0x7fff_ffff,
            i <= n,
            edit_views(r@) + edits_of(t, es, i as int) == edits_of(t, es, 0),
            0 <= done <= t.len(),
            proper ==> {
                &&& in_order(edit_views(r@), 0, done)
                &&& in_order(l.take(i as int), 0, done)
                &&& spelled(t, edit_views(r@), 0, done) == spelled(t, l.take(i as int), 0, done)
                &&& i < n ==> done <= clipped(t, es[i as int].range.start, false)
            },
        decreases n - i,
    {
        let ghost first = i as int;
        let ghost before = edit_views(r@);
        let start: usize = lines.clip(sorted[i].range.start, false);
        let mut end: usize = lines.clip(sorted[i].range.end, false);
        let mut new_text = sorted[i].new_text.clone();
        let mut j: usize = i + 1;
        proof {
            if proper {
                assert(clipped(t, es[first].range.start, false) <= clipped(
                    t,
                    es[first].range.end,
                    false,
                ));
                lemma_proposed_step(t, es, first, done);
            }
            lemma_text_len(es, first, first + 1);
            lemma_text_len(es, 0, first);
        }
        let ghost m = merged_at(t, es, first);
        let ghost base = spelled(t, l.take(first), 0, done) + t.subrange(done, start as int);
        assert(base + new_text@ =~= spelled(t, l.take(first), 0, done) + t.subrange(
            done,
            start as int,
        ) + new_text@);
        let mut joins = true;
        while joins && j < n
            invariant
                n == es.len(),
                es == sorted@,
                t == text@,
                lines@ == t,
                l == proposed_edits(t, es),
                proper == are_proper(t, es),
                fits_points(t),
                text_len(es, n as int) <= 0x7fff_ffff,
                0 <= first < j <= n,
                start <= t.len(),
                end <= t.len(),
                joins ==> m == merged(t, es, j as int, end as int, new_text@),
                !joins ==> m == (MergedEdit { end: end as int, new_text: new_text@, next: j as int }),
                new_text@.len() <= text_len(es, j as int),
                proper ==> {
                    &&& start <= end
                    &&& end == clipped(t, es[j - 1].range.end, false)
                    &&& in_order(l.take(j as int), 0, end as int)
                    &&& spelled(t, l.take(j as int), 0, end as int) == base + new_text@
                },
            decreases
                n - j + (if joins {
                    1int
                } else {
                    0int
                }),
        {
            let next = &sorted[j];
            let here = lines.point(end);
            proof {
                lemma_point_bound(t, end as int);
                if proper {
                    assert(clipped(t, es[j - 1].range.end, false) <= clipped(
                        t,
                        es[j as int].range.start,
                        false,
                    ));
                    assert(is_position(t, es[j as int].range.start));
                    assert(clipped(t, es[j as int].range.start, false) <= clipped(
                        t,
                        es[j as int].range.end,
                        false,
                    ));
                }
                lemma_text_len(es, j as int, j + 1);
            }
            let apart = !next.range.start.is_at_or_before(&here);
            let far = next.range.start.row > here.row + 1 || next.range.start.column > 0
                || lines.clip(PointUtf16 { row: here.row, column: u32::MAX }, false) > end;
            if apart && far {
                joins = false;
            } else {
                let ghost so_far = new_text@;
                let ghost gap = if apart {
                    seq!['\n']
                } else {
                    Seq::<char>::empty()
                };
                if apart {
                    proof {
                        reveal_strlit("\n");
                    }
                    new_text.append("\n");
                    assert(new_text@ =~= so_far + gap);
                } else {
                    assert(new_text@ =~= so_far + gap);
                }
                new_text.append(next.new_text.as_str());
                proof {
                    if proper {
                        let from = clipped(t, es[j as int].range.start, false);
                        lemma_proposed_step(t, es, j as int, end as int);
                        if apart {
                            lemma_next_line(t, end as int, *next);
                            assert(t.subrange(end as int, from) =~= gap);
                        } else {
                            lemma_touching(t, end as int, *next);
                            assert(t.subrange(end as int, from) =~= gap);
                        }
                        assert(base + so_far + gap + next.new_text@ =~= base + new_text@);
                    }
                }
                end = lines.clip(next.range.end, false);
                j = j + 1;
            }
        }
        assert(m == (MergedEdit { end: end as int, new_text: new_text@, next: j as int }));
        let ghost piece = piece_edits(t, start as int, end as int, new_text@);
        let from = lines.point(start);
        let to = lines.point(end);
        proof {
            lemma_point_bound(t, start as int);
            lemma_point_bound(t, end as int);
            lemma_text_len(es, j as int, n as int);
        }
        if to.row > from.row {
            proof {
                if end <= start {
                    if end < start {
                        lemma_points_ascend(t, end as int, start as int);
                    }
                }
            }
            let old_text = slice_of(text, start, end);
            let changes = diff_lines(old_text.as_str(), new_text.as_str());
            let mut more = edits_for_changes(start, &changes);
            let ghost added = edit_views(more@);
            assert(added == piece);
            proof {
                if proper {
                    lemma_piece_spells(t, start as int, end as int, new_text@, piece);
                }
            }
            r.append(&mut more);
            assert(edit_views(r@) =~= before + added);
        } else if start == end {
            proof {
                if proper {
                    lemma_piece_spells(t, start as int, end as int, new_text@, piece);
                }
            }
            let anchor = Anchor { offset: start, bias: Bias::Right };
            r.push(TextEdit { start: anchor, end: anchor, new_text });
            assert(edit_views(r@) =~= before + piece);
        } else {
            proof {
                if proper {
                    lemma_piece_spells(t, start as int, end as int, new_text@, piece);
                }
            }
            r.push(
                TextEdit {
                    start: Anchor { offset: start, bias: Bias::Right },
                    end: Anchor { offset: end, bias: Bias::Left },
                    new_text,
                },
            );
            assert(edit_views(r@) =~= before + piece);
        }
        proof {
            assert(edits_of(t, es, first) == piece + edits_of(t, es, j as int));
            assert(before + (piece + edits_of(t, es, j as int)) =~= (before + piece) + edits_of(
                t,
                es,
                j as int,
            ));
            if proper {
                lemma_in_order(before, 0, done);
                lemma_spelled_further(t, before, 0, done, start as int);
                lemma_spelled_append(t, before, piece, 0, start as int, end as int);
                if j < n {
                    assert(clipped(t, es[j - 1].range.end, false) <= clipped(
                        t,
                        es[j as int].range.start,
                        false,
                    ));
                }
            }
            done = end as int;
        }
        i = j;
    }
    proof {
        assert(edit_views(r@) + edits_of(t, es, n as int) =~= edit_views(r@));
        if proper {
            assert(l.take(n as int) =~= l);
            lemma_in_order(edit_views(r@), 0, done);
            lemma_spelled_further(t, edit_views(r@), 0, done, t.len() as int);
            lemma_spelled_further(t, l, 0, done, t.len() as int);
        }
    }
    r
}

/// Edits that follow each other come in ascending order and do not overlap.
pub proof fn edits_in_order_are_apart(edits: Seq<EditView>, from: int, to: int)
    requires
        in_order(edits, from, to),
    ensures
        forall|i: int|
            0 <= i < edits.len() ==> from <= (#[trigger] edits[i]).start <= edits[i].end <= to,
        forall|i: int, j: int|
            #![trigger edits[i], edits[j]]
            0 <= i < j < edits.len() ==> edits[i].end <= edits[j].start,
    decreases edits.len(),
{
    lemma_in_order(edits, from, to);
    if edits.len() > 0 {
        let head = edits.drop_last();
        lemma_in_order(head, from, edits.last().start);
        edits_in_order_are_apart(head, from, edits.last().start);
        assert forall|i: int| 0 <= i < edits.len() implies from <= (#[trigger] edits[i]).start
            <= edits[i].end <= to by {
            if i < head.len() {
                assert(head[i] == edits[i]);
            }
        }
        assert forall|i: int, j: int|
            #![trigger edits[i], edits[j]]
            0 <= i < j < edits.len() implies edits[i].end <= edits[j].start by {
            assert(head[i] == edits[i]);
            if j < head.len() {
                assert(head[j] == edits[j]);
            }
        }
    }
}

/// The edits speak of positions of the text, no two of them overlap, and no two begin at the same
/// position. They may come in any order.
pub open spec fn are_disjoint(text: Seq<char>, edits: Seq<LspEdit>) -> bool {
    &&& forall|i: int|
        0 <= i < edits.len() ==> is_position(text, (#[trigger] edits[i]).range.start)
            && is_position(text, edits[i].range.end) && clipped(text, edits[i].range.start, false)
            <= clipped(text, edits[i].range.end, false)
    &&& forall|i: int, j: int|
        #![trigger edits[i], edits[j]]
        0 <= i < j < edits.len() ==> edits[i].range.start != edits[j].range.start && (clipped(
            text,
            edits[i].range.end,
            false,
        ) <= clipped(text, edits[j].range.start, false) || clipped(text, edits[j].range.end, false)
            <= clipped(text, edits[i].range.start, false))
}

/// Edits that do not overlap are proper once they are sorted, in whatever order they come.
pub proof fn disjoint_edits_are_proper(text: Seq<char>, edits: Seq<LspEdit>)
    requires
        fits_points(text),
        are_disjoint(text, edits),
    ensures
        are_proper(text, sorted_edits(edits)),
{
    let keyed = edits.map_values(keyed_edit());
    let t = stable_sort(keyed);
    let s = sorted_edits(edits);
    crate::sort::sorting_orders_and_keeps(keyed);
    assert(keyed.no_duplicates()) by {
        assert forall|i: int, j: int| 0 <= i < keyed.len() && 0 <= j < keyed.len() && i
            != j implies keyed[i] != keyed[j] by {
            if i < j {
                assert(edits[i].range.start != edits[j].range.start);
            } else {
                assert(edits[j].range.start != edits[i].range.start);
            }
        }
    }
    keyed.lemma_multiset_has_no_duplicates();
    t.lemma_multiset_has_no_duplicates_conv();
    assert forall|i: int| 0 <= i < s.len() implies keyed.contains(#[trigger] t[i]) by {
        assert(t.contains(t[i]));
        to_multiset_contains(t, t[i]);
        to_multiset_contains(keyed, t[i]);
    }
    assert forall|i: int| 0 <= i < s.len() implies t[i] == keyed_edit()(#[trigger] s[i])
        && is_position(text, s[i].range.start) && is_position(text, s[i].range.end) && clipped(
        text,
        s[i].range.start,
        false,
    ) <= clipped(text, s[i].range.end, false) by {
        assert(keyed.contains(t[i]));
        let k = choose|k: int| 0 <= k < keyed.len() && keyed[k] == t[i];
        assert(s[i] == edits[k]);
    }
    assert forall|i: int, j: int|
        #![trigger s[i], s[j]]
        0 <= i < j < s.len() && j == i + 1 implies clipped(text, s[i].range.end, false) <= clipped(
        text,
        s[j].range.start,
        false,
    ) by {
        assert(keyed.contains(t[i]));
        assert(keyed.contains(t[j]));
        let a = choose|k: int| 0 <= k < keyed.len() && keyed[k] == t[i];
        let b = choose|k: int| 0 <= k < keyed.len() && keyed[k] == t[j];
        assert(t[i] != t[j]);
        assert(a != b);
        assert(s[i] == edits[a] && s[j] == edits[b]);
        if a < b {
            assert(edits[a].range.start != edits[b].range.start);
        } else {
            assert(edits[b].range.start != edits[a].range.start);
        }
        let p = s[i].range.start;
        let q = s[j].range.start;
        let from = clipped(text, p, false);
        let to = clipped(text, q, false);
        lemma_clipped_bound(text, p);
        lemma_clipped_bound(text, q);
        lemma_point_bound(text, from);
        lemma_point_bound(text, to);
        assert(!<(u64, u64) as Key>::before(t[j].0.key(), t[i].0.key()));
        if to < from {
            lemma_points_ascend(text, to, from);
        }
    }
}

/// The texts of a buffer that a server can mean are short enough for points.
pub open spec fn texts_fit(project: Project, buffer: Buffer, server_id: LanguageServerId) -> bool {
    let known = snapshot_map(project.buffer_snapshots);
    let key = (buffer.remote_id, server_id);
    &&& fits_points(buffer.snapshot.text@)
    &&& known.contains_key(key) ==> forall|i: int|
        0 <= i < known[key].len() ==> fits_points((#[trigger] known[key][i]).snapshot.text@)
}

impl Project {
    /// Turns the edits that a server proposes for a version of a buffer into edits of the text that
    /// the server means.
    pub fn edits_from_lsp(
        &mut self,
        buffer: &Buffer,
        edits: &Vec<LspEdit>,
        server_id: LanguageServerId,
        version: Option<i32>,
    ) -> (r: Result<Vec<TextEdit>, ProjectError>)
        requires
            old(self).snapshots_ordered(),
            texts_fit(*old(self), *buffer, server_id),
            text_len(sorted_edits(edits@), edits@.len() as int) <= 0x7fff_ffff,
        ensures
            final(self).snapshots_ordered(),
            *final(self) == (Project {
                buffer_snapshots: final(self).buffer_snapshots,
                ..*old(self)
            }),
            snapshot_map(final(self).buffer_snapshots) == texts_after(
                *old(self),
                *buffer,
                server_id,
                version,
            ),
            match r {
                Ok(made) => exists|snapshot: TextSnapshot| #[trigger]
                    meant_text(*old(self), *buffer, server_id, version, Ok(snapshot)) && edit_views(
                        made@,
                    ) == edits_of(snapshot.text@, sorted_edits(edits@), 0) && (are_proper(
                        snapshot.text@,
                        sorted_edits(edits@),
                    ) ==> applied(snapshot.text@, edit_views(made@)) == applied(
                        snapshot.text@,
                        proposed_edits(snapshot.text@, sorted_edits(edits@)),
                    ) && in_order(edit_views(made@), 0, snapshot.text@.len() as int)),
                Err(e) => meant_text(*old(self), *buffer, server_id, version, Err(e)),
            },
    {
        let meant = self.buffer_snapshot_for_lsp_version(buffer, server_id, version);
        assert(meant_text(*old(self), *buffer, server_id, version, meant));
        match meant {
            Ok(snapshot) => {
                assert(fits_points(snapshot.text@));
                let made = edits_for_text(snapshot.text.as_str(), edits);
                assert(meant_text(*old(self), *buffer, server_id, version, Ok(snapshot)));
                Ok(made)
            },
            Err(e) => Err(e),
        }
    }
}

/// The proposals of a server are taken as they are: each replaces what lies between the two positions
/// that it names by its text.
pub proof fn proposals_are_taken_as_given(text: Seq<char>, edits: Seq<LspEdit>, i: int)
    requires
        0 <= i < edits.len(),
    ensures
        proposed_edits(text, edits).len() == edits.len(),
        proposed_edits(text, edits)[i].start == clipped(text, edits[i].range.start, false),
        proposed_edits(text, edits)[i].end == clipped(text, edits[i].range.end, false),
        proposed_edits(text, edits)[i].new_text == edits[i].new_text@,
{
}

/// No edits leave a text as it is. One edit keeps what lies before and behind it, and puts its text in
/// between; further edits behind it do the same to the rest.
pub proof fn edits_replace_what_they_cover(text: Seq<char>, edits: Seq<EditView>)
    requires
        in_order(edits, 0, text.len() as int),
    ensures
        edits.len() == 0 ==> applied(text, edits) == text,
        edits.len() == 1 ==> applied(text, edits) == text.take(edits[0].start) + edits[0].new_text
            + text.skip(edits[0].end),
        edits.len() > 0 ==> applied(text, edits) == applied(
            text.take(edits.last().start),
            edits.drop_last(),
        ) + edits.last().new_text + text.skip(edits.last().end),
{
    if edits.len() == 0 {
        assert(applied(text, edits) =~= text);
    } else {
        let last = edits.last();
        let head = edits.drop_last();
        let front = text.take(last.start);
        edits_in_order_are_apart(edits, 0, text.len() as int);
        assert(edits[edits.len() - 1] == last);
        lemma_rewritten_prefix(text, head, last.start);
        assert(text.subrange(last.end, text.len() as int) =~= text.skip(last.end));
        lemma_end_bound(head, last.start);
        assert(front.subrange(end_of(head, 0), last.start) =~= text.subrange(
            end_of(head, 0),
            last.start,
        ));
        assert(applied(text, edits) =~= applied(front, head) + last.new_text + text.skip(last.end));
        if edits.len() == 1 {
            assert(applied(front, head) =~= front);
        }
    }
}

proof fn lemma_end_bound(edits: Seq<EditView>, to: int)
    requires
        in_order(edits, 0, to),
    ensures
        0 <= end_of(edits, 0) <= to,
{
    if edits.len() > 0 {
        edits_in_order_are_apart(edits, 0, to);
        assert(edits[edits.len() - 1] == edits.last());
    }
}

proof fn lemma_rewritten_prefix(text: Seq<char>, edits: Seq<EditView>, n: int)
    requires
        in_order(edits, 0, n),
        0 <= n <= text.len(),
    ensures
        rewritten(text, edits, 0) == rewritten(text.take(n), edits, 0),
    decreases edits.len(),
{
    if edits.len() > 0 {
        let head = edits.drop_last();
        let last = edits.last();
        lemma_end_bound(head, last.start);
        lemma_in_order_weaken(head, last.start, n);
        lemma_rewritten_prefix(text, head, n);
        assert(text.take(n).subrange(end_of(head, 0), last.start) =~= text.subrange(
            end_of(head, 0),
            last.start,
        ));
    }
}

proof fn lemma_in_order_weaken(edits: Seq<EditView>, to: int, further: int)
    requires
        in_order(edits, 0, to),
        to <= further,
    ensures
        in_order(edits, 0, further),
{
}

/// A server's edits are gone through in the order of their starts; those with the same start stay in
/// the order in which they were given. None is lost.
pub proof fn edits_are_sorted_by_their_start(edits: Seq<LspEdit>)
    ensures
        sorted_edits(edits).len() == edits.len(),
        sorted_edits(edits).to_multiset() == edits.to_multiset(),
        forall|i: int, j: int|
            #![trigger sorted_edits(edits)[i], sorted_edits(edits)[j]]
            0 <= i < j < edits.len() ==> sorted_edits(edits)[i].range.start.at_or_before(
                sorted_edits(edits)[j].range.start,
            ),
{
    let keyed = edits.map_values(keyed_edit());
    let s = stable_sort(keyed);
    let second = |k: ((u64, u64), LspEdit)| k.1;
    crate::sort::sorting_orders_and_keeps(keyed);
    crate::sort::lemma_same_items_mapped(s, keyed, second);
    assert(keyed.map_values(second) =~= edits);
    assert(s.map_values(second) =~= sorted_edits(edits));
    assert forall|m: int| 0 <= m < s.len() implies (#[trigger] s[m]).0 == (
        s[m].1.range.start.row as u64,
        s[m].1.range.start.column as u64,
    ) by {
        broadcast use vstd::seq_lib::group_to_multiset_ensures;

        assert(s.contains(s[m]));
        assert(s.to_multiset().count(s[m]) > 0);
        assert(keyed.contains(s[m]));
        let q = choose|q: int| 0 <= q < keyed.len() && keyed[q] == s[m];
        assert(keyed[q] == keyed_edit()(edits[q]));
    }
    assert forall|i: int, j: int|
        #![trigger sorted_edits(edits)[i], sorted_edits(edits)[j]]
        0 <= i < j < edits.len() implies sorted_edits(edits)[i].range.start.at_or_before(
        sorted_edits(edits)[j].range.start,
    ) by {
        assert(sorted_edits(edits)[i] == s[i].1 && sorted_edits(edits)[j] == s[j].1);
        assert(!<(u64, u64) as Key>::before(s[j].0, s[i].0));
    }
}

/// Edits between positions of the text, each of which ends before the next begins, are proper.
pub proof fn edits_one_after_the_other_are_proper(
    text: Seq<char>,
    edits: Seq<LspEdit>,
    starts: Seq<int>,
    ends: Seq<int>,
)
    requires
        fits_points(text),
        starts.len() == edits.len(),
        ends.len() == edits.len(),
        forall|i: int|
            0 <= i < edits.len() ==> 0 <= #[trigger] starts[i] <= ends[i] <= text.len()
                && edits[i].range.start == point_at(text, starts[i]) && edits[i].range.end
                == point_at(text, ends[i]),
        forall|i: int, j: int|
            #![trigger starts[i], starts[j]]
            0 <= i < j < edits.len() ==> ends[i] <= starts[j],
    ensures
        are_proper(text, edits),
{
    assert forall|i: int| 0 <= i < edits.len() implies clipped(
        text,
        (#[trigger] edits[i]).range.start,
        false,
    ) == starts[i] && clipped(text, edits[i].range.end, false) == ends[i] by {
        clipping_keeps_positions(text, starts[i], false);
        clipping_keeps_positions(text, ends[i], false);
    }
    assert forall|i: int, j: int|
        #![trigger edits[i], edits[j]]
        0 <= i < j < edits.len() && j == i + 1 implies clipped(text, edits[i].range.end, false)
        <= clipped(text, edits[j].range.start, false) by {
        assert(starts[i] <= ends[i]);
        assert(ends[i] <= starts[j]);
    }
}

/// Edits between positions of the text that have distinct starts and do not overlap are disjoint, in
/// whatever order they come.
pub proof fn edits_apart_are_disjoint(
    text: Seq<char>,
    edits: Seq<LspEdit>,
    starts: Seq<int>,
    ends: Seq<int>,
)
    requires
        fits_points(text),
        starts.len() == edits.len(),
        ends.len() == edits.len(),
        forall|i: int|
            0 <= i < edits.len() ==> 0 <= #[trigger] starts[i] <= ends[i] <= text.len()
                && edits[i].range.start == point_at(text, starts[i]) && edits[i].range.end
                == point_at(text, ends[i]),
        forall|i: int, j: int|
            #![trigger starts[i], starts[j]]
            0 <= i < j < edits.len() ==> starts[i] != starts[j] && (ends[i] <= starts[j] || ends[j]
                <= starts[i]),
    ensures
        are_disjoint(text, edits),
{
    assert forall|i: int| 0 <= i < edits.len() implies clipped(
        text,
        (#[trigger] edits[i]).range.start,
        false,
    ) == starts[i] && clipped(text, edits[i].range.end, false) == ends[i] by {
        clipping_keeps_positions(text, starts[i], false);
        clipping_keeps_positions(text, ends[i], false);
    }
    assert forall|i: int, j: int|
        #![trigger edits[i], edits[j]]
        0 <= i < j < edits.len() implies edits[i].range.start != edits[j].range.start && (clipped(
        text,
        edits[i].range.end,
        false,
    ) <= clipped(text, edits[j].range.start, false) || clipped(text, edits[j].range.end, false)
        <= clipped(text, edits[i].range.start, false)) by {
        assert(starts[i] != starts[j]);
        clipping_keeps_positions(text, starts[i], false);
        clipping_keeps_positions(text, starts[j], false);
    }
}

/// Within a row, a replacement is one edit: it begins and ends where the replacement does and has its
/// text. What is typed at the start of the replaced text stays before it and what is typed at its end
/// behind it; an insertion moves on with its place.
pub proof fn replacements_in_a_row_are_one_edit(
    text: Seq<char>,
    start: int,
    end: int,
    new_text: Seq<char>,
)
    requires
        0 <= start <= end <= text.len(),
        row_at(text, start) == row_at(text, end),
    ensures
        ({
            let made = piece_edits(text, start, end, new_text);
            &&& made.len() == 1
            &&& made[0].start == start
            &&& made[0].end == end
            &&& made[0].new_text == new_text
            &&& made[0].start_bias is Right
            &&& start < end ==> made[0].end_bias is Left
            &&& start == end ==> made[0].end_bias is Right
        }),
{
}

/// Edits with more than the end of a line between them are not made one: the next edit begins a new
/// one if its row is beyond the next, or it does not begin its row.
pub proof fn edits_far_apart_stay_apart(
    text: Seq<char>,
    edits: Seq<LspEdit>,
    i: int,
    end: int,
    new_text: Seq<char>,
)
    requires
        0 <= i < edits.len(),
        point_at(text, end).row == row_at(text, end),
        edits[i].range.start.row > row_at(text, end) + 1 || (edits[i].range.start.row > row_at(
            text,
            end,
        ) && edits[i].range.start.column > 0),
    ensures
        merged(text, edits, i, end, new_text).next == i,
        merged(text, edits, i, end, new_text).end == end,
        merged(text, edits, i, end, new_text).new_text == new_text,
{
}

/// A line that is kept gets no edit: it only moves on where the next change is made. A deleted line is
/// covered by an edit without text, and an added line is the text of an edit that covers nothing.
pub proof fn kept_lines_are_not_edited(s: DiffState, line: Seq<char>)
    ensures
        ({
            let kept = s.after(LineChangeView { tag: LineTag::Equal, text: line });
            &&& kept.edits == s.edits
            &&& kept.offset == s.offset + line.len()
            &&& kept.moved
        }),
        s.moved ==> {
            let deleted = s.after(LineChangeView { tag: LineTag::Delete, text: line });
            let added = s.after(LineChangeView { tag: LineTag::Insert, text: line });
            &&& deleted.edits.len() == s.edits.len() + 1
            &&& deleted.edits.last().start == s.offset
            &&& deleted.edits.last().end == s.offset + line.len()
            &&& deleted.edits.last().new_text.len() == 0
            &&& added.edits.len() == s.edits.len() + 1
            &&& added.edits.last().start == s.offset
            &&& added.edits.last().end == s.offset
            &&& added.edits.last().new_text == line
        },
{
}

/// A single proposal becomes the edits for its replacement.
pub proof fn a_single_proposal_is_one_replacement(text: Seq<char>, e: LspEdit)
    ensures
        edits_of(text, seq![e], 0) == piece_edits(
            text,
            clipped(text, e.range.start, false),
            clipped(text, e.range.end, false),
            e.new_text@,
        ),
{
    let edits = seq![e];
    assert(merged_at(text, edits, 0) == (MergedEdit {
        end: clipped(text, e.range.end, false),
        new_text: e.new_text@,
        next: 1,
    }));
    assert(edits_of(text, edits, 1) =~= Seq::<EditView>::empty());
    let piece = piece_edits(
        text,
        clipped(text, e.range.start, false),
        clipped(text, e.range.end, false),
        e.new_text@,
    );
    assert(edits_of(text, edits, 0) =~= piece + edits_of(text, edits, 1));
    assert(piece + Seq::<EditView>::empty() =~= piece);
}

} // verus!
