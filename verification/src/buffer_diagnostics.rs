//! Bringing the problems that language servers report to buffers and worktrees.

use crate::diagnostics::{
    by_gravity, every_lone_problem_has_its_entry, gravity, group_diagnostics, grouped, groups,
    groups_are_numbered_in_order, DiagnosticEntry, DiagnosticSeverity,
    PublishDiagnosticsParams, TextRange,
};
use crate::effects::{Effect, Event};
use crate::order::Key;
use crate::ids::{EntityId, LanguageServerId};
use crate::model::{AppContext, Buffer, PointUtf16, ProjectPath, TextSnapshot};
use crate::path::{Part, Path};
use crate::project::{LspBufferSnapshot, Project, ProjectError};
use crate::snapshots::{outdated, snapshot_map, version_at};
use crate::sort::{sort_by_key, stable_sort};
use crate::text::{
    clipped, clipping_keeps_positions, fits_points, lemma_clip_beyond, lemma_offset_bound,
    lemma_point_bound, lemma_points_ascend, point_at, LineText,
};
use vstd::prelude::*;

verus! {

/// What problems are sorted by.
pub type EntryKey = ((u64, u64), ((u64, u64), ((u64, u64), (u64, String))));

/// Problems are sorted by their start; of those with the same start the longest comes first, then
/// the head of a group, then what does not come from the disk, then the gravest, then by message.
pub open spec fn entry_key(e: DiagnosticEntry) -> EntryKey {
    (
        (e.range.start.row as u64, e.range.start.column as u64),
        (
            (
                (0xffff_ffff - e.range.end.row) as u64,
                (0xffff_ffff - e.range.end.column) as u64,
            ),
            (
                (
                    if e.diagnostic.is_primary {
                        0u64
                    } else {
                        1u64
                    },
                    if e.diagnostic.is_disk_based {
                        1u64
                    } else {
                        0u64
                    },
                ),
                (gravity(Some(e.diagnostic.severity)) as u64, e.diagnostic.message),
            ),
        ),
    )
}

fn key_of_entry(e: &DiagnosticEntry) -> (r: EntryKey)
    ensures
        r == entry_key(*e),
{
    let first: u64 = if e.diagnostic.is_primary {
        0
    } else {
        1
    };
    let disk: u64 = if e.diagnostic.is_disk_based {
        1
    } else {
        0
    };
    let severity: u64 = match e.diagnostic.severity {
        DiagnosticSeverity::Error => 1,
        DiagnosticSeverity::Warning => 2,
        DiagnosticSeverity::Information => 3,
        DiagnosticSeverity::Hint => 4,
    };
    let row: u32 = 0xffff_ffff - e.range.end.row;
    let column: u32 = 0xffff_ffff - e.range.end.column;
    (
        (e.range.start.row as u64, e.range.start.column as u64),
        (
            (row as u64, column as u64),
            ((first, disk), (severity, e.diagnostic.message.clone())),
        ),
    )
}

/// The range of a problem in the current text. `moved` is where the range has got to by the edits
/// since the file was saved; it counts for problems that come from the disk. An empty range is
/// widened by a character, to the right or, at the end of a line, to the left.
pub open spec fn sanitized_range(text: Seq<char>, e: DiagnosticEntry, moved: TextRange) -> TextRange {
    let range = if e.diagnostic.is_disk_based {
        moved
    } else {
        e.range
    };
    let start = clipped(text, range.start, false);
    let end = clipped(text, range.end, true);
    if start != end {
        TextRange { start: point_at(text, start), end: point_at(text, end) }
    } else if start < text.len() && text[start] != '\n' {
        TextRange { start: point_at(text, start), end: point_at(text, start + 1) }
    } else if point_at(text, start).column > 0 {
        TextRange { start: point_at(text, start - 1), end: point_at(text, start) }
    } else {
        TextRange { start: point_at(text, start), end: point_at(text, start) }
    }
}

fn sanitize_range(text: &LineText, e: &DiagnosticEntry, moved: TextRange) -> (r: TextRange)
    requires
        fits_points(text@),
    ensures
        r == sanitized_range(text@, *e, moved),
{
    let range = if e.diagnostic.is_disk_based {
        moved
    } else {
        e.range
    };
    let start: usize = text.clip(range.start, false);
    let end: usize = text.clip(range.end, true);
    let p = text.point(start);
    if start != end {
        return TextRange { start: p, end: text.point(end) };
    }
    proof {
        lemma_offset_bound(text@, 0, range.start.row as int, range.start.column as int, false);
        lemma_point_bound(text@, start as int);
        lemma_clip_beyond(text@, start as int, 1, true);
        reveal_with_fuel(crate::text::offset_from, 3);
    }
    let next: usize = text.clip(PointUtf16 { row: p.row, column: p.column + 1 }, true);
    if next == start && p.column > 0 {
        TextRange { start: text.point(start - 1), end: p }
    } else {
        TextRange { start: p, end: text.point(next) }
    }
}

pub open spec fn keyed_entry() -> spec_fn((DiagnosticEntry, TextRange)) -> (
    EntryKey,
    (DiagnosticEntry, TextRange),
) {
    |e: (DiagnosticEntry, TextRange)| (entry_key(e.0), e)
}

pub open spec fn shown_entry(text: Seq<char>) -> spec_fn((EntryKey, (DiagnosticEntry, TextRange))) -> (
    DiagnosticEntry
) {
    |k: (EntryKey, (DiagnosticEntry, TextRange))|
        DiagnosticEntry {
            range: sanitized_range(text, k.1.0, k.1.1),
            diagnostic: k.1.0.diagnostic,
        }
}

/// The problems of a buffer as they are shown: sorted, with the ranges that they have in the text.
pub open spec fn shown_entries(text: Seq<char>, entries: Seq<(DiagnosticEntry, TextRange)>) -> Seq<
    DiagnosticEntry,
> {
    stable_sort(entries.map_values(keyed_entry())).map_values(shown_entry(text))
}

/// Prepares problems to be shown in a buffer with the given text. Each comes with the place that
/// its range has got to by the edits since the file was saved.
pub fn update_buffer_diagnostics(text: &str, entries: &Vec<(DiagnosticEntry, TextRange)>) -> (r: Vec<
    DiagnosticEntry,
>)
    requires
        fits_points(text@),
    ensures
        r@ == shown_entries(text@, entries@),
{
    let mut keyed: Vec<(EntryKey, (DiagnosticEntry, TextRange))> = Vec::new();
    let ghost all = entries@.map_values(keyed_entry());
    assert(all.take(0) =~= Seq::empty());
    for i in 0..entries.len()
        invariant
            all == entries@.map_values(keyed_entry()),
            keyed@ == all.take(i as int),
    {
        let e = &entries[i];
        keyed.push((key_of_entry(&e.0), (e.0.clone(), e.1)));
        assert(keyed@ =~= all.take(i + 1));
    }
    assert(keyed@ =~= all);
    let sorted = sort_by_key(keyed);
    let lines = LineText::new(text);
    let mut r: Vec<DiagnosticEntry> = Vec::new();
    let ghost shown = sorted@.map_values(shown_entry(text@));
    assert(shown.take(0) =~= Seq::empty());
    for i in 0..sorted.len()
        invariant
            fits_points(text@),
            lines@ == text@,
            shown == sorted@.map_values(shown_entry(text@)),
            r@ == shown.take(i as int),
    {
        let e = &sorted[i].1;
        let mut entry = e.0.clone();
        entry.range = sanitize_range(&lines, &e.0, e.1);
        r.push(entry);
        assert(r@ =~= shown.take(i + 1));
    }
    assert(shown.take(shown.len() as int) =~= shown);
    r
}

/// A problem is shown with an empty range only where its line is empty.
pub proof fn shown_range_is_empty_only_on_an_empty_line(
    text: Seq<char>,
    e: DiagnosticEntry,
    moved: TextRange,
)
    requires
        fits_points(text),
        ({
            let r = sanitized_range(text, e, moved);
            r.start == r.end
        }),
    ensures
        ({
            let r = sanitized_range(text, e, moved);
            let n = clipped(text, r.start, false);
            &&& r.start.column == 0
            &&& r.start == point_at(text, n)
            &&& n == text.len() || text[n] == '\n'
        }),
{
    let range = if e.diagnostic.is_disk_based {
        moved
    } else {
        e.range
    };
    let start = clipped(text, range.start, false);
    let end = clipped(text, range.end, true);
    lemma_offset_bound(text, 0, range.start.row as int, range.start.column as int, false);
    lemma_offset_bound(text, 0, range.end.row as int, range.end.column as int, true);
    lemma_point_bound(text, start);
    lemma_point_bound(text, end);
    if start < end {
        lemma_points_ascend(text, start, end);
    } else if end < start {
        lemma_points_ascend(text, end, start);
    } else {
        clipping_keeps_positions(text, start, false);
        if start < text.len() && text[start] != '\n' {
            lemma_point_bound(text, start + 1);
            lemma_points_ascend(text, start, start + 1);
        } else if point_at(text, start).column > 0 {
            lemma_point_bound(text, start - 1);
            lemma_points_ascend(text, start - 1, start);
        }
    }
}

/// Where the problems of a document go: a worktree, and a buffer with the text that is meant.
#[derive(Debug)]
pub struct DiagnosticsTarget {
    pub worktree: EntityId,
    pub path: ProjectPath,
    pub buffer: Option<(EntityId, TextSnapshot)>,
}

/// The text of a buffer that a server means by a version.
pub open spec fn meant_text(
    project: Project,
    buffer: Buffer,
    server_id: LanguageServerId,
    version: Option<i32>,
    r: Result<TextSnapshot, ProjectError>,
) -> bool {
    let known = snapshot_map(project.buffer_snapshots);
    let key = (buffer.remote_id, server_id);
    match version {
        None => r == Ok::<TextSnapshot, ProjectError>(buffer.snapshot),
        Some(v) => if !known.contains_key(key) {
            r == Err::<TextSnapshot, ProjectError>(ProjectError::UnknownBuffer)
        } else if forall|i: int| !version_at(known[key], v, i) {
            r == Err::<TextSnapshot, ProjectError>(ProjectError::UnknownVersion)
        } else {
            r is Ok && exists|i: int|
                version_at(known[key], v, i) && r->Ok_0 == known[key][i].snapshot
        },
    }
}

/// The texts that are still known after a server has meant one by its version.
pub open spec fn texts_after(
    project: Project,
    buffer: Buffer,
    server_id: LanguageServerId,
    version: Option<i32>,
) -> Map<(u64, LanguageServerId), Seq<LspBufferSnapshot>> {
    let known = snapshot_map(project.buffer_snapshots);
    let key = (buffer.remote_id, server_id);
    match version {
        Some(v) if known.contains_key(key) && (exists|i: int| version_at(known[key], v, i)) => {
            known.insert(key, known[key].skip(outdated(known[key], v) as int))
        },
        _ => known,
    }
}

/// What is found for the problems of a document, and the texts that are still known afterwards.
pub open spec fn finds_target(
    project: Project,
    cx: AppContext,
    server_id: LanguageServerId,
    abs_path: Seq<Part>,
    version: Option<i32>,
    r: Result<DiagnosticsTarget, ProjectError>,
    texts: Map<(u64, LanguageServerId), Seq<LspBufferSnapshot>>,
) -> bool {
    match project.worktree_containing(cx, abs_path) {
        None => r matches Err(ProjectError::NoWorktreeForDiagnostics) && texts == snapshot_map(
            project.buffer_snapshots,
        ),
        Some(w) => exists|path: ProjectPath|
            path.worktree_id == w.id && path.path@ == abs_path.skip(w.abs_path@.len() as int)
                && match #[trigger] project.buffer_at(cx, path) {
                None => texts == snapshot_map(project.buffer_snapshots) && match r {
                    Ok(t) => t.worktree == w.entity_id && t.path == path && t.buffer is None,
                    Err(_) => false,
                },
                Some(b) => texts == texts_after(project, b, server_id, version) && match r {
                    Ok(t) => t.worktree == w.entity_id && t.path == path && match t.buffer {
                        Some((id, snapshot)) => id == b.entity_id && meant_text(
                            project,
                            b,
                            server_id,
                            version,
                            Ok(snapshot),
                        ),
                        None => false,
                    },
                    Err(e) => meant_text(project, b, server_id, version, Err(e)),
                },
            },
    }
}

/// The problems that a server reports for a document have been grouped and placed.
pub open spec fn diagnostics_placed(
    r: Result<(DiagnosticsTarget, Vec<DiagnosticEntry>), ProjectError>,
    before: Project,
    after: Project,
    cx: AppContext,
    server_id: LanguageServerId,
    abs_path: Option<&Path>,
    params: PublishDiagnosticsParams,
    disk_based_sources: Seq<String>,
) -> bool {
    &&& after == (Project {
        buffer_snapshots: after.buffer_snapshots,
        next_diagnostic_group_id: after.next_diagnostic_group_id,
        ..before
    })
    &&& match abs_path {
        None => r matches Err(ProjectError::UriIsNotAFile) && after == before,
        Some(abs_path) => {
            let reported = by_gravity(params.diagnostics@);
            &&& after.next_diagnostic_group_id == before.next_diagnostic_group_id + groups(
                reported,
                params.diagnostics@.len() as int,
            )
            &&& finds_target(
                before,
                cx,
                server_id,
                abs_path@,
                params.version,
                match r {
                    Ok((t, _)) => Ok(t),
                    Err(e) => Err(e),
                },
                snapshot_map(after.buffer_snapshots),
            )
            &&& r matches Ok((_, entries)) ==> entries@ == grouped(
                reported,
                params.uri@,
                disk_based_sources,
                before.next_diagnostic_group_id,
            )
        },
    }
}

impl Project {
    /// Finds the worktree and the open buffer that the problems of a document belong to.
    pub fn update_diagnostic_entries(
        &mut self,
        server_id: LanguageServerId,
        abs_path: &Path,
        version: Option<i32>,
        cx: &AppContext,
    ) -> (r: Result<DiagnosticsTarget, ProjectError>)
        requires
            old(self).snapshots_ordered(),
        ensures
            final(self).snapshots_ordered(),
            *final(self) == (Project {
                buffer_snapshots: final(self).buffer_snapshots,
                ..*old(self)
            }),
            finds_target(
                *old(self),
                *cx,
                server_id,
                abs_path@,
                version,
                r,
                snapshot_map(final(self).buffer_snapshots),
            ),
    {
        let (w, rest) = match self.find_local_worktree(abs_path, cx) {
            Some(found) => found,
            None => return Err(ProjectError::NoWorktreeForDiagnostics),
        };
        let path = ProjectPath { worktree_id: w.id, path: rest };
        let worktree: EntityId = w.entity_id;
        match self.get_open_buffer(&path, cx) {
            None => Ok(DiagnosticsTarget { worktree, path, buffer: None }),
            Some(b) => {
                let meant = self.buffer_snapshot_for_lsp_version(b, server_id, version);
                assert(meant_text(*old(self), *b, server_id, version, meant));
                match meant {
                    Ok(snapshot) => Ok(
                        DiagnosticsTarget {
                            worktree,
                            path,
                            buffer: Some((b.entity_id, snapshot)),
                        },
                    ),
                    Err(e) => Err(e),
                }
            },
        }
    }

    /// Handles the problems that a server reports for a document. They are grouped, and what comes
    /// back says where they belong.
    pub fn update_diagnostics(
        &mut self,
        server_id: LanguageServerId,
        abs_path: Option<&Path>,
        params: PublishDiagnosticsParams,
        disk_based_sources: &Vec<String>,
        cx: &AppContext,
    ) -> (r: Result<(DiagnosticsTarget, Vec<DiagnosticEntry>), ProjectError>)
        requires
            old(self).snapshots_ordered(),
            old(self).next_diagnostic_group_id + params.diagnostics@.len() <= usize::MAX,
        ensures
            final(self).snapshots_ordered(),
            diagnostics_placed(
                r,
                *old(self),
                *final(self),
                *cx,
                server_id,
                abs_path,
                params,
                disk_based_sources@,
            ),
    {
        let abs_path = match abs_path {
            Some(p) => p,
            None => return Err(ProjectError::UriIsNotAFile),
        };
        let version = params.version;
        let mut next_group_id: usize = self.next_diagnostic_group_id;
        let entries = group_diagnostics(params, disk_based_sources, &mut next_group_id);
        self.next_diagnostic_group_id = next_group_id;
        let ghost numbered = *self;
        assert(numbered.worktree_containing(*cx, abs_path@) == old(self).worktree_containing(
            *cx,
            abs_path@,
        ));
        assert forall|path: ProjectPath| #[trigger]
            numbered.buffer_at(*cx, path) == old(self).buffer_at(*cx, path) by {}
        let target = self.update_diagnostic_entries(server_id, abs_path, version, cx);
        match target {
            Ok(t) => Ok((t, entries)),
            Err(e) => Err(e),
        }
    }

    /// Tells the observers that the problems of a path have changed, if they have.
    pub fn diagnostics_updated(
        &self,
        updated: bool,
        path: ProjectPath,
        language_server_id: LanguageServerId,
        out: &mut Vec<Effect>,
    )
        ensures
            final(out)@ == (if updated {
                old(out)@.push(
                    Effect::Emit(Event::DiagnosticsUpdated { path, language_server_id }),
                )
            } else {
                old(out)@
            }),
    {
        if updated {
            out.push(Effect::Emit(Event::DiagnosticsUpdated { path, language_server_id }));
        }
    }
}

/// Each problem is shown once, with what was reported of it. They are shown by where they start; of
/// those with the same start the longest comes first, and of those with the same range the head of a
/// group comes before its notes, what does not come from the disk before what does, and errors first.
pub proof fn problems_are_shown_in_order(
    text: Seq<char>,
    entries: Seq<(DiagnosticEntry, TextRange)>,
) -> (arranged: Seq<(DiagnosticEntry, TextRange)>)
    ensures
        arranged.to_multiset() == entries.to_multiset(),
        shown_entries(text, entries).len() == arranged.len(),
        forall|i: int|
            0 <= i < arranged.len() ==> (#[trigger] shown_entries(text, entries)[i]).diagnostic
                == arranged[i].0.diagnostic && shown_entries(text, entries)[i].range
                == sanitized_range(text, arranged[i].0, arranged[i].1),
        forall|i: int, j: int|
            #![trigger arranged[i], arranged[j]]
            0 <= i < j < arranged.len() ==> {
                let a = arranged[i].0;
                let b = arranged[j].0;
                &&& a.range.start.row <= b.range.start.row
                &&& a.range.start.row == b.range.start.row ==> a.range.start.column
                    <= b.range.start.column
                &&& a.range.start == b.range.start ==> a.range.end.row >= b.range.end.row
                &&& a.range.start == b.range.start && a.range.end.row == b.range.end.row
                    ==> a.range.end.column >= b.range.end.column
                &&& a.range == b.range && b.diagnostic.is_primary ==> a.diagnostic.is_primary
                &&& a.range == b.range && a.diagnostic.is_primary == b.diagnostic.is_primary
                    && !b.diagnostic.is_disk_based ==> !a.diagnostic.is_disk_based
                &&& a.range == b.range && a.diagnostic.is_primary == b.diagnostic.is_primary
                    && a.diagnostic.is_disk_based == b.diagnostic.is_disk_based
                    && b.diagnostic.severity is Error ==> a.diagnostic.severity is Error
            },
{
    let keyed = entries.map_values(keyed_entry());
    let s = stable_sort(keyed);
    let second = |k: (EntryKey, (DiagnosticEntry, TextRange))| k.1;
    crate::sort::sorting_orders_and_keeps(keyed);
    crate::sort::lemma_same_items_mapped(s, keyed, second);
    let arranged = s.map_values(second);
    assert(keyed.map_values(second) =~= entries);
    assert forall|m: int| 0 <= m < s.len() implies (#[trigger] s[m]).0 == entry_key(s[m].1.0) by {
        broadcast use vstd::seq_lib::group_to_multiset_ensures;

        assert(s.contains(s[m]));
        assert(s.to_multiset().count(s[m]) > 0);
        assert(keyed.contains(s[m]));
        let q = choose|q: int| 0 <= q < keyed.len() && keyed[q] == s[m];
        assert(keyed[q] == keyed_entry()(entries[q]));
    }
    assert forall|i: int| 0 <= i < arranged.len() implies (#[trigger] shown_entries(
        text,
        entries,
    )[i]).diagnostic == arranged[i].0.diagnostic && shown_entries(text, entries)[i].range
        == sanitized_range(text, arranged[i].0, arranged[i].1) by {
        assert(shown_entries(text, entries)[i] == shown_entry(text)(s[i]));
        assert(arranged[i] == s[i].1);
    }
    assert forall|i: int, j: int|
        #![trigger arranged[i], arranged[j]]
        0 <= i < j < arranged.len() implies {
        let a = arranged[i].0;
        let b = arranged[j].0;
        &&& a.range.start.row <= b.range.start.row
        &&& a.range.start.row == b.range.start.row ==> a.range.start.column <= b.range.start.column
        &&& a.range.start == b.range.start ==> a.range.end.row >= b.range.end.row
        &&& a.range.start == b.range.start && a.range.end.row == b.range.end.row
            ==> a.range.end.column >= b.range.end.column
        &&& a.range == b.range && b.diagnostic.is_primary ==> a.diagnostic.is_primary
        &&& a.range == b.range && a.diagnostic.is_primary == b.diagnostic.is_primary
            && !b.diagnostic.is_disk_based ==> !a.diagnostic.is_disk_based
        &&& a.range == b.range && a.diagnostic.is_primary == b.diagnostic.is_primary
            && a.diagnostic.is_disk_based == b.diagnostic.is_disk_based
            && b.diagnostic.severity is Error ==> a.diagnostic.severity is Error
    } by {
        assert(arranged[i] == s[i].1 && arranged[j] == s[j].1);
        assert(s[i].0 == entry_key(s[i].1.0));
        assert(s[j].0 == entry_key(s[j].1.0));
        assert(!<EntryKey as Key>::before(s[j].0.key(), s[i].0.key()));
    }
    arranged
}

/// A range that covers some of the text is shown as it is. For a problem that comes from the disk it
/// is the range that edits have moved it to.
pub proof fn proper_ranges_are_kept(
    text: Seq<char>,
    e: DiagnosticEntry,
    moved: TextRange,
    a: int,
    b: int,
)
    requires
        fits_points(text),
        0 <= a < b <= text.len(),
        !e.diagnostic.is_disk_based ==> e.range.start == point_at(text, a) && e.range.end
            == point_at(text, b),
        e.diagnostic.is_disk_based ==> moved.start == point_at(text, a) && moved.end == point_at(
            text,
            b,
        ),
    ensures
        sanitized_range(text, e, moved).start == point_at(text, a),
        sanitized_range(text, e, moved).end == point_at(text, b),
{
    clipping_keeps_positions(text, a, false);
    clipping_keeps_positions(text, b, true);
}

/// An empty range is widened to the character that follows it in its row, and at the end of a row to
/// the one before it.
pub proof fn empty_ranges_are_widened(
    text: Seq<char>,
    e: DiagnosticEntry,
    moved: TextRange,
    a: int,
)
    requires
        fits_points(text),
        0 <= a <= text.len(),
        !e.diagnostic.is_disk_based,
        e.range.start == point_at(text, a),
        e.range.end == point_at(text, a),
    ensures
        a < text.len() && text[a] != '\n' ==> sanitized_range(text, e, moved).start == point_at(
            text,
            a,
        ) && sanitized_range(text, e, moved).end == point_at(text, a + 1),
        (a == text.len() || text[a] == '\n') && a > 0 && text[a - 1] != '\n' ==> sanitized_range(
            text,
            e,
            moved,
        ).start == point_at(text, a - 1) && sanitized_range(text, e, moved).end == point_at(
            text,
            a,
        ),
{
    clipping_keeps_positions(text, a, false);
    clipping_keeps_positions(text, a, true);
    lemma_point_bound(text, a);
    if a > 0 {
        lemma_point_bound(text, a - 1);
    }
}

/// Without a version a server means the current text of a buffer. With one it means a text that it
/// was told of under that version, and never another one.
pub proof fn servers_mean_the_text_they_know(
    project: Project,
    buffer: Buffer,
    server_id: LanguageServerId,
    version: Option<i32>,
    r: Result<TextSnapshot, ProjectError>,
)
    requires
        meant_text(project, buffer, server_id, version, r),
    ensures
        version is None ==> r == Ok::<TextSnapshot, ProjectError>(buffer.snapshot),
        version is Some && r is Ok ==> {
            let known = snapshot_map(project.buffer_snapshots);
            &&& known.contains_key((buffer.remote_id, server_id))
            &&& exists|i: int|
                0 <= i < known[(buffer.remote_id, server_id)].len() && (
                #[trigger] known[(buffer.remote_id, server_id)][i]).version == version->0
                    && known[(buffer.remote_id, server_id)][i].snapshot == r->Ok_0
        },
        version is Some && r is Err ==> {
            let known = snapshot_map(project.buffer_snapshots);
            ||| !known.contains_key((buffer.remote_id, server_id))
            ||| forall|i: int|
                0 <= i < known[(buffer.remote_id, server_id)].len() ==> (
                #[trigger] known[(buffer.remote_id, server_id)][i]).version != version->0
        },
{
    let known = snapshot_map(project.buffer_snapshots);
    let key = (buffer.remote_id, server_id);
    if version is Some && r is Err && known.contains_key(key) {
        assert forall|i: int| 0 <= i < known[key].len() implies (
        #[trigger] known[key][i]).version != version->0 by {
            assert(!version_at(known[key], version->0, i));
        }
    }
}

/// Problems go to the worktree that contains their document, at the path that leads there, and to
/// the buffer that is open at that path. Only where no worktree contains it are they refused for
/// that reason.
pub proof fn problems_go_to_their_document(
    project: Project,
    cx: AppContext,
    server_id: LanguageServerId,
    abs_path: Seq<Part>,
    version: Option<i32>,
    r: Result<DiagnosticsTarget, ProjectError>,
    texts: Map<(u64, LanguageServerId), Seq<LspBufferSnapshot>>,
)
    requires
        finds_target(project, cx, server_id, abs_path, version, r, texts),
    ensures
        project.worktree_containing(cx, abs_path) is None ==> r is Err
            && r->Err_0 is NoWorktreeForDiagnostics,
        project.worktree_containing(cx, abs_path) is Some && r is Ok ==> {
            let w = project.worktree_containing(cx, abs_path)->0;
            let t = r->Ok_0;
            &&& t.worktree == w.entity_id
            &&& t.path.worktree_id == w.id
            &&& t.path.path@ == abs_path.skip(w.abs_path@.len() as int)
            &&& t.buffer is Some <==> project.buffer_at(cx, t.path) is Some
            &&& t.buffer is Some ==> (t.buffer->0).0 == project.buffer_at(cx, t.path)->0.entity_id
            &&& t.buffer is Some && version is None ==> (t.buffer->0).1 == project.buffer_at(
                cx,
                t.path,
            )->0.snapshot
        },
        version is None ==> texts == snapshot_map(project.buffer_snapshots),
        version is None && project.worktree_containing(cx, abs_path) is Some ==> r is Ok,
{
}

/// What a server reports for a file is grouped and placed: each problem that relates to no other place
/// has an entry with its range, its message and its severity, and the groups take the next numbers.
/// What is reported for something that is no file is refused.
pub proof fn reported_problems_are_placed(
    r: Result<(DiagnosticsTarget, Vec<DiagnosticEntry>), ProjectError>,
    before: Project,
    after: Project,
    cx: AppContext,
    server_id: LanguageServerId,
    abs_path: Option<&Path>,
    params: PublishDiagnosticsParams,
    disk_based_sources: Seq<String>,
    q: int,
)
    requires
        diagnostics_placed(
            r,
            before,
            after,
            cx,
            server_id,
            abs_path,
            params,
            disk_based_sources,
        ),
        before.next_diagnostic_group_id + params.diagnostics@.len() <= usize::MAX,
    ensures
        abs_path is None ==> r is Err && r->Err_0 is UriIsNotAFile && after == before,
        abs_path is Some && r is Ok ==> {
            let es = (r->Ok_0).1@;
            &&& 0 <= q < params.diagnostics@.len()
                && params.diagnostics@[q].related_information is None ==> exists|i: int|
                0 <= i < es.len() && {
                    let d = params.diagnostics@[q];
                    &&& (#[trigger] es[i]).range == d.range
                    &&& es[i].diagnostic.message == d.message
                    &&& es[i].diagnostic.is_primary
                    &&& d.severity is Some ==> es[i].diagnostic.severity == d.severity->0
                    &&& d.severity is None ==> es[i].diagnostic.severity is Error
                }
            &&& after.next_diagnostic_group_id == before.next_diagnostic_group_id + es.filter(
                |e: DiagnosticEntry| e.diagnostic.is_primary,
            ).len()
        },
{
    if abs_path is Some && r is Ok {
        let reported = params.diagnostics@;
        let ds = by_gravity(reported);
        let first = before.next_diagnostic_group_id;
        let es = (r->Ok_0).1@;
        crate::sort::sorting_orders_and_keeps(
            reported.map_values(crate::diagnostics::keyed_by_gravity()),
        );
        assert(ds.len() == reported.len());
        groups_are_numbered_in_order(ds, params.uri@, disk_based_sources, first);
        if 0 <= q < reported.len() && reported[q].related_information is None {
            let i = every_lone_problem_has_its_entry(
                reported,
                params.uri@,
                disk_based_sources,
                first,
                q,
            );
            assert(es[i].range == reported[q].range);
        }
    }
}

/// Meaning a text drops only texts of that buffer for that server that are more than ten versions
/// older.
pub proof fn only_old_texts_are_dropped(
    project: Project,
    buffer: Buffer,
    server_id: LanguageServerId,
    version: Option<i32>,
    key: (u64, LanguageServerId),
)
    requires
        project.snapshots_ordered(),
    ensures
        ({
            let known = snapshot_map(project.buffer_snapshots);
            let now = texts_after(project, buffer, server_id, version);
            &&& now.contains_key(key) == known.contains_key(key)
            &&& known.contains_key(key) && (key != (buffer.remote_id, server_id)
                || version is None) ==> now[key] == known[key]
            &&& known.contains_key(key) && version is Some ==> forall|i: int|
                0 <= i < known[key].len() && (#[trigger] known[key][i]).version + 10 >= version->0
                    ==> now[key].contains(known[key][i])
        }),
{
    let known = snapshot_map(project.buffer_snapshots);
    let now = texts_after(project, buffer, server_id, version);
    if known.contains_key(key) && version is Some {
        let s = known[key];
        crate::snapshots::ten_versions_are_kept(s, version->0);
        let n = outdated(s, version->0) as int;
        assert forall|i: int| 0 <= i < s.len() && (#[trigger] s[i]).version + 10 >= version->0 implies
            now[key].contains(s[i]) by {
            if now[key] == s {
                assert(now[key][i] == s[i]);
            } else {
                assert(now[key] == s.skip(n));
                assert(now[key][i - n] == s[i]);
            }
        }
    }
}

} // verus!
