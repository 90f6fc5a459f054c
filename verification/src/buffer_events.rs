//! What follows when a buffer changes.

use crate::buffers::diff_effects;
use crate::effects::{
    BufferOrderedMessage, ContentChange, DocumentChange, Effect, Event, Operation,
    ServerNotification, ServerUpdate,
};
use crate::edits::{applied, edits_in_order_are_apart, end_of, in_order, spelled, EditView};
use crate::ids::LanguageServerId;
use crate::model::{
    Buffer, File, LanguageServer, LspAdapter, PointUtf16, ProjectPath, SaveOptions, SyncKind,
    TextDocumentSync,
};
use crate::path::Path;
use crate::project::{LanguageServerState, LspBufferSnapshot, Project};
use crate::seqs::{lemma_filter_map_step, lemma_take_all};
use crate::servers::running;
use crate::snapshots::{snapshot_map, versions_ascend};
use crate::text::{
    clipped, clipping_keeps_positions, column_at, fits_points, lemma_point_bound,
    lemma_points_ascend, point_at, row_at,
};
use std::sync::Arc;
use vstd::prelude::*;

verus! {

/// For how long a server that reports no progress is waited for after a buffer is saved, in
/// milliseconds.
pub const DISK_BASED_DIAGNOSTICS_DEBOUNCE: u64 = 1000;

/// What happened to a buffer.
#[derive(Clone, Copy, Debug, PartialEq, Eq, Structural)]
pub enum BufferEvent {
    Operation(Operation),
    Edited,
    Reloaded,
    DiffBaseChanged,
    Saved,
    FileHandleChanged,
    Other,
}

/// A change of a text: what stood between two positions of the old text is replaced.
#[derive(Debug)]
pub struct BufferEdit {
    pub old_start: PointUtf16,
    pub old_end: PointUtf16,
    pub new_start: PointUtf16,
    pub new_text: Arc<String>,
}

/// Where the replaced text ends in the text that the edits before this one have led to.
pub open spec fn edit_end(e: BufferEdit) -> (int, int) {
    if e.old_start.row == e.old_end.row {
        (e.new_start.row as int, e.new_start.column + (e.old_end.column - e.old_start.column))
    } else {
        (e.new_start.row + (e.old_end.row - e.old_start.row), e.old_end.column as int)
    }
}

/// The replaced text starts before it ends, and the positions fit.
pub open spec fn edit_fits(e: BufferEdit) -> bool {
    &&& e.old_start.at_or_before(e.old_end)
    &&& edit_end(e).0 <= u32::MAX
    &&& edit_end(e).1 <= u32::MAX
}

pub open spec fn content_change() -> spec_fn(BufferEdit) -> ContentChange {
    |e: BufferEdit|
        ContentChange {
            range: Some(
                (
                    e.new_start,
                    PointUtf16 { row: edit_end(e).0 as u32, column: edit_end(e).1 as u32 },
                ),
            ),
            text: e.new_text,
        }
}

/// The changes of a document, as a language server is told of them. Each range is given in the
/// text that the changes before it have led to.
pub fn content_changes(edits: &Vec<BufferEdit>) -> (r: Vec<ContentChange>)
    requires
        forall|i: int| 0 <= i < edits@.len() ==> edit_fits(#[trigger] edits@[i]),
    ensures
        r@ == edits@.map_values(content_change()),
{
    let mut r: Vec<ContentChange> = Vec::new();
    for i in 0..edits.len()
        invariant
            forall|k: int| 0 <= k < edits@.len() ==> edit_fits(#[trigger] edits@[k]),
            r@ == edits@.take(i as int).map_values(content_change()),
    {
        let e = &edits[i];
        assert(edit_fits(edits@[i as int]));
        let end = if e.old_start.row == e.old_end.row {
            PointUtf16 {
                row: e.new_start.row,
                column: e.new_start.column + (e.old_end.column - e.old_start.column),
            }
        } else {
            PointUtf16 {
                row: e.new_start.row + (e.old_end.row - e.old_start.row),
                column: e.old_end.column,
            }
        };
        r.push(ContentChange { range: Some((e.new_start, end)), text: e.new_text.clone() });
        assert(r@ =~= edits@.take(i + 1).map_values(content_change()));
    }
    assert(edits@.take(edits@.len() as int) =~= edits@);
    r
}

/// The text after a change that a server is told of.
pub open spec fn changed(text: Seq<char>, change: ContentChange) -> Seq<char> {
    match change.range {
        Some((start, end)) => text.take(clipped(text, start, false)) + change.text@ + text.skip(
            clipped(text, end, false),
        ),
        None => change.text@,
    }
}

/// The text after several changes, one after the other.
pub open spec fn changed_by(text: Seq<char>, changes: Seq<ContentChange>) -> Seq<char>
    decreases changes.len(),
{
    if changes.len() == 0 {
        text
    } else {
        changed(changed_by(text, changes.drop_last()), changes.last())
    }
}

/// Where the edit at `i` begins in the text that the edits lead to.
pub open spec fn new_place(text: Seq<char>, edits: Seq<EditView>, i: int) -> int {
    spelled(text, edits.take(i), 0, edits[i].start).len() as int
}

/// The edits are given by their positions in the old text and in the text that they lead to.
pub open spec fn describe(given: Seq<BufferEdit>, text: Seq<char>, edits: Seq<EditView>) -> bool {
    &&& given.len() == edits.len()
    &&& forall|i: int|
        0 <= i < given.len() ==> {
            &&& (#[trigger] given[i]).old_start == point_at(text, edits[i].start)
            &&& given[i].old_end == point_at(text, edits[i].end)
            &&& given[i].new_start == point_at(applied(text, edits), new_place(text, edits, i))
            &&& given[i].new_text@ == edits[i].new_text
        }
}

/// A point depends on the text before it alone.
proof fn lemma_same_point(a: Seq<char>, b: Seq<char>, n: int)
    requires
        0 <= n <= a.len(),
        n <= b.len(),
        a.take(n) == b.take(n),
    ensures
        row_at(a, n) == row_at(b, n),
        column_at(a, n) == column_at(b, n),
    decreases n,
{
    if n > 0 {
        assert(a[n - 1] == a.take(n)[n - 1]);
        assert(b[n - 1] == b.take(n)[n - 1]);
        assert(a.take(n - 1) =~= a.take(n).take(n - 1));
        assert(b.take(n - 1) =~= b.take(n).take(n - 1));
        lemma_same_point(a, b, n - 1);
    }
}

/// The same stretch of text leads as far on from wherever it stands.
proof fn lemma_same_stretch(a: Seq<char>, i: int, b: Seq<char>, j: int, k: int)
    requires
        0 <= i,
        0 <= j,
        0 <= k,
        i + k <= a.len(),
        j + k <= b.len(),
        a.subrange(i, i + k) == b.subrange(j, j + k),
    ensures
        row_at(a, i + k) - row_at(a, i) == row_at(b, j + k) - row_at(b, j),
        row_at(b, j) <= row_at(b, j + k),
        row_at(b, j) == row_at(b, j + k) ==> column_at(a, i + k) - column_at(a, i) == column_at(
            b,
            j + k,
        ) - column_at(b, j),
        row_at(b, j) < row_at(b, j + k) ==> column_at(a, i + k) == column_at(b, j + k),
    decreases k,
{
    if k > 0 {
        assert(a[i + k - 1] == a.subrange(i, i + k)[k - 1]);
        assert(b[j + k - 1] == b.subrange(j, j + k)[k - 1]);
        assert(a.subrange(i, i + k - 1) =~= a.subrange(i, i + k).take(k - 1));
        assert(b.subrange(j, j + k - 1) =~= b.subrange(j, j + k).take(k - 1));
        lemma_same_stretch(a, i, b, j, k - 1);
    }
}

/// What the first edits make of the text before the next one begins what more edits make of it.
proof fn lemma_spelled_prefix(text: Seq<char>, edits: Seq<EditView>, i: int, n: int, to: int)
    requires
        in_order(edits.take(n), 0, to),
        to <= text.len(),
        0 <= i < n <= edits.len(),
    ensures
        ({
            let head = spelled(text, edits.take(i), 0, edits[i].start);
            let all = spelled(text, edits.take(n), 0, to);
            head.len() <= all.len() && all.take(head.len() as int) == head
        }),
    decreases n,
{
    let head = spelled(text, edits.take(i), 0, edits[i].start);
    let all = spelled(text, edits.take(n), 0, to);
    let before = spelled(text, edits.take(n - 1), 0, edits[n - 1].start);
    assert(edits.take(n).drop_last() =~= edits.take(n - 1));
    assert(edits.take(n).last() == edits[n - 1]);
    assert(all == before + edits[n - 1].new_text + text.subrange(edits[n - 1].end, to));
    assert(all.take(before.len() as int) =~= before);
    if i < n - 1 {
        lemma_spelled_prefix(text, edits, i, n - 1, edits[n - 1].start);
        assert(all.take(head.len() as int) =~= before.take(head.len() as int));
    }
}

/// Before an edit is made, the text up to it stands already, and what follows is that of the old
/// text.
proof fn lemma_before_edit(text: Seq<char>, edits: Seq<EditView>, i: int)
    requires
        in_order(edits, 0, text.len() as int),
        0 <= i < edits.len(),
    ensures
        ({
            let e = edits[i];
            let len = text.len() as int;
            let head = spelled(text, edits.take(i), 0, e.start);
            let whole = applied(text, edits);
            &&& 0 <= e.start <= e.end <= len
            &&& applied(text, edits.take(i)) == head + text.subrange(e.start, len)
            &&& applied(text, edits.take(i + 1)) == head + e.new_text + text.subrange(e.end, len)
            &&& head.len() <= whole.len()
            &&& whole.take(head.len() as int) == head
        }),
{
    let len = text.len() as int;
    let e = edits[i];
    let head = spelled(text, edits.take(i), 0, e.start);
    edits_in_order_are_apart(edits, 0, len);
    let done = end_of(edits.take(i), 0);
    if i > 0 {
        assert(edits.take(i).last() == edits[i - 1]);
    }
    assert(text.subrange(done, len) =~= text.subrange(done, e.start) + text.subrange(e.start, len));
    assert(applied(text, edits.take(i)) =~= head + text.subrange(e.start, len));
    assert(edits.take(i + 1).drop_last() =~= edits.take(i));
    assert(edits.take(i + 1).last() == e);
    assert(edits.take(edits.len() as int) =~= edits);
    lemma_spelled_prefix(text, edits, i, edits.len() as int, len);
}

/// The change for one edit, made where the edits before it are made already, makes the edit.
proof fn lemma_change_made(
    text: Seq<char>,
    whole: Seq<char>,
    head: Seq<char>,
    start: int,
    end: int,
    g: BufferEdit,
)
    requires
        0 <= start <= end <= text.len(),
        head.len() <= whole.len(),
        whole.take(head.len() as int) == head,
        fits_points(text),
        fits_points(whole),
        fits_points(head + text.subrange(start, text.len() as int)),
        g.old_start == point_at(text, start),
        g.old_end == point_at(text, end),
        g.new_start == point_at(whole, head.len() as int),
    ensures
        edit_fits(g),
        changed(head + text.subrange(start, text.len() as int), content_change()(g)) == head
            + g.new_text@ + text.subrange(end, text.len() as int),
{
    let len = text.len() as int;
    let now = head + text.subrange(start, len);
    let s = head.len() as int;
    let k = end - start;
    assert(now.take(s) =~= head);
    lemma_same_point(whole, now, s);
    assert(now.subrange(s, s + k) =~= text.subrange(start, end));
    lemma_same_stretch(now, s, text, start, k);
    lemma_point_bound(text, start);
    lemma_point_bound(text, end);
    lemma_point_bound(now, s);
    lemma_point_bound(now, s + k);
    if k > 0 {
        lemma_points_ascend(text, start, end);
    }
    assert(edit_end(g) == (row_at(now, s + k), column_at(now, s + k)));
    clipping_keeps_positions(now, s, false);
    clipping_keeps_positions(now, s + k, false);
    assert(now.skip(s + k) =~= text.subrange(end, len));
    let c = content_change()(g);
    assert(c.range == Some((point_at(now, s), point_at(now, s + k))));
    assert(changed(now, c) =~= head + g.new_text@ + text.subrange(end, len));
}

proof fn lemma_told(text: Seq<char>, edits: Seq<EditView>, given: Seq<BufferEdit>, n: int)
    requires
        in_order(edits, 0, text.len() as int),
        describe(given, text, edits),
        forall|k: int|
            0 <= k <= edits.len() ==> fits_points(#[trigger] applied(text, edits.take(k))),
        0 <= n <= edits.len(),
    ensures
        changed_by(text, given.take(n).map_values(content_change())) == applied(
            text,
            edits.take(n),
        ),
        forall|i: int| 0 <= i < n ==> edit_fits(#[trigger] given[i]),
    decreases n,
{
    assert(edits.take(0) =~= Seq::empty());
    assert(applied(text, edits.take(0)) =~= text);
    if n == 0 {
        assert(given.take(0).map_values(content_change()) =~= Seq::empty());
    } else {
        let i = n - 1;
        let g = given[i];
        lemma_told(text, edits, given, i);
        lemma_before_edit(text, edits, i);
        assert(edits.take(edits.len() as int) =~= edits);
        assert(fits_points(applied(text, edits.take(edits.len() as int))));
        assert(fits_points(applied(text, edits.take(i))));
        assert(fits_points(applied(text, edits.take(0))));
        lemma_change_made(
            text,
            applied(text, edits),
            spelled(text, edits.take(i), 0, edits[i].start),
            edits[i].start,
            edits[i].end,
            g,
        );
        let told = given.take(n).map_values(content_change());
        assert(told.drop_last() =~= given.take(i).map_values(content_change()));
        assert(told.last() == content_change()(g));
    }
}

/// A server that makes the changes that it is told of, one after the other, has the text of the
/// buffer: the changes for edits that lead from one text to another lead there too.
pub proof fn servers_follow_the_text(
    text: Seq<char>,
    edits: Seq<EditView>,
    given: Seq<BufferEdit>,
)
    requires
        in_order(edits, 0, text.len() as int),
        describe(given, text, edits),
        forall|k: int|
            0 <= k <= edits.len() ==> fits_points(#[trigger] applied(text, edits.take(k))),
    ensures
        forall|i: int| 0 <= i < given.len() ==> edit_fits(#[trigger] given[i]),
        changed_by(text, given.map_values(content_change())) == applied(text, edits),
{
    lemma_told(text, edits, given, edits.len() as int);
    assert(given.take(edits.len() as int) =~= given);
    assert(edits.take(edits.len() as int) =~= edits);
}

/// How a server wants to hear of changes.
pub open spec fn sync_kind(server: LanguageServer) -> Option<SyncKind> {
    match server.text_document_sync {
        Some(TextDocumentSync::Kind(kind)) => Some(kind),
        Some(TextDocumentSync::Options { change, .. }) => change,
        None => None,
    }
}

fn document_sync_kind(server: &LanguageServer) -> (r: Option<SyncKind>)
    ensures
        r == sync_kind(*server),
{
    match server.text_document_sync {
        Some(TextDocumentSync::Kind(kind)) => Some(kind),
        Some(TextDocumentSync::Options { change, .. }) => change,
        None => None,
    }
}

/// Whether a server wants the text of a document that is saved.
pub open spec fn wants_text(server: LanguageServer) -> bool {
    server.text_document_sync matches Some(
        TextDocumentSync::Options {
            save: Some(SaveOptions::Options { include_text: Some(true) }),
            ..
        },
    )
}

pub fn include_text(server: &LanguageServer) -> (r: bool)
    ensures
        r == wants_text(*server),
{
    match server.text_document_sync {
        Some(TextDocumentSync::Options { save: Some(SaveOptions::Options { include_text }), .. }) => {
            match include_text {
                Some(b) => b,
                None => false,
            }
        },
        _ => false,
    }
}

/// All of the first `n` servers know a text of the buffer.
pub open spec fn all_know(
    known: Map<(u64, LanguageServerId), Seq<LspBufferSnapshot>>,
    buffer_id: u64,
    servers: Seq<(Arc<LspAdapter>, Arc<LanguageServer>)>,
    n: int,
) -> bool {
    forall|j: int|
        0 <= j < n ==> known.contains_key((buffer_id, (#[trigger] servers[j]).1.server_id))
}

/// A server is told of every change of a document.
pub open spec fn follows_changes(server: Arc<LanguageServer>) -> bool {
    sync_kind(*server) == Some(SyncKind::Full) || sync_kind(*server) == Some(SyncKind::Incremental)
}

/// The texts that servers know once the first `n` servers of an edited buffer have been told. At a
/// server that knows no text of the buffer the round ends.
pub open spec fn edited_snapshots(
    known: Map<(u64, LanguageServerId), Seq<LspBufferSnapshot>>,
    buffer: Buffer,
    servers: Seq<(Arc<LspAdapter>, Arc<LanguageServer>)>,
    n: int,
) -> Map<(u64, LanguageServerId), Seq<LspBufferSnapshot>>
    decreases n,
{
    if n <= 0 {
        known
    } else {
        let m = edited_snapshots(known, buffer, servers, n - 1);
        let server = servers[n - 1].1;
        let key = (buffer.remote_id, server.server_id);
        if all_know(known, buffer.remote_id, servers, n) && follows_changes(server) {
            m.insert(
                key,
                m[key].push(
                    LspBufferSnapshot {
                        version: (m[key].last().version + 1) as i32,
                        snapshot: buffer.snapshot,
                    },
                ),
            )
        } else {
            m
        }
    }
}

/// What the first `n` servers of an edited buffer are told.
pub open spec fn edited_effects(
    known: Map<(u64, LanguageServerId), Seq<LspBufferSnapshot>>,
    buffer: Buffer,
    document: Path,
    servers: Seq<(Arc<LspAdapter>, Arc<LanguageServer>)>,
    n: int,
) -> Seq<Effect>
    decreases n,
{
    if n <= 0 {
        Seq::empty()
    } else {
        let done = edited_effects(known, buffer, document, servers, n - 1);
        let m = edited_snapshots(known, buffer, servers, n - 1);
        let server = servers[n - 1].1;
        let last = m[(buffer.remote_id, server.server_id)].last();
        if all_know(known, buffer.remote_id, servers, n) && follows_changes(server) {
            done.push(
                Effect::NotifyServer(
                    server.server_id,
                    ServerNotification::DidChange {
                        document,
                        version: (last.version + 1) as i32,
                        change: if sync_kind(*server) == Some(SyncKind::Full) {
                            DocumentChange::Full(buffer.snapshot.text)
                        } else {
                            DocumentChange::EditsSince(last.snapshot.version)
                        },
                    },
                ),
            )
        } else {
            done
        }
    }
}

/// There is room for `n` more versions of each text of a buffer.
pub open spec fn versions_left(
    known: Map<(u64, LanguageServerId), Seq<LspBufferSnapshot>>,
    buffer_id: u64,
    n: int,
) -> bool {
    forall|k: (u64, LanguageServerId)| #[trigger]
        known.contains_key(k) && k.0 == buffer_id ==> known[k].last().version + n <= i32::MAX
}

proof fn lemma_edited(
    known: Map<(u64, LanguageServerId), Seq<LspBufferSnapshot>>,
    buffer: Buffer,
    servers: Seq<(Arc<LspAdapter>, Arc<LanguageServer>)>,
    n: int,
    total: int,
)
    requires
        0 <= n <= total,
        versions_left(known, buffer.remote_id, total),
        forall|k: (u64, LanguageServerId)| #[trigger]
            known.contains_key(k) ==> versions_ascend(known[k]),
    ensures
        ({
            let m = edited_snapshots(known, buffer, servers, n);
            &&& m.dom() == known.dom()
            &&& forall|k: (u64, LanguageServerId)| #[trigger]
                m.contains_key(k) ==> versions_ascend(m[k])
            &&& versions_left(m, buffer.remote_id, total - n)
        }),
    decreases n,
{
    if n > 0 {
        lemma_edited(known, buffer, servers, n - 1, total);
        let m = edited_snapshots(known, buffer, servers, n - 1);
        let next = edited_snapshots(known, buffer, servers, n);
        let server = servers[n - 1].1;
        let key = (buffer.remote_id, server.server_id);
        if all_know(known, buffer.remote_id, servers, n) && follows_changes(server) {
            assert(known.contains_key((buffer.remote_id, servers[n - 1].1.server_id)));
            assert(m.contains_key(key));
            let old_texts = m[key];
            let texts = next[key];
            assert(versions_ascend(old_texts));
            assert forall|i: int, j: int|
                #![trigger texts[i], texts[j]]
                0 <= i < j < texts.len() implies texts[i].version < texts[j].version by {
                if j == old_texts.len() {
                    assert(texts[i] == old_texts[i]);
                    if i < old_texts.len() - 1 {
                        assert(old_texts[i].version < old_texts[old_texts.len() - 1].version);
                    }
                } else {
                    assert(texts[i] == old_texts[i] && texts[j] == old_texts[j]);
                }
            }
            assert(next.dom() =~= known.dom());
        }
    }
}

pub open spec fn save_effect(document: Path, text: Arc<String>) -> spec_fn(
    (Arc<LspAdapter>, Arc<LanguageServer>),
) -> Effect {
    |s: (Arc<LspAdapter>, Arc<LanguageServer>)|
        Effect::NotifyServer(
            s.1.server_id,
            ServerNotification::DidSave {
                document,
                text: if wants_text(*s.1) {
                    Some(text)
                } else {
                    None
                },
            },
        )
}

/// A running server that does not report when its diagnostics are finished.
pub open spec fn needs_timer(servers: Map<LanguageServerId, LanguageServerState>, id: LanguageServerId) -> bool {
    match running(servers)(id) {
        Some(s) => s.0.disk_based_diagnostics_progress_token is None,
        None => false,
    }
}

pub open spec fn timer_effect(servers: Map<LanguageServerId, LanguageServerState>) -> spec_fn(
    LanguageServerId,
) -> Option<Effect> {
    |id: LanguageServerId|
        if needs_timer(servers, id) {
            Some(
                Effect::StartDiagnosticsTimer {
                    server_id: id,
                    delay: DISK_BASED_DIAGNOSTICS_DEBOUNCE,
                },
            )
        } else {
            None
        }
}

pub open spec fn with_timer(state: LanguageServerState) -> LanguageServerState {
    match state {
        LanguageServerState::Starting => LanguageServerState::Starting,
        LanguageServerState::Running { language, adapter, server, watched_paths, .. } => {
            LanguageServerState::Running {
                language,
                adapter,
                server,
                watched_paths,
                simulate_disk_based_diagnostics_completion: true,
            }
        },
    }
}

/// The servers, those among `ids` that need a timer having got one.
pub open spec fn with_timers(
    servers: Map<LanguageServerId, LanguageServerState>,
    ids: Seq<LanguageServerId>,
) -> Map<LanguageServerId, LanguageServerState> {
    Map::new(
        |id: LanguageServerId| servers.contains_key(id),
        |id: LanguageServerId|
            if ids.contains(id) && needs_timer(servers, id) {
                with_timer(servers[id])
            } else {
                servers[id]
            },
    )
}

impl Project {
    /// Tells the servers of an edited buffer of its new text.
    fn buffer_edited(&mut self, buffer: &Buffer, document: &Path, out: &mut Vec<Effect>)
        requires
            old(self).snapshots_ordered(),
            versions_left(
                snapshot_map(old(self).buffer_snapshots),
                buffer.remote_id,
                old(self).servers_of_buffer(*buffer).len() as int,
            ),
        ensures
            final(self).snapshots_ordered(),
            *final(self) == (Project {
                buffer_snapshots: final(self).buffer_snapshots,
                ..*old(self)
            }),
            ({
                let known = snapshot_map(old(self).buffer_snapshots);
                let servers = old(self).servers_of_buffer(*buffer);
                let n = servers.len() as int;
                &&& snapshot_map(final(self).buffer_snapshots) == edited_snapshots(
                    known,
                    *buffer,
                    servers,
                    n,
                )
                &&& final(out)@ == old(out)@ + edited_effects(
                    known,
                    *buffer,
                    *document,
                    servers,
                    n,
                )
            }),
    {
        let servers = self.language_servers_for_buffer(buffer);
        let ghost known = snapshot_map(self.buffer_snapshots);
        let ghost total = servers@.len() as int;
        assert(out@ + Seq::<Effect>::empty() =~= out@);
        let mut going = true;
        for i in 0..servers.len()
            invariant
                known == snapshot_map(old(self).buffer_snapshots),
                servers@ == old(self).servers_of_buffer(*buffer),
                total == servers@.len(),
                versions_left(known, buffer.remote_id, total),
                old(self).snapshots_ordered(),
                self.snapshots_ordered(),
                *self == (Project { buffer_snapshots: self.buffer_snapshots, ..*old(self) }),
                going == all_know(known, buffer.remote_id, servers@, i as int),
                snapshot_map(self.buffer_snapshots) == edited_snapshots(
                    known,
                    *buffer,
                    servers@,
                    i as int,
                ),
                out@ == old(out)@ + edited_effects(
                    known,
                    *buffer,
                    *document,
                    servers@,
                    i as int,
                ),
        {
            let ghost m = edited_snapshots(known, *buffer, servers@, i as int);
            let ghost done = edited_effects(known, *buffer, *document, servers@, i as int);
            proof {
                lemma_edited(known, *buffer, servers@, i as int, total);
                lemma_edited(known, *buffer, servers@, i + 1, total);
            }
            let server = servers[i].1.clone();
            let ghost key = (buffer.remote_id, server.server_id);
            if going {
                match self.take_snapshots(buffer.remote_id, server.server_id) {
                    None => {
                        going = false;
                        proof {
                            assert(!m.contains_key(key));
                            assert(!known.contains_key(
                                (buffer.remote_id, servers@[i as int].1.server_id),
                            ));
                            assert(m.remove(key) =~= m);
                        }
                    },
                    Some(mut snapshots) => {
                        proof {
                            assert(m.contains_key(key));
                            assert(versions_ascend(m[key]));
                            assert(known.contains_key(
                                (buffer.remote_id, servers@[i as int].1.server_id),
                            ));
                            assert(all_know(known, buffer.remote_id, servers@, i + 1));
                        }
                        let kind = document_sync_kind(&server);
                        let last = &snapshots[snapshots.len() - 1];
                        let change: Option<DocumentChange> = match kind {
                            Some(SyncKind::Full) => Some(
                                DocumentChange::Full(buffer.snapshot.text.clone()),
                            ),
                            Some(SyncKind::Incremental) => Some(
                                DocumentChange::EditsSince(last.snapshot.version),
                            ),
                            _ => None,
                        };
                        if let Some(change) = change {
                            let version: i32 = last.version + 1;
                            let ghost e = Effect::NotifyServer(
                                server.server_id,
                                ServerNotification::DidChange {
                                    document: *document,
                                    version,
                                    change,
                                },
                            );
                            snapshots.push(
                                LspBufferSnapshot { version, snapshot: buffer.snapshot.clone() },
                            );
                            out.push(
                                Effect::NotifyServer(
                                    server.server_id,
                                    ServerNotification::DidChange {
                                        document: document.clone(),
                                        version,
                                        change,
                                    },
                                ),
                            );
                            assert(out@ =~= old(out)@ + done.push(e));
                        }
                        self.put_snapshots(buffer.remote_id, server.server_id, snapshots);
                        assert(snapshot_map(self.buffer_snapshots) =~= edited_snapshots(
                            known,
                            *buffer,
                            servers@,
                            i + 1,
                        ));
                    },
                }
            } else {
                proof {
                    let j = choose|j: int|
                        0 <= j < i && !known.contains_key(
                            (buffer.remote_id, (#[trigger] servers@[j]).1.server_id),
                        );
                    assert(!known.contains_key((buffer.remote_id, servers@[j].1.server_id)));
                    assert(!all_know(known, buffer.remote_id, servers@, i + 1));
                }
            }
        }
    }

    /// Tells the servers of a buffer's worktree that it was saved, and starts timers for those of
    /// its servers that do not report when their diagnostics are finished.
    fn buffer_saved(&mut self, buffer: &Buffer, file: &File, out: &mut Vec<Effect>)
        ensures
            final(self).language_servers@ == with_timers(
                old(self).language_servers@,
                old(self).server_ids_of_buffer(*buffer),
            ),
            *final(self) == (Project {
                language_servers: final(self).language_servers,
                ..*old(self)
            }),
            final(out)@ == old(out)@ + old(self).servers_of_worktree(file.worktree_id).map_values(
                save_effect(file.abs_path, buffer.snapshot.text),
            ) + old(self).server_ids_of_buffer(*buffer).filter_map(
                timer_effect(old(self).language_servers@),
            ),
    {
        let servers = self.language_servers_for_worktree(file.worktree_id);
        let ghost all = servers@.map_values(save_effect(file.abs_path, buffer.snapshot.text));
        assert(out@ + all.take(0) =~= out@);
        for i in 0..servers.len()
            invariant
                all == servers@.map_values(save_effect(file.abs_path, buffer.snapshot.text)),
                out@ == old(out)@ + all.take(i as int),
        {
            let server = &servers[i].1;
            let text = if include_text(server) {
                Some(buffer.snapshot.text.clone())
            } else {
                None
            };
            out.push(
                Effect::NotifyServer(
                    server.server_id,
                    ServerNotification::DidSave { document: file.abs_path.clone(), text },
                ),
            );
            assert(out@ =~= old(out)@ + all.take(i + 1));
        }
        assert(all.take(all.len() as int) =~= all);
        let ghost mid = out@;
        let ids = self.language_server_ids_for_buffer(buffer);
        let ghost f = timer_effect(self.language_servers@);
        let ghost servers0 = self.language_servers@;
        proof {
            lemma_take_all(ids@);
            assert(mid + Seq::<Effect>::empty() =~= mid);
            assert(with_timers(servers0, Seq::empty()) =~= servers0);
        }
        for i in 0..ids.len()
            invariant
                f == timer_effect(servers0),
                servers0 == old(self).language_servers@,
                *self == (Project { language_servers: self.language_servers, ..*old(self) }),
                self.language_servers@ == with_timers(servers0, ids@.take(i as int)),
                out@ == mid + ids@.take(i as int).filter_map(f),
        {
            let ghost done = ids@.take(i as int).filter_map(f);
            let ghost cur = self.language_servers@;
            let id = ids[i];
            proof {
                lemma_filter_map_step(ids@, f, i as int);
                assert forall|k: LanguageServerId|
                    ids@.take(i + 1).contains(k) == (#[trigger] ids@.take(i as int).contains(k)
                        || k == id) by {
                    crate::seqs::lemma_contains_step(ids@, i as int, k);
                }
            }
            match self.language_servers.remove(&id) {
                Some(
                    LanguageServerState::Running {
                        language,
                        adapter,
                        server,
                        watched_paths,
                        simulate_disk_based_diagnostics_completion,
                    },
                ) => {
                    let needs = adapter.disk_based_diagnostics_progress_token.is_none();
                    self.language_servers.insert(
                        id,
                        LanguageServerState::Running {
                            language,
                            adapter,
                            server,
                            watched_paths,
                            simulate_disk_based_diagnostics_completion:
                                simulate_disk_based_diagnostics_completion || needs,
                        },
                    );
                    if needs {
                        let ghost timer = Effect::StartDiagnosticsTimer {
                            server_id: id,
                            delay: DISK_BASED_DIAGNOSTICS_DEBOUNCE,
                        };
                        out.push(
                            Effect::StartDiagnosticsTimer {
                                server_id: id,
                                delay: DISK_BASED_DIAGNOSTICS_DEBOUNCE,
                            },
                        );
                        assert(out@ =~= mid + done.push(timer));
                    }
                },
                Some(LanguageServerState::Starting) => {
                    self.language_servers.insert(id, LanguageServerState::Starting);
                },
                None => {},
            }
            assert(self.language_servers@ =~= with_timers(servers0, ids@.take(i + 1)));
        }
    }

    /// Does what follows when something happened to a buffer.
    pub fn on_buffer_event(
        &mut self,
        buffer: &Buffer,
        event: BufferEvent,
        gutter_debounce: Option<u64>,
        out: &mut Vec<Effect>,
    )
        requires
            old(self).snapshots_ordered(),
            event is Edited ==> versions_left(
                snapshot_map(old(self).buffer_snapshots),
                buffer.remote_id,
                old(self).servers_of_buffer(*buffer).len() as int,
            ),
        ensures
            final(self).snapshots_ordered(),
            ({
                let recalculates = event is Edited || event is Reloaded || event is DiffBaseChanged;
                let diffs = if recalculates {
                    diff_effects(
                        final(self).buffers_needing_diff.items().len() == 1,
                        gutter_debounce,
                    )
                } else {
                    Seq::empty()
                };
                &&& final(self).buffers_needing_diff@ == (if recalculates {
                    old(self).buffers_needing_diff@.insert(buffer.entity_id)
                } else {
                    old(self).buffers_needing_diff@
                })
                &&& match (event, buffer.file) {
                    (BufferEvent::Operation(operation), _) => {
                        &&& *final(self) == *old(self)
                        &&& final(out)@ == old(out)@.push(
                            Effect::QueueMessage(
                                BufferOrderedMessage::Operation {
                                    buffer_id: buffer.remote_id,
                                    operation,
                                },
                            ),
                        )
                    },
                    (BufferEvent::Edited, Some(file)) => if file.is_local {
                        let known = snapshot_map(old(self).buffer_snapshots);
                        let servers = old(self).servers_of_buffer(*buffer);
                        let n = servers.len() as int;
                        &&& snapshot_map(final(self).buffer_snapshots) == edited_snapshots(
                            known,
                            *buffer,
                            servers,
                            n,
                        )
                        &&& *final(self) == (Project {
                            buffer_snapshots: final(self).buffer_snapshots,
                            buffers_needing_diff: final(self).buffers_needing_diff,
                            ..*old(self)
                        })
                        &&& final(out)@ == old(out)@ + diffs + edited_effects(
                            known,
                            *buffer,
                            file.abs_path,
                            servers,
                            n,
                        )
                    } else {
                        &&& *final(self) == (Project {
                            buffers_needing_diff: final(self).buffers_needing_diff,
                            ..*old(self)
                        })
                        &&& final(out)@ == old(out)@ + diffs
                    },
                    (BufferEvent::Saved, Some(file)) => if file.is_local {
                        &&& final(self).language_servers@ == with_timers(
                            old(self).language_servers@,
                            old(self).server_ids_of_buffer(*buffer),
                        )
                        &&& *final(self) == (Project {
                            language_servers: final(self).language_servers,
                            ..*old(self)
                        })
                        &&& final(out)@ == old(out)@ + old(self).servers_of_worktree(
                            file.worktree_id,
                        ).map_values(save_effect(file.abs_path, buffer.snapshot.text)) + old(
                            self,
                        ).server_ids_of_buffer(*buffer).filter_map(
                            timer_effect(old(self).language_servers@),
                        )
                    } else {
                        *final(self) == *old(self) && final(out)@ == old(out)@
                    },
                    (BufferEvent::FileHandleChanged, Some(file)) => {
                        &&& final(out)@ == old(out)@
                        &&& if old(self).local_buffer_ids_by_entry_id@.contains_key(file.entry_id) {
                            *final(self) == *old(self)
                        } else {
                            &&& final(self).local_buffer_ids_by_entry_id@ == old(
                                self,
                            ).local_buffer_ids_by_entry_id@.insert(file.entry_id, buffer.remote_id)
                            &&& final(self).local_buffer_ids_by_path@ == old(
                                self,
                            ).local_buffer_ids_by_path@.insert(
                                (ProjectPath { worktree_id: file.worktree_id, path: file.path })@,
                                buffer.remote_id,
                            )
                            &&& *final(self) == (Project {
                                local_buffer_ids_by_entry_id: final(self).local_buffer_ids_by_entry_id,
                                local_buffer_ids_by_path: final(self).local_buffer_ids_by_path,
                                ..*old(self)
                            })
                        }
                    },
                    _ => {
                        &&& *final(self) == (Project {
                            buffers_needing_diff: final(self).buffers_needing_diff,
                            ..*old(self)
                        })
                        &&& final(out)@ == old(out)@ + diffs
                    },
                }
            }),
    {
        match event {
            BufferEvent::Edited | BufferEvent::Reloaded | BufferEvent::DiffBaseChanged => {
                self.request_buffer_diff_recalculation(buffer.entity_id, gutter_debounce, out);
            },
            _ => {
                assert(out@ + Seq::<Effect>::empty() =~= out@);
            },
        }
        let ghost before = *self;
        assert(before.servers_of_buffer(*buffer) == old(self).servers_of_buffer(*buffer));
        match event {
            BufferEvent::Operation(operation) => {
                out.push(
                    Effect::QueueMessage(
                        BufferOrderedMessage::Operation { buffer_id: buffer.remote_id, operation },
                    ),
                );
            },
            BufferEvent::Edited => {
                if let Some(file) = &buffer.file {
                    if file.is_local {
                        self.buffer_edited(buffer, &file.abs_path, out);
                    }
                }
            },
            BufferEvent::Saved => {
                if let Some(file) = &buffer.file {
                    if file.is_local {
                        self.buffer_saved(buffer, file, out);
                    }
                }
            },
            BufferEvent::FileHandleChanged => {
                if let Some(file) = &buffer.file {
                    if !self.local_buffer_ids_by_entry_id.contains_key(&file.entry_id) {
                        self.local_buffer_ids_by_entry_id.insert(file.entry_id, buffer.remote_id);
                        self.local_buffer_ids_by_path.insert(
                            ProjectPath { worktree_id: file.worktree_id, path: file.path.clone() },
                            buffer.remote_id,
                        );
                    }
                }
            },
            _ => {},
        }
    }

    /// The diagnostics of a server count as finished, since its timer has run out.
    pub fn diagnostics_timer_fired(&self, language_server_id: LanguageServerId, out: &mut Vec<Effect>)
        ensures
            final(out)@ == old(out)@ + seq![
                Effect::Emit(Event::DiskBasedDiagnosticsFinished { language_server_id }),
                Effect::QueueMessage(
                    BufferOrderedMessage::LanguageServerUpdate {
                        language_server_id,
                        message: ServerUpdate::DiskBasedDiagnosticsUpdated,
                    },
                ),
            ],
    {
        out.push(Effect::Emit(Event::DiskBasedDiagnosticsFinished { language_server_id }));
        out.push(
            Effect::QueueMessage(
                BufferOrderedMessage::LanguageServerUpdate {
                    language_server_id,
                    message: ServerUpdate::DiskBasedDiagnosticsUpdated,
                },
            ),
        );
        assert(out@ =~= old(out)@ + seq![
            Effect::Emit(Event::DiskBasedDiagnosticsFinished { language_server_id }),
            Effect::QueueMessage(
                BufferOrderedMessage::LanguageServerUpdate {
                    language_server_id,
                    message: ServerUpdate::DiskBasedDiagnosticsUpdated,
                },
            ),
        ]);
    }
}

/// A server hears of changes in the way it has asked for, directly or among its options.
pub proof fn servers_choose_how_they_hear(server: LanguageServer, kind: SyncKind)
    ensures
        server.text_document_sync == Some(TextDocumentSync::Kind(kind)) ==> sync_kind(server)
            == Some(kind),
        server.text_document_sync is None ==> sync_kind(server) is None,
        server.text_document_sync is Some && server.text_document_sync->0 is Options ==> sync_kind(
            server,
        ) == server.text_document_sync->0->change,
{
}

/// Only a server that has asked for it gets the text of a document that is saved.
pub proof fn texts_are_saved_on_demand(server: LanguageServer)
    ensures
        wants_text(server) <==> server.text_document_sync is Some
            && server.text_document_sync->0 is Options && (
        server.text_document_sync->0->save == Some(
            SaveOptions::Options { include_text: Some(true) },
        )),
{
}

proof fn lemma_untouched(
    known: Map<(u64, LanguageServerId), Seq<LspBufferSnapshot>>,
    buffer: Buffer,
    servers: Seq<(Arc<LspAdapter>, Arc<LanguageServer>)>,
    n: int,
    key: (u64, LanguageServerId),
)
    requires
        n <= servers.len(),
        key.0 != buffer.remote_id || forall|j: int|
            0 <= j < n ==> (#[trigger] servers[j]).1.server_id != key.1,
    ensures
        edited_snapshots(known, buffer, servers, n).contains_key(key) == known.contains_key(key),
        known.contains_key(key) ==> edited_snapshots(known, buffer, servers, n)[key] == known[key],
    decreases n,
{
    if n > 0 {
        lemma_untouched(known, buffer, servers, n - 1, key);
    }
}

/// Each server that follows changes, and that knows a text of the buffer as all before it do, is told
/// of an edit: under the next version, with the whole text if it wants that, and else with the edits
/// since the text that it knows. The new text is then known under that version.
pub proof fn every_server_hears_of_an_edit(
    known: Map<(u64, LanguageServerId), Seq<LspBufferSnapshot>>,
    buffer: Buffer,
    document: Path,
    servers: Seq<(Arc<LspAdapter>, Arc<LanguageServer>)>,
    n: int,
    i: int,
)
    requires
        0 <= i < n <= servers.len(),
        forall|j: int|
            0 <= j <= i ==> known.contains_key(
                (buffer.remote_id, (#[trigger] servers[j]).1.server_id),
            ),
        forall|j: int|
            0 <= j < servers.len() && j != i ==> (#[trigger] servers[j]).1.server_id
                != servers[i].1.server_id,
        sync_kind(*servers[i].1) == Some(SyncKind::Full) || sync_kind(*servers[i].1) == Some(
            SyncKind::Incremental,
        ),
    ensures
        ({
            let id = servers[i].1.server_id;
            let key = (buffer.remote_id, id);
            let last = known[key].last();
            let now = edited_snapshots(known, buffer, servers, n);
            let effects = edited_effects(known, buffer, document, servers, n);
            let version = (last.version + 1) as i32;
            &&& sync_kind(*servers[i].1) == Some(SyncKind::Full) ==> effects.contains(
                Effect::NotifyServer(
                    id,
                    ServerNotification::DidChange {
                        document,
                        version,
                        change: DocumentChange::Full(buffer.snapshot.text),
                    },
                ),
            )
            &&& sync_kind(*servers[i].1) == Some(SyncKind::Incremental) ==> effects.contains(
                Effect::NotifyServer(
                    id,
                    ServerNotification::DidChange {
                        document,
                        version,
                        change: DocumentChange::EditsSince(last.snapshot.version),
                    },
                ),
            )
            &&& now.contains_key(key)
            &&& now[key].drop_last() == known[key]
            &&& now[key].last().version == version
            &&& now[key].last().snapshot == buffer.snapshot
        }),
    decreases n,
{
    let id = servers[i].1.server_id;
    let key = (buffer.remote_id, id);
    let before = edited_effects(known, buffer, document, servers, n - 1);
    let after = edited_effects(known, buffer, document, servers, n);
    if i < n - 1 {
        every_server_hears_of_an_edit(known, buffer, document, servers, n - 1, i);
        assert(servers[n - 1].1.server_id != id);
        assert forall|e: Effect| before.contains(e) implies #[trigger] after.contains(e) by {
            let k = choose|k: int| 0 <= k < before.len() && before[k] == e;
            assert(after[k] == e);
        }
    } else {
        lemma_untouched(known, buffer, servers, n - 1, key);
        assert(all_know(known, buffer.remote_id, servers, n));
        assert(after.last() == after[before.len() as int]);
        let now = edited_snapshots(known, buffer, servers, n);
        assert(now[key].drop_last() =~= known[key]);
    }
}

/// An edit changes nothing of what is known of other buffers, nor of what servers know that do not
/// work on the buffer.
pub proof fn other_texts_stay_known(
    known: Map<(u64, LanguageServerId), Seq<LspBufferSnapshot>>,
    buffer: Buffer,
    servers: Seq<(Arc<LspAdapter>, Arc<LanguageServer>)>,
    n: int,
    key: (u64, LanguageServerId),
)
    requires
        n <= servers.len(),
        key.0 != buffer.remote_id || forall|j: int|
            0 <= j < n ==> (#[trigger] servers[j]).1.server_id != key.1,
    ensures
        edited_snapshots(known, buffer, servers, n).contains_key(key) == known.contains_key(key),
        known.contains_key(key) ==> edited_snapshots(known, buffer, servers, n)[key] == known[key],
{
    lemma_untouched(known, buffer, servers, n, key);
}

/// Each server of a worktree is told that a document was saved, with its text if it wants that.
pub proof fn every_server_hears_of_a_save(
    servers: Seq<(Arc<LspAdapter>, Arc<LanguageServer>)>,
    document: Path,
    text: Arc<String>,
    effects: Seq<Effect>,
)
    requires
        effects == servers.map_values(save_effect(document, text)),
    ensures
        effects.len() == servers.len(),
        forall|i: int|
            0 <= i < servers.len() && wants_text(*servers[i].1) ==> #[trigger] effects[i]
                == Effect::NotifyServer(
                servers[i].1.server_id,
                ServerNotification::DidSave { document, text: Some(text) },
            ),
        forall|i: int|
            0 <= i < servers.len() && !wants_text(*servers[i].1) ==> #[trigger] effects[i]
                == Effect::NotifyServer(
                servers[i].1.server_id,
                ServerNotification::DidSave { document, text: None },
            ),
{
}

/// A timer of one second is started for each running server among the given ones that does not report
/// when its diagnostics are finished, and for no other. Such a server is marked, and nothing else of
/// any server changes.
pub proof fn silent_servers_get_a_timer(
    servers: Map<LanguageServerId, LanguageServerState>,
    ids: Seq<LanguageServerId>,
    id: LanguageServerId,
)
    ensures
        ({
            let is_silent = servers.contains_key(id) && servers[id] is Running
                && servers[id]->adapter.disk_based_diagnostics_progress_token is None;
            let now = with_timers(servers, ids);
            &&& is_silent ==> timer_effect(servers)(id) == Some(
                Effect::StartDiagnosticsTimer { server_id: id, delay: 1000 },
            )
            &&& !is_silent ==> timer_effect(servers)(id) is None
            &&& now.contains_key(id) == servers.contains_key(id)
            &&& is_silent && ids.contains(id) ==> now[id] is Running
                && now[id]->simulate_disk_based_diagnostics_completion && now[id]->server
                == servers[id]->server && now[id]->adapter == servers[id]->adapter
                && now[id]->language == servers[id]->language && now[id]->watched_paths
                == servers[id]->watched_paths
            &&& servers.contains_key(id) && !(is_silent && ids.contains(id)) ==> now[id]
                == servers[id]
        }),
{
}

} // verus!
