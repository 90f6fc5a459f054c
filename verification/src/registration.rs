//! How buffers become known to the project and to language servers.

use crate::effects::{Effect, Event, Message, ServerNotification};
use crate::ids::{EntityId, LanguageServerId, LanguageServerName, WorktreeId};
use crate::map::SortedMap;
use crate::model::{AppContext, Buffer, File, Language, LanguageServer, LspAdapter};
use crate::path::Path;
use crate::project::{LanguageServerState, LspBufferSnapshot, OpenBuffer, Project, ProjectError};
use crate::seqs::{
    find_map, lemma_filter_map_step, lemma_find_map_found, lemma_find_map_none, lemma_take_all,
};
use crate::servers::{fresh_status, is_fresh_status, running};
use crate::snapshots::{snapshot_map, versions_ascend, without_buffer};
use std::sync::Arc;
use vstd::prelude::*;

verus! {

pub open spec fn id_of_language(name: Seq<char>) -> spec_fn((String, String)) -> Option<String> {
    |p: (String, String)|
        if p.0@ == name {
            Some(p.1)
        } else {
            None
        }
}

impl LspAdapter {
    /// The identifier that the server knows a language by.
    pub open spec fn id_for_language(self, name: Seq<char>) -> Option<String> {
        find_map(self.language_ids@, id_of_language(name))
    }

    pub fn language_id(&self, name: &String) -> (r: Option<String>)
        ensures
            r == self.id_for_language(name@),
    {
        for i in 0..self.language_ids.len()
            invariant
                forall|j: int|
                    0 <= j < i ==> id_of_language(name@)(#[trigger] self.language_ids@[j]) is None,
        {
            if self.language_ids[i].0 == *name {
                proof {
                    lemma_find_map_found(self.language_ids@, id_of_language(name@), i as int);
                }
                return Some(self.language_ids[i].1.clone());
            }
        }
        proof {
            lemma_find_map_none(self.language_ids@, id_of_language(name@));
        }
        None
    }
}

/// What a server and a buffer are told when the buffer is opened in the server.
pub open spec fn open_effects(
    buffer: Buffer,
    file: File,
    language: Arc<Language>,
    adapter: Arc<LspAdapter>,
    server: Arc<LanguageServer>,
    snapshot: LspBufferSnapshot,
) -> Seq<Effect> {
    seq![
        Effect::NotifyServer(
            server.server_id,
            ServerNotification::DidOpen {
                document: file.abs_path,
                language_id: adapter.id_for_language(language.name@),
                version: snapshot.version,
                text: snapshot.snapshot.text,
            },
        ),
        Effect::SetCompletionTriggers {
            buffer: buffer.entity_id,
            characters: server.completion_trigger_characters,
        },
    ]
}

/// The text of a buffer as a server first learns of it.
pub open spec fn first_snapshot(buffer: Buffer) -> LspBufferSnapshot {
    LspBufferSnapshot { version: 0, snapshot: buffer.snapshot }
}

/// The server that is running on a worktree under an adapter's name.
pub open spec fn running_for(
    ids: Map<(WorktreeId, Seq<char>), LanguageServerId>,
    servers: Map<LanguageServerId, LanguageServerState>,
    worktree_id: WorktreeId,
    adapter: Arc<LspAdapter>,
) -> Option<Arc<LanguageServer>> {
    if ids.contains_key((worktree_id, adapter.name@)) {
        match running(servers)(ids[(worktree_id, adapter.name@)]) {
            Some(s) => Some(s.1),
            None => None,
        }
    } else {
        None
    }
}

/// What is done to open a buffer in the servers of its language's first `n` adapters.
pub open spec fn register_effects(
    project: Project,
    buffer: Buffer,
    file: File,
    language: Arc<Language>,
    n: int,
) -> Seq<Effect>
    decreases n,
{
    if n <= 0 {
        Seq::empty()
    } else {
        let done = register_effects(project, buffer, file, language, n - 1);
        let adapter = language.lsp_adapters@[n - 1];
        match running_for(
            project.language_server_ids@,
            project.language_servers@,
            file.worktree_id,
            adapter,
        ) {
            Some(server) => done + open_effects(
                buffer,
                file,
                language,
                adapter,
                server,
                first_snapshot(buffer),
            ),
            None => done,
        }
    }
}

/// The texts that servers know once a buffer has been opened in the servers of its language's
/// first `n` adapters.
pub open spec fn registered_snapshots(
    project: Project,
    buffer: Buffer,
    file: File,
    language: Arc<Language>,
    n: int,
) -> Map<(u64, LanguageServerId), Seq<LspBufferSnapshot>>
    decreases n,
{
    if n <= 0 {
        snapshot_map(project.buffer_snapshots)
    } else {
        let known = registered_snapshots(project, buffer, file, language, n - 1);
        match running_for(
            project.language_server_ids@,
            project.language_servers@,
            file.worktree_id,
            language.lsp_adapters@[n - 1],
        ) {
            Some(server) => known.insert(
                (buffer.remote_id, server.server_id),
                seq![first_snapshot(buffer)],
            ),
            None => known,
        }
    }
}

fn push_open_effects(
    buffer: &Buffer,
    file: &File,
    language: &Arc<Language>,
    adapter: &Arc<LspAdapter>,
    server: &Arc<LanguageServer>,
    snapshot: &LspBufferSnapshot,
    out: &mut Vec<Effect>,
)
    ensures
        final(out)@ == old(out)@ + open_effects(
            *buffer,
            *file,
            *language,
            *adapter,
            *server,
            *snapshot,
        ),
{
    out.push(
        Effect::NotifyServer(
            server.server_id,
            ServerNotification::DidOpen {
                document: file.abs_path.clone(),
                language_id: adapter.language_id(&language.name),
                version: snapshot.version,
                text: snapshot.snapshot.text.clone(),
            },
        ),
    );
    let characters = match &server.completion_trigger_characters {
        Some(c) => Some(c.clone()),
        None => None,
    };
    out.push(Effect::SetCompletionTriggers { buffer: buffer.entity_id, characters });
    assert(out@ =~= old(out)@ + open_effects(
        *buffer,
        *file,
        *language,
        *adapter,
        *server,
        *snapshot,
    ));
}

impl Project {
    /// Opens a buffer of a local file in the running servers of its language.
    pub fn register_buffer_with_language_servers(&mut self, buffer: &Buffer, out: &mut Vec<Effect>)
        requires
            old(self).snapshots_ordered(),
        ensures
            final(self).snapshots_ordered(),
            *final(self) == (Project {
                buffer_snapshots: final(self).buffer_snapshots,
                ..*old(self)
            }),
            match buffer.file {
                Some(file) => if file.is_local {
                    match buffer.language {
                        Some(language) => {
                            let n = language.lsp_adapters@.len() as int;
                            &&& snapshot_map(final(self).buffer_snapshots) == registered_snapshots(
                                *old(self),
                                *buffer,
                                file,
                                language,
                                n,
                            )
                            &&& final(out)@ == old(out)@.push(
                                Effect::ShowWorktreeDiagnostics { buffer: buffer.entity_id },
                            ) + register_effects(*old(self), *buffer, file, language, n)
                        },
                        None => *final(self) == *old(self) && final(out)@ == old(out)@.push(
                            Effect::ShowWorktreeDiagnostics { buffer: buffer.entity_id },
                        ),
                    }
                } else {
                    *final(self) == *old(self) && final(out)@ == old(out)@
                },
                None => *final(self) == *old(self) && final(out)@ == old(out)@,
            },
    {
        if let Some(file) = &buffer.file {
            if !file.is_local {
                return;
            }
            out.push(Effect::ShowWorktreeDiagnostics { buffer: buffer.entity_id });
            let ghost mid = out@;
            if let Some(language) = &buffer.language {
                assert(mid + Seq::<Effect>::empty() =~= mid);
                for i in 0..language.lsp_adapters.len()
                    invariant
                        old(self).snapshots_ordered(),
                        self.snapshots_ordered(),
                        snapshot_map(self.buffer_snapshots) == registered_snapshots(
                            *old(self),
                            *buffer,
                            *file,
                            *language,
                            i as int,
                        ),
                        out@ == mid + register_effects(
                            *old(self),
                            *buffer,
                            *file,
                            *language,
                            i as int,
                        ),
                        *self == (Project {
                            buffer_snapshots: self.buffer_snapshots,
                            ..*old(self)
                        }),
                {
                    let adapter = &language.lsp_adapters[i];
                    let ghost done = register_effects(
                        *old(self),
                        *buffer,
                        *file,
                        *language,
                        i as int,
                    );
                    let key = (file.worktree_id, adapter.name.clone());
                    let server = match self.language_server_ids.get(&key) {
                        Some(id) => match self.running_server(*id) {
                            Some(s) => Some(s.1),
                            None => None,
                        },
                        None => None,
                    };
                    if let Some(server) = server {
                        let snapshot = LspBufferSnapshot {
                            version: 0,
                            snapshot: buffer.snapshot.clone(),
                        };
                        push_open_effects(
                            buffer,
                            file,
                            language,
                            adapter,
                            &server,
                            &snapshot,
                            out,
                        );
                        let mut snapshots: Vec<LspBufferSnapshot> = Vec::new();
                        snapshots.push(snapshot);
                        assert(snapshots@ =~= seq![first_snapshot(*buffer)]);
                        self.put_snapshots(buffer.remote_id, server.server_id, snapshots);
                        assert(out@ =~= mid + (done + open_effects(
                            *buffer,
                            *file,
                            *language,
                            *adapter,
                            server,
                            snapshot,
                        )));
                    }
                }
            }
        }
    }
}

/// The effect for a server that is told that a document was closed.
pub open spec fn close_effect(document: Path) -> spec_fn(
    (Arc<LspAdapter>, Arc<LanguageServer>),
) -> Effect {
    |s: (Arc<LspAdapter>, Arc<LanguageServer>)|
        Effect::NotifyServer(s.1.server_id, ServerNotification::DidClose { document })
}

pub open spec fn clear_effect(buffer: EntityId) -> spec_fn(LanguageServerId) -> Effect {
    |id: LanguageServerId| Effect::ClearBufferDiagnostics { buffer, server_id: id }
}

impl Project {
    /// Tells the running servers of a buffer that its document was closed.
    fn close_in_servers(&self, buffer: &Buffer, document: &Path, out: &mut Vec<Effect>)
        ensures
            final(out)@ == old(out)@ + self.servers_of_buffer(*buffer).map_values(
                close_effect(*document),
            ),
    {
        let servers = self.language_servers_for_buffer(buffer);
        let ghost all = servers@.map_values(close_effect(*document));
        assert(out@ + all.take(0) =~= out@);
        for i in 0..servers.len()
            invariant
                all == servers@.map_values(close_effect(*document)),
                out@ == old(out)@ + all.take(i as int),
        {
            out.push(
                Effect::NotifyServer(
                    servers[i].1.server_id,
                    ServerNotification::DidClose { document: document.clone() },
                ),
            );
            assert(out@ =~= old(out)@ + all.take(i + 1));
        }
        assert(all.take(all.len() as int) =~= all);
    }

    /// Closes a buffer in its servers, which knew it under a former file.
    pub fn unregister_buffer_from_language_servers(
        &mut self,
        buffer: &Buffer,
        old_file: &File,
        out: &mut Vec<Effect>,
    )
        requires
            old(self).snapshots_ordered(),
        ensures
            final(self).snapshots_ordered(),
            !old_file.is_local ==> *final(self) == *old(self) && final(out)@ == old(out)@,
            old_file.is_local ==> {
                let ids = match buffer.language {
                    Some(language) => language.lsp_adapters@.filter_map(
                        crate::servers::id_for_adapter(
                            old(self).language_server_ids@,
                            old_file.worktree_id,
                        ),
                    ),
                    None => Seq::empty(),
                };
                &&& snapshot_map(final(self).buffer_snapshots) == without_buffer(
                    snapshot_map(old(self).buffer_snapshots),
                    buffer.remote_id,
                )
                &&& final(out)@ == old(out)@ + ids.map_values(clear_effect(buffer.entity_id))
                    + old(self).servers_of_buffer(*buffer).map_values(
                    close_effect(old_file.abs_path),
                )
            },
            *final(self) == (Project {
                buffer_snapshots: final(self).buffer_snapshots,
                ..*old(self)
            }),
    {
        if !old_file.is_local {
            return;
        }
        let ghost f = crate::servers::id_for_adapter(
            self.language_server_ids@,
            old_file.worktree_id,
        );
        let ghost g = clear_effect(buffer.entity_id);
        if let Some(language) = &buffer.language {
            let ghost a = language.lsp_adapters@;
            proof {
                lemma_take_all(a);
                assert(Seq::<LanguageServerId>::empty().map_values(g) =~= Seq::<Effect>::empty());
                assert(out@ + Seq::<Effect>::empty() =~= out@);
            }
            for i in 0..language.lsp_adapters.len()
                invariant
                    a == language.lsp_adapters@,
                    *self == *old(self),
                    f == crate::servers::id_for_adapter(
                        self.language_server_ids@,
                        old_file.worktree_id,
                    ),
                    g == clear_effect(buffer.entity_id),
                    out@ == old(out)@ + a.take(i as int).filter_map(f).map_values(g),
            {
                let ghost done = a.take(i as int).filter_map(f);
                proof {
                    lemma_filter_map_step(a, f, i as int);
                }
                let key = (old_file.worktree_id, language.lsp_adapters[i].name.clone());
                if let Some(id) = self.language_server_ids.get(&key) {
                    out.push(
                        Effect::ClearBufferDiagnostics {
                            buffer: buffer.entity_id,
                            server_id: *id,
                        },
                    );
                    assert(done.push(*id).map_values(g) =~= done.map_values(g).push(g(*id)));
                    assert(out@ =~= old(out)@ + done.push(*id).map_values(g));
                }
            }
        } else {
            assert(Seq::<LanguageServerId>::empty().map_values(g) =~= Seq::<Effect>::empty());
            assert(out@ + Seq::<Effect>::empty() =~= out@);
        }
        let ghost before = *self;
        self.forget_snapshots(buffer.remote_id);
        assert(self.servers_of_buffer(*buffer) == before.servers_of_buffer(*buffer));
        self.close_in_servers(buffer, &old_file.abs_path, out);
    }

    /// Tells the servers of a buffer of a local file that it is gone.
    pub fn release_buffer(&self, buffer: &Buffer, out: &mut Vec<Effect>)
        ensures
            final(out)@ == (match buffer.file {
                Some(file) => if file.is_local {
                    old(out)@ + self.servers_of_buffer(*buffer).map_values(
                        close_effect(file.abs_path),
                    )
                } else {
                    old(out)@
                },
                None => old(out)@,
            }),
    {
        if let Some(file) = &buffer.file {
            if file.is_local {
                self.close_in_servers(buffer, &file.abs_path, out);
            }
        }
    }
}

/// An open buffer that a new server is told of: it belongs to the server's worktree and is written
/// in a language that has an adapter of the server's name.
pub open spec fn concerns(
    cx: AppContext,
    worktree_id: WorktreeId,
    name: Seq<char>,
) -> spec_fn((u64, OpenBuffer)) -> Option<Buffer> {
    |e: (u64, OpenBuffer)|
        match e.1.live(cx) {
            Some(b) => match (b.file, b.language) {
                (Some(file), Some(language)) => if file.worktree_id == worktree_id
                    && has_adapter(*language, name) && file.is_local {
                    Some(b)
                } else {
                    None
                },
                _ => None,
            },
            None => None,
        }
}

pub open spec fn has_adapter(language: Language, name: Seq<char>) -> bool {
    exists|i: int|
        0 <= i < language.lsp_adapters@.len() && (#[trigger] language.lsp_adapters@[i]).name@
            == name
}

/// The texts that servers know once a new server has been told of the first `n` open buffers.
pub open spec fn told_snapshots(
    known: Map<(u64, LanguageServerId), Seq<LspBufferSnapshot>>,
    open: Seq<(u64, OpenBuffer)>,
    f: spec_fn((u64, OpenBuffer)) -> Option<Buffer>,
    server_id: LanguageServerId,
    n: int,
) -> Map<(u64, LanguageServerId), Seq<LspBufferSnapshot>>
    decreases n,
{
    if n <= 0 {
        known
    } else {
        let m = told_snapshots(known, open, f, server_id, n - 1);
        match f(open[n - 1]) {
            Some(b) => if m.contains_key((b.remote_id, server_id)) {
                m
            } else {
                m.insert((b.remote_id, server_id), seq![first_snapshot(b)])
            },
            None => m,
        }
    }
}

/// What is done to tell a new server of the first `n` open buffers.
pub open spec fn tell_effects(
    known: Map<(u64, LanguageServerId), Seq<LspBufferSnapshot>>,
    open: Seq<(u64, OpenBuffer)>,
    f: spec_fn((u64, OpenBuffer)) -> Option<Buffer>,
    adapter: Arc<LspAdapter>,
    server: Arc<LanguageServer>,
    server_id: LanguageServerId,
    n: int,
) -> Seq<Effect>
    decreases n,
{
    if n <= 0 {
        Seq::empty()
    } else {
        let done = tell_effects(known, open, f, adapter, server, server_id, n - 1);
        match f(open[n - 1]) {
            Some(b) => done + open_effects(
                b,
                b.file->0,
                b.language->0,
                adapter,
                server,
                told_snapshots(known, open, f, server_id, n)[(b.remote_id, server_id)].last(),
            ),
            None => done,
        }
    }
}

/// The place of the first of `n` open buffers that a new server is told of, or `n`.
pub open spec fn first_concerned(
    open: Seq<(u64, OpenBuffer)>,
    f: spec_fn((u64, OpenBuffer)) -> Option<Buffer>,
    n: int,
) -> int
    decreases n,
{
    if n <= 0 {
        0
    } else {
        let before = first_concerned(open, f, n - 1);
        if before == n - 1 && f(open[n - 1]) is None {
            n
        } else {
            before
        }
    }
}

proof fn lemma_first_concerned(
    open: Seq<(u64, OpenBuffer)>,
    f: spec_fn((u64, OpenBuffer)) -> Option<Buffer>,
    i: int,
    n: int,
)
    requires
        0 <= i < n <= open.len(),
        first_concerned(open, f, i) == i,
        f(open[i]) is Some,
    ensures
        first_concerned(open, f, n) == i,
    decreases n,
{
    if n > i + 1 {
        lemma_first_concerned(open, f, i, n - 1);
    }
}

impl Project {
    /// Tells a new server of the open buffers that it works on.
    fn tell_of_buffers(
        &mut self,
        adapter: &Arc<LspAdapter>,
        server: &Arc<LanguageServer>,
        server_id: LanguageServerId,
        key: &(WorktreeId, LanguageServerName),
        reachable: bool,
        cx: &AppContext,
        out: &mut Vec<Effect>,
    ) -> (r: Result<(), ProjectError>)
        requires
            old(self).snapshots_ordered(),
        ensures
            final(self).snapshots_ordered(),
            ({
                let open = old(self).opened_buffers.entries();
                let f = concerns(*cx, key.0, key.1@);
                let n = open.len() as int;
                let first = first_concerned(open, f, n);
                let known = snapshot_map(old(self).buffer_snapshots);
                let now = snapshot_map(final(self).buffer_snapshots);
                if !reachable && first < n {
                    &&& r == Err::<(), ProjectError>(ProjectError::ServerUnreachable)
                    &&& now == told_snapshots(known, open, f, server_id, first + 1)
                    &&& final(out)@ == old(out)@
                } else {
                    &&& r == Ok::<(), ProjectError>(())
                    &&& now == told_snapshots(known, open, f, server_id, n)
                    &&& final(out)@ == old(out)@ + tell_effects(
                        known,
                        open,
                        f,
                        *adapter,
                        *server,
                        server_id,
                        n,
                    ) + seq![Effect::Notify]
                }
            }),
            *final(self) == (Project {
                buffer_snapshots: final(self).buffer_snapshots,
                ..*old(self)
            }),
    {
        let ghost mid = out@;
        let ghost open = self.opened_buffers.entries();
        let ghost f = concerns(*cx, key.0, key.1@);
        let ghost known = snapshot_map(self.buffer_snapshots);
        assert(mid + Seq::<Effect>::empty() =~= mid);
        let n: usize = self.opened_buffers.len();
        for i in 0..n
            invariant
                n == open.len(),
                mid == old(out)@,
                known == snapshot_map(old(self).buffer_snapshots),
                open == old(self).opened_buffers.entries(),
                open == self.opened_buffers.entries(),
                f == concerns(*cx, key.0, key.1@),
                self.snapshots_ordered(),
                snapshot_map(self.buffer_snapshots) == told_snapshots(
                    known,
                    open,
                    f,
                    server_id,
                    i as int,
                ),
                out@ == mid + tell_effects(
                    known,
                    open,
                    f,
                    *adapter,
                    *server,
                    server_id,
                    i as int,
                ),
                *self == (Project { buffer_snapshots: self.buffer_snapshots, ..*old(self) }),
                !reachable ==> first_concerned(open, f, i as int) == i && out@ == mid,
        {
            let ghost done = tell_effects(known, open, f, *adapter, *server, server_id, i as int);
            let concerned = concerned_buffer(
                self.opened_buffers.value_of(i),
                cx,
                key.0,
                &key.1,
                Ghost(open[i as int].0),
            );
            if let Some(buffer) = concerned {
                if let (Some(file), Some(language)) = (&buffer.file, &buffer.language) {
                    let mut snapshots = match self.take_snapshots(buffer.remote_id, server_id) {
                        Some(s) => s,
                        None => {
                            let mut s: Vec<LspBufferSnapshot> = Vec::new();
                            s.push(
                                LspBufferSnapshot { version: 0, snapshot: buffer.snapshot.clone() },
                            );
                            assert(s@ =~= seq![first_snapshot(*buffer)]);
                            s
                        },
                    };
                    assert(versions_ascend(snapshots@));
                    if !reachable {
                        self.put_snapshots(buffer.remote_id, server_id, snapshots);
                        proof {
                            assert(snapshot_map(self.buffer_snapshots) =~= told_snapshots(
                                known,
                                open,
                                f,
                                server_id,
                                i + 1,
                            ));
                            lemma_first_concerned(open, f, i as int, n as int);
                        }
                        return Err(ProjectError::ServerUnreachable);
                    }
                    let last = &snapshots[snapshots.len() - 1];
                    push_open_effects(buffer, file, language, adapter, server, last, out);
                    let ghost text = *last;
                    self.put_snapshots(buffer.remote_id, server_id, snapshots);
                    assert(snapshot_map(self.buffer_snapshots) =~= told_snapshots(
                        known,
                        open,
                        f,
                        server_id,
                        i + 1,
                    ));
                    assert(out@ =~= mid + (done + open_effects(
                        *buffer,
                        *file,
                        *language,
                        *adapter,
                        *server,
                        text,
                    )));
                }
            }
        }
        out.push(Effect::Notify);
        assert(out@ =~= mid + tell_effects(known, open, f, *adapter, *server, server_id, n as int)
            + seq![Effect::Notify]);
        Ok(())
    }

    /// Enters a server that is up and running, and tells it of the open buffers that it works on.
    /// A server whose place has been taken by another one in the meantime is turned away.
    /// `connected` tells whether messages can be sent: where the other participants of a shared
    /// project cannot be told of the server, that is an error, and the server is not told of the
    /// buffers. `reachable` tells whether the server takes notifications: if not, the first one is an
    /// error.
    pub fn insert_newly_running_language_server(
        &mut self,
        language: Arc<Language>,
        adapter: Arc<LspAdapter>,
        server: Arc<LanguageServer>,
        server_id: LanguageServerId,
        key: (WorktreeId, LanguageServerName),
        connected: bool,
        reachable: bool,
        cx: &AppContext,
        out: &mut Vec<Effect>,
    ) -> (r: Result<bool, ProjectError>)
        requires
            old(self).snapshots_ordered(),
        ensures
            final(self).snapshots_ordered(),
            ({
                let ids = old(self).language_server_ids@;
                let place = (key.0, key.1@);
                let is_replaced = ids.contains_key(place) && ids[place] != server_id;
                let is_cut_off = old(self).remote_id_of() is Some && !connected;
                let open = old(self).opened_buffers.entries();
                let f = concerns(*cx, key.0, key.1@);
                let n = open.len() as int;
                let first = first_concerned(open, f, n);
                let is_deaf = !reachable && first < n;
                &&& r == (if is_replaced {
                    Ok::<bool, ProjectError>(false)
                } else if is_cut_off {
                    Err::<bool, ProjectError>(ProjectError::Disconnected)
                } else if is_deaf {
                    Err::<bool, ProjectError>(ProjectError::ServerUnreachable)
                } else {
                    Ok::<bool, ProjectError>(true)
                })
                &&& is_replaced ==> *final(self) == *old(self) && final(out)@ == old(out)@
                &&& !is_replaced ==> {
                    let known = snapshot_map(old(self).buffer_snapshots);
                    &&& final(self).language_servers@.remove(server_id) == old(
                        self,
                    ).language_servers@.remove(server_id)
                    &&& final(self).language_servers@.contains_key(server_id)
                    &&& match final(self).language_servers@[server_id] {
                        LanguageServerState::Running {
                            language: l,
                            adapter: a,
                            server: s,
                            watched_paths,
                            simulate_disk_based_diagnostics_completion,
                        } => l == language && a == adapter && s == server && watched_paths@
                            == Map::<WorktreeId, globset::GlobSet>::empty()
                            && !simulate_disk_based_diagnostics_completion,
                        LanguageServerState::Starting => false,
                    }
                    &&& final(self).language_server_statuses@.remove(server_id) == old(
                        self,
                    ).language_server_statuses@.remove(server_id)
                    &&& final(self).language_server_statuses@.contains_key(server_id)
                    &&& is_fresh_status(
                        final(self).language_server_statuses@[server_id],
                        server.name,
                    )
                    &&& if is_cut_off {
                        &&& final(self).buffer_snapshots == old(self).buffer_snapshots
                        &&& final(out)@ == old(out)@.push(
                            Effect::Emit(Event::LanguageServerAdded(server_id)),
                        )
                    } else if is_deaf {
                        &&& snapshot_map(final(self).buffer_snapshots) == told_snapshots(
                            known,
                            open,
                            f,
                            server_id,
                            first + 1,
                        )
                        &&& final(out)@ == old(out)@ + started_effects(
                            old(self).remote_id_of(),
                            server_id,
                            server.name,
                        )
                    } else {
                        &&& snapshot_map(final(self).buffer_snapshots) == told_snapshots(
                            known,
                            open,
                            f,
                            server_id,
                            n,
                        )
                        &&& final(out)@ == old(out)@ + started_effects(
                            old(self).remote_id_of(),
                            server_id,
                            server.name,
                        ) + tell_effects(known, open, f, adapter, server, server_id, n)
                            + seq![Effect::Notify]
                    }
                }
            }),
            *final(self) == (Project {
                language_servers: final(self).language_servers,
                language_server_statuses: final(self).language_server_statuses,
                buffer_snapshots: final(self).buffer_snapshots,
                ..*old(self)
            }),
    {
        if let Some(id) = self.language_server_ids.get(&key) {
            if *id != server_id {
                return Ok(false);
            }
        }
        self.language_servers.insert(
            server_id,
            LanguageServerState::Running {
                language,
                adapter: adapter.clone(),
                server: server.clone(),
                watched_paths: SortedMap::new(),
                simulate_disk_based_diagnostics_completion: false,
            },
        );
        let status = fresh_status(server.name.clone());
        self.language_server_statuses.insert(server_id, status);
        out.push(Effect::Emit(Event::LanguageServerAdded(server_id)));
        proof {
            assert(self.language_servers@.remove(server_id) =~= old(
                self,
            ).language_servers@.remove(server_id));
            assert(self.language_server_statuses@.remove(server_id) =~= old(
                self,
            ).language_server_statuses@.remove(server_id));
        }
        if let Some(project_id) = self.remote_id() {
            if !connected {
                return Err(ProjectError::Disconnected);
            }
            out.push(
                Effect::Send(
                    Message::StartLanguageServer {
                        project_id,
                        id: server_id.0 as u64,
                        name: server.name.clone(),
                    },
                ),
            );
        }
        let ghost mid = out@;
        proof {
            assert(mid =~= old(out)@ + started_effects(
                old(self).remote_id_of(),
                server_id,
                server.name,
            ));
        }
        match self.tell_of_buffers(&adapter, &server, server_id, &key, reachable, cx, out) {
            Ok(()) => Ok(true),
            Err(e) => Err(e),
        }
    }
}

/// How observers and other participants are told of a server that is up and running.
pub open spec fn started_effects(
    remote_id: Option<u64>,
    server_id: LanguageServerId,
    name: String,
) -> Seq<Effect> {
    match remote_id {
        Some(project_id) => seq![
            Effect::Emit(Event::LanguageServerAdded(server_id)),
            Effect::Send(Message::StartLanguageServer { project_id, id: server_id.0 as u64, name }),
        ],
        None => seq![Effect::Emit(Event::LanguageServerAdded(server_id))],
    }
}

fn concerned_buffer<'a>(
    open: &OpenBuffer,
    cx: &'a AppContext,
    worktree_id: WorktreeId,
    name: &LanguageServerName,
    Ghost(id): Ghost<u64>,
) -> (r: Option<&'a Buffer>)
    ensures
        match r {
            Some(b) => concerns(*cx, worktree_id, name@)((id, *open)) == Some(*b),
            None => concerns(*cx, worktree_id, name@)((id, *open)) is None,
        },
{
    match open.upgrade(cx) {
        Some(b) => {
            if let (Some(file), Some(language)) = (&b.file, &b.language) {
                if file.worktree_id == worktree_id && names_adapter(language, name)
                    && file.is_local {
                    return Some(b);
                }
            }
            None
        },
        None => None,
    }
}

pub(crate) fn names_adapter(language: &Language, name: &LanguageServerName) -> (r: bool)
    ensures
        r == has_adapter(*language, name@),
{
    for i in 0..language.lsp_adapters.len()
        invariant
            forall|j: int|
                0 <= j < i ==> (#[trigger] language.lsp_adapters@[j]).name@ != name@,
    {
        if language.lsp_adapters[i].name.0 == name.0 {
            return true;
        }
    }
    false
}

/// A server gets the identifier that its adapter lists first for a language, and none if the adapter
/// lists none.
pub proof fn languages_have_their_listed_identifier(adapter: LspAdapter, name: Seq<char>, i: int)
    requires
        0 <= i < adapter.language_ids@.len(),
        adapter.language_ids@[i].0@ == name,
        forall|j: int| 0 <= j < i ==> (#[trigger] adapter.language_ids@[j]).0@ != name,
    ensures
        adapter.id_for_language(name) == Some(adapter.language_ids@[i].1),
{
    lemma_find_map_found(adapter.language_ids@, id_of_language(name), i);
}

/// A language that an adapter does not list has no identifier with it.
pub proof fn unlisted_languages_have_no_identifier(adapter: LspAdapter, name: Seq<char>)
    requires
        forall|j: int|
            0 <= j < adapter.language_ids@.len() ==> (#[trigger] adapter.language_ids@[j]).0@
                != name,
    ensures
        adapter.id_for_language(name) is None,
{
    lemma_find_map_none(adapter.language_ids@, id_of_language(name));
}

/// A buffer is opened in each running server of its language: the server gets the absolute path of
/// the file, its language, and the whole text as the first version. The buffer gets the characters
/// at which the server completes.
pub proof fn buffers_are_opened_with_their_text(
    project: Project,
    buffer: Buffer,
    file: File,
    language: Arc<Language>,
    n: int,
    i: int,
)
    requires
        0 <= i < n <= language.lsp_adapters@.len(),
        ({
            let key = (file.worktree_id, language.lsp_adapters@[i].name@);
            &&& project.language_server_ids@.contains_key(key)
            &&& project.language_servers@.contains_key(project.language_server_ids@[key])
            &&& project.language_servers@[project.language_server_ids@[key]] is Running
        }),
    ensures
        ({
            let key = (file.worktree_id, language.lsp_adapters@[i].name@);
            let server = project.language_servers@[project.language_server_ids@[key]]->server;
            let effects = register_effects(project, buffer, file, language, n);
            &&& effects.contains(
                Effect::NotifyServer(
                    server.server_id,
                    ServerNotification::DidOpen {
                        document: file.abs_path,
                        language_id: language.lsp_adapters@[i].id_for_language(language.name@),
                        version: 0,
                        text: buffer.snapshot.text,
                    },
                ),
            )
            &&& effects.contains(
                Effect::SetCompletionTriggers {
                    buffer: buffer.entity_id,
                    characters: server.completion_trigger_characters,
                },
            )
        }),
    decreases n,
{
    let adapter = language.lsp_adapters@[i];
    let server = running_for(
        project.language_server_ids@,
        project.language_servers@,
        file.worktree_id,
        adapter,
    )->0;
    let told = open_effects(buffer, file, language, adapter, server, first_snapshot(buffer));
    let a = told[0];
    let b = told[1];
    let before = register_effects(project, buffer, file, language, n - 1);
    let after = register_effects(project, buffer, file, language, n);
    if i < n - 1 {
        buffers_are_opened_with_their_text(project, buffer, file, language, n - 1, i);
        let p = choose|p: int| 0 <= p < before.len() && before[p] == a;
        let q = choose|q: int| 0 <= q < before.len() && before[q] == b;
        assert(after[p] == a);
        assert(after[q] == b);
    } else {
        assert(after[before.len() as int] == a);
        assert(after[before.len() as int + 1] == b);
    }
}

/// Opening a buffer tells nothing to any server but the running ones of its language.
pub proof fn buffers_are_opened_nowhere_else(
    project: Project,
    buffer: Buffer,
    file: File,
    language: Arc<Language>,
    n: int,
    k: int,
) -> (i: int)
    requires
        0 <= k < register_effects(project, buffer, file, language, n).len(),
        register_effects(project, buffer, file, language, n)[k] is NotifyServer,
    ensures
        0 <= i < n,
        running_for(
            project.language_server_ids@,
            project.language_servers@,
            file.worktree_id,
            language.lsp_adapters@[i],
        ) is Some,
        register_effects(project, buffer, file, language, n)[k]->NotifyServer_0 == running_for(
            project.language_server_ids@,
            project.language_servers@,
            file.worktree_id,
            language.lsp_adapters@[i],
        )->0.server_id,
    decreases n,
{
    let before = register_effects(project, buffer, file, language, n - 1);
    let after = register_effects(project, buffer, file, language, n);
    if k < before.len() {
        assert(after[k] == before[k]);
        buffers_are_opened_nowhere_else(project, buffer, file, language, n - 1, k)
    } else {
        n - 1
    }
}

/// What a server knows of a buffer once it was opened in it is the buffer's text, as version zero,
/// and what is known of other buffers stays.
pub proof fn opened_buffers_are_known(
    project: Project,
    buffer: Buffer,
    file: File,
    language: Arc<Language>,
    n: int,
    key: (u64, LanguageServerId),
)
    requires
        n <= language.lsp_adapters@.len(),
    ensures
        ({
            let known = snapshot_map(project.buffer_snapshots);
            let now = registered_snapshots(project, buffer, file, language, n);
            &&& key.0 != buffer.remote_id ==> now.contains_key(key) == known.contains_key(key) && (
            known.contains_key(key) ==> now[key] == known[key])
            &&& forall|i: int|
                0 <= i < n && (running_for(
                    project.language_server_ids@,
                    project.language_servers@,
                    file.worktree_id,
                    #[trigger] language.lsp_adapters@[i],
                ) matches Some(s) && key == (buffer.remote_id, s.server_id)) ==> now.contains_key(
                    key,
                ) && now[key].len() == 1 && now[key][0].version == 0 && now[key][0].snapshot
                    == buffer.snapshot
        }),
    decreases n,
{
    if n > 0 {
        opened_buffers_are_known(project, buffer, file, language, n - 1, key);
    }
}

/// A server is told of an open buffer exactly if the buffer lives, has a local file in the server's
/// worktree, and is written in a language with an adapter of the server's name.
pub proof fn servers_learn_of_their_buffers(
    cx: AppContext,
    worktree_id: WorktreeId,
    name: Seq<char>,
    e: (u64, OpenBuffer),
)
    ensures
        ({
            let told = concerns(cx, worktree_id, name)(e);
            let b = e.1.live(cx)->0;
            &&& told is Some <==> e.1.live(cx) is Some && b.file is Some && b.language is Some
                && b.file->0.is_local && b.file->0.worktree_id == worktree_id && exists|i: int|
                0 <= i < b.language->0.lsp_adapters@.len() && (
                #[trigger] b.language->0.lsp_adapters@[i]).name@ == name
            &&& told is Some ==> told->0 == b
        }),
{
}

/// A new server is told of each open buffer that concerns it, with the path of its file. What the
/// server knows of a buffer already is kept; of the others it knows the current text as the first
/// version.
pub proof fn new_servers_are_told_of_buffers(
    known: Map<(u64, LanguageServerId), Seq<LspBufferSnapshot>>,
    open: Seq<(u64, OpenBuffer)>,
    f: spec_fn((u64, OpenBuffer)) -> Option<Buffer>,
    adapter: Arc<LspAdapter>,
    server: Arc<LanguageServer>,
    server_id: LanguageServerId,
    n: int,
    i: int,
)
    requires
        0 <= i < n <= open.len(),
        f(open[i]) is Some,
    ensures
        ({
            let b = f(open[i])->0;
            let now = told_snapshots(known, open, f, server_id, n);
            let effects = tell_effects(known, open, f, adapter, server, server_id, n);
            &&& now.contains_key((b.remote_id, server_id))
            &&& known.contains_key((b.remote_id, server_id)) ==> now[(b.remote_id, server_id)]
                == known[(b.remote_id, server_id)]
            &&& exists|k: int|
                0 <= k < effects.len() && is_told_of(
                    #[trigger] effects[k],
                    server.server_id,
                    b.file->0.abs_path,
                )
        }),
    decreases n,
{
    let b = f(open[i])->0;
    lemma_told_keeps(known, open, f, server_id, n, (b.remote_id, server_id));
    let before = tell_effects(known, open, f, adapter, server, server_id, n - 1);
    let effects = tell_effects(known, open, f, adapter, server, server_id, n);
    if i < n - 1 {
        new_servers_are_told_of_buffers(known, open, f, adapter, server, server_id, n - 1, i);
        let k = choose|k: int|
            0 <= k < before.len() && is_told_of(
                #[trigger] before[k],
                server.server_id,
                b.file->0.abs_path,
            );
        assert(effects[k] == before[k]);
    } else {
        assert(is_told_of(
            effects[before.len() as int],
            server.server_id,
            b.file->0.abs_path,
        ));
    }
}

/// The effect opens a document in a server.
pub open spec fn is_told_of(effect: Effect, server_id: LanguageServerId, document: Path) -> bool {
    effect matches Effect::NotifyServer(id, notification) && id == server_id && (
    notification matches ServerNotification::DidOpen { document: d, .. } && d == document)
}

proof fn lemma_told_keeps(
    known: Map<(u64, LanguageServerId), Seq<LspBufferSnapshot>>,
    open: Seq<(u64, OpenBuffer)>,
    f: spec_fn((u64, OpenBuffer)) -> Option<Buffer>,
    server_id: LanguageServerId,
    n: int,
    key: (u64, LanguageServerId),
)
    requires
        n <= open.len(),
    ensures
        known.contains_key(key) ==> told_snapshots(known, open, f, server_id, n).contains_key(key)
            && told_snapshots(known, open, f, server_id, n)[key] == known[key],
        key.1 != server_id ==> told_snapshots(known, open, f, server_id, n).contains_key(key)
            == known.contains_key(key),
        told_snapshots(known, open, f, server_id, n).contains_key(key) && !known.contains_key(key)
            ==> exists|i: int|
            0 <= i < n && (f(#[trigger] open[i]) matches Some(b) && b.remote_id == key.0
                && told_snapshots(known, open, f, server_id, n)[key] == seq![
                LspBufferSnapshot { version: 0, snapshot: b.snapshot },
            ]),
    decreases n,
{
    if n > 0 {
        lemma_told_keeps(known, open, f, server_id, n - 1, key);
        let m = told_snapshots(known, open, f, server_id, n - 1);
        let now = told_snapshots(known, open, f, server_id, n);
        if now.contains_key(key) && !known.contains_key(key) {
            if m.contains_key(key) {
                let i = choose|i: int|
                    0 <= i < n - 1 && (f(#[trigger] open[i]) matches Some(b) && b.remote_id
                        == key.0 && m[key] == seq![
                        LspBufferSnapshot { version: 0, snapshot: b.snapshot },
                    ]);
                assert(f(open[i]) is Some);
                assert(now[key] == m[key]);
            } else {
                assert(f(open[n - 1]) is Some);
            }
        }
    }
}

/// Telling a new server of buffers changes nothing of what is known already. What it learns anew of a
/// buffer is its current text, as the first version.
pub proof fn telling_keeps_what_is_known(
    known: Map<(u64, LanguageServerId), Seq<LspBufferSnapshot>>,
    open: Seq<(u64, OpenBuffer)>,
    f: spec_fn((u64, OpenBuffer)) -> Option<Buffer>,
    server_id: LanguageServerId,
    n: int,
    key: (u64, LanguageServerId),
)
    requires
        n <= open.len(),
    ensures
        ({
            let now = told_snapshots(known, open, f, server_id, n);
            &&& known.contains_key(key) ==> now.contains_key(key) && now[key] == known[key]
            &&& key.1 != server_id ==> now.contains_key(key) == known.contains_key(key)
            &&& now.contains_key(key) && !known.contains_key(key) ==> exists|i: int|
                0 <= i < n && (f(#[trigger] open[i]) matches Some(b) && b.remote_id == key.0
                    && now[key] == seq![
                    LspBufferSnapshot { version: 0, snapshot: b.snapshot },
                ])
        }),
{
    lemma_told_keeps(known, open, f, server_id, n, key);
}

/// Observers always learn of a server that has started, and in a shared project the others do too,
/// under its id and its name.
pub proof fn started_servers_are_announced(
    remote_id: Option<u64>,
    server_id: LanguageServerId,
    name: String,
)
    ensures
        ({
            let effects = started_effects(remote_id, server_id, name);
            &&& effects.len() >= 1
            &&& effects[0] == Effect::Emit(Event::LanguageServerAdded(server_id))
            &&& remote_id is None ==> effects.len() == 1
            &&& remote_id is Some ==> effects.len() == 2 && effects[1] == Effect::Send(
                Message::StartLanguageServer {
                    project_id: remote_id->0,
                    id: server_id.0 as u64,
                    name,
                },
            )
        }),
{
}

/// Each running server of a buffer is told that its document was closed, and nobody else is.
pub proof fn closed_documents_are_told_to_their_servers(
    project: Project,
    buffer: Buffer,
    document: Path,
    effects: Seq<Effect>,
)
    requires
        effects == project.servers_of_buffer(buffer).map_values(close_effect(document)),
    ensures
        effects.len() == project.servers_of_buffer(buffer).len(),
        forall|k: int|
            0 <= k < effects.len() ==> #[trigger] effects[k] == Effect::NotifyServer(
                project.servers_of_buffer(buffer)[k].1.server_id,
                ServerNotification::DidClose { document },
            ),
{
}

/// The first buffer that a server is told of is the first that concerns it.
pub proof fn first_concerned_buffer_comes_first(
    open: Seq<(u64, OpenBuffer)>,
    f: spec_fn((u64, OpenBuffer)) -> Option<Buffer>,
    n: int,
)
    requires
        0 <= n <= open.len(),
    ensures
        ({
            let first = first_concerned(open, f, n);
            &&& 0 <= first <= n
            &&& forall|i: int| 0 <= i < first ==> f(#[trigger] open[i]) is None
            &&& first < n ==> f(open[first]) is Some
        }),
    decreases n,
{
    if n > 0 {
        first_concerned_buffer_comes_first(open, f, n - 1);
    }
}

} // verus!
