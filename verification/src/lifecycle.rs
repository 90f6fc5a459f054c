//! How language servers come up and go down.

use crate::effects::{Effect, Event};
use crate::ids::{LanguageServerId, LanguageServerName, WorktreeId};
use crate::map::{lemma_entry, lemma_has_entry, sorted};
use crate::model::{AppContext, Language, LanguageServer, LspAdapter, Worktree};
use crate::order::{Key, same};
use crate::path::Path;
use crate::project::{LanguageServerState, OpenBuffer, Project, WorktreeHandle};
use crate::seqs::{
    lemma_contains_step, lemma_filter_map_has, lemma_filter_map_step, lemma_take_all,
};
use crate::servers::{start_effects, started_ids, started_servers};
use std::sync::Arc;
use vstd::prelude::*;

verus! {

/// What is left of a server that has been stopped.
#[derive(Debug)]
pub enum StoppedState {
    /// The server was still starting.
    Starting,
    Running(Arc<LanguageServer>),
    /// The server was not known any more.
    Missing,
}

/// A server that has been taken out of the project and has to be shut down.
#[derive(Debug)]
pub struct StoppedServer {
    pub server_id: LanguageServerId,
    pub state: StoppedState,
    /// The worktrees that the server worked on.
    pub orphaned_worktrees: Vec<WorktreeId>,
}

pub open spec fn stopped_state(
    servers: Map<LanguageServerId, LanguageServerState>,
    id: LanguageServerId,
) -> StoppedState {
    if servers.contains_key(id) {
        match servers[id] {
            LanguageServerState::Starting => StoppedState::Starting,
            LanguageServerState::Running { server, .. } => StoppedState::Running(server),
        }
    } else {
        StoppedState::Missing
    }
}

/// The worktree of an entry of the server `id`, unless it is the entry with the given key.
pub open spec fn other_worktree(key: (WorktreeId, Seq<char>), id: LanguageServerId) -> spec_fn(
    ((WorktreeId, LanguageServerName), LanguageServerId),
) -> Option<WorktreeId> {
    |e: ((WorktreeId, LanguageServerName), LanguageServerId)|
        if e.1 == id && e.0.key() != key {
            Some(e.0.0)
        } else {
            None
        }
}

/// The servers by worktree and name without one of them.
pub open spec fn without_server(
    ids: Map<(WorktreeId, Seq<char>), LanguageServerId>,
    id: LanguageServerId,
) -> Map<(WorktreeId, Seq<char>), LanguageServerId> {
    Map::new(
        |k: (WorktreeId, Seq<char>)| ids.contains_key(k) && ids[k] != id,
        |k: (WorktreeId, Seq<char>)| ids[k],
    )
}

/// A server works on a worktree under some name.
pub open spec fn works_on(
    ids: Map<(WorktreeId, Seq<char>), LanguageServerId>,
    id: LanguageServerId,
    worktree_id: WorktreeId,
) -> bool {
    exists|name: Seq<char>|
        #![trigger ids.contains_key((worktree_id, name))]
        ids.contains_key((worktree_id, name)) && ids[(worktree_id, name)] == id
}

/// A list names the given worktree and those that a server works on, and no other.
pub open spec fn lists_orphans(
    list: Seq<WorktreeId>,
    ids: Map<(WorktreeId, Seq<char>), LanguageServerId>,
    worktree_id: WorktreeId,
    id: LanguageServerId,
) -> bool {
    forall|w: WorktreeId| #[trigger]
        list.contains(w) == (w == worktree_id || works_on(ids, id, w))
}

proof fn lemma_orphans(
    e: Seq<((WorktreeId, LanguageServerName), LanguageServerId)>,
    key: (WorktreeId, Seq<char>),
    id: LanguageServerId,
)
    requires
        sorted(e),
    ensures
        lists_orphans(
            seq![key.0] + e.filter_map(other_worktree(key, id)),
            crate::map::entries_map(e),
            key.0,
            id,
        ),
{
    let f = other_worktree(key, id);
    let ids = crate::map::entries_map(e);
    let all = seq![key.0] + e.filter_map(f);
    assert forall|w: WorktreeId| #[trigger]
        all.contains(w) == (w == key.0 || works_on(ids, id, w)) by {
        if all.contains(w) && w != key.0 {
            let k = choose|k: int| 0 <= k < all.len() && all[k] == w;
            assert(e.filter_map(f)[k - 1] == w);
            assert(e.filter_map(f).contains(w));
            e.lemma_filter_map_contains(f, w);
            let t = choose|t: ((WorktreeId, LanguageServerName), LanguageServerId)|
                #[trigger] e.contains(t) && f(t) == Some(w);
            let a = choose|a: int| 0 <= a < e.len() && e[a] == t;
            lemma_entry(e, a);
            assert(ids.contains_key((w, t.0.1@)));
        }
        if w == key.0 {
            assert(all[0] == w);
        } else if works_on(ids, id, w) {
            let name = choose|name: Seq<char>|
                #![trigger ids.contains_key((w, name))]
                ids.contains_key((w, name)) && ids[(w, name)] == id;
            let a = lemma_has_entry(e, (w, name));
            assert(e[a].0.key() == (w, name));
            assert(f(e[a]) == Some(w));
            crate::seqs::lemma_filter_map_has(e, f, a);
            let k = choose|k: int| 0 <= k < e.filter_map(f).len() && e.filter_map(f)[k] == w;
            assert(all[k + 1] == w);
        }
    }
}

pub open spec fn clear_buffer(cx: AppContext, id: LanguageServerId) -> spec_fn(
    (u64, OpenBuffer),
) -> Option<Effect> {
    |e: (u64, OpenBuffer)|
        match e.1.live(cx) {
            Some(b) => Some(Effect::ClearBufferDiagnostics { buffer: b.entity_id, server_id: id }),
            None => None,
        }
}

pub open spec fn clear_worktree(cx: AppContext, id: LanguageServerId) -> spec_fn(
    WorktreeHandle,
) -> Option<Effect> {
    |h: WorktreeHandle|
        match h.live(cx) {
            Some(w) => if w.is_local {
                Some(Effect::ClearWorktreeDiagnostics { worktree: w.entity_id, server_id: id })
            } else {
                None
            },
            None => None,
        }
}

/// What is done when a server is stopped: its diagnostics go, and the observers are told.
pub open spec fn stop_effects(project: Project, cx: AppContext, id: LanguageServerId) -> Seq<Effect> {
    project.opened_buffers.entries().filter_map(clear_buffer(cx, id))
        + project.worktrees@.filter_map(clear_worktree(cx, id)) + seq![
        Effect::Notify,
        Effect::Emit(Event::LanguageServerRemoved(id)),
    ]
}

/// The entry at `a` is among the first `n` and has the key `k` and the server `id`.
pub open spec fn entry_of_server(
    e: Seq<((WorktreeId, LanguageServerName), LanguageServerId)>,
    n: int,
    k: (WorktreeId, Seq<char>),
    id: LanguageServerId,
    a: int,
) -> bool {
    0 <= a < n && e[a].0.key() == k && e[a].1 == id
}

/// One of the first `n` entries has the key `k` and the server `id`.
pub open spec fn belongs(
    e: Seq<((WorktreeId, LanguageServerName), LanguageServerId)>,
    n: int,
    k: (WorktreeId, Seq<char>),
    id: LanguageServerId,
) -> bool {
    exists|a: int| entry_of_server(e, n, k, id, a)
}

proof fn lemma_belongs_step(
    e: Seq<((WorktreeId, LanguageServerName), LanguageServerId)>,
    n: int,
    k: (WorktreeId, Seq<char>),
    id: LanguageServerId,
)
    requires
        0 <= n < e.len(),
    ensures
        belongs(e, n + 1, k, id) == (belongs(e, n, k, id) || (e[n].0.key() == k && e[n].1 == id)),
{
    let m = n + 1;
    if belongs(e, m, k, id) {
        let a = choose|a: int| entry_of_server(e, m, k, id, a);
        if a < n {
            assert(entry_of_server(e, n, k, id, a));
        }
    }
    if belongs(e, n, k, id) {
        let a = choose|a: int| entry_of_server(e, n, k, id, a);
        assert(entry_of_server(e, m, k, id, a));
    }
    if e[n].0.key() == k && e[n].1 == id {
        assert(entry_of_server(e, m, k, id, n));
    }
}

impl Project {
    /// Takes all diagnostics of a server away.
    fn clear_diagnostics(&self, id: LanguageServerId, cx: &AppContext, out: &mut Vec<Effect>)
        ensures
            final(out)@ == old(out)@ + self.opened_buffers.entries().filter_map(
                clear_buffer(*cx, id),
            ) + self.worktrees@.filter_map(clear_worktree(*cx, id)),
    {
        let ghost s = self.opened_buffers.entries();
        let ghost f = clear_buffer(*cx, id);
        let n: usize = self.opened_buffers.len();
        proof {
            lemma_take_all(s);
            lemma_take_all(self.worktrees@);
            assert(out@ + Seq::<Effect>::empty() =~= out@);
        }
        for i in 0..n
            invariant
                s == self.opened_buffers.entries(),
                n == s.len(),
                f == clear_buffer(*cx, id),
                out@ == old(out)@ + s.take(i as int).filter_map(f),
        {
            let ghost done = s.take(i as int).filter_map(f);
            proof {
                lemma_filter_map_step(s, f, i as int);
            }
            if let Some(b) = self.opened_buffers.value_of(i).upgrade(cx) {
                let e = Effect::ClearBufferDiagnostics { buffer: b.entity_id, server_id: id };
                out.push(e);
                assert(out@ =~= old(out)@ + done.push(e));
            }
        }
        let ghost mid = out@;
        let ghost g = clear_worktree(*cx, id);
        assert(mid + Seq::<Effect>::empty() =~= mid);
        for i in 0..self.worktrees.len()
            invariant
                g == clear_worktree(*cx, id),
                out@ == mid + self.worktrees@.take(i as int).filter_map(g),
        {
            let ghost done = self.worktrees@.take(i as int).filter_map(g);
            proof {
                lemma_filter_map_step(self.worktrees@, g, i as int);
            }
            if let Some(w) = self.worktrees[i].upgrade(cx) {
                if w.is_local {
                    let e = Effect::ClearWorktreeDiagnostics {
                        worktree: w.entity_id,
                        server_id: id,
                    };
                    out.push(e);
                    assert(out@ =~= mid + done.push(e));
                }
            }
        }
    }

    /// Takes every entry of a server out, and lists the worktrees of those with another key.
    fn remove_server_keys(
        &mut self,
        key: &(WorktreeId, LanguageServerName),
        id: LanguageServerId,
        orphaned: &mut Vec<WorktreeId>,
    )
        ensures
            final(self).language_server_ids@ == without_server(old(self).language_server_ids@, id),
            *final(self) == (Project {
                language_server_ids: final(self).language_server_ids,
                ..*old(self)
            }),
            final(orphaned)@ == old(orphaned)@ + old(self).language_server_ids.entries().filter_map(
                other_worktree(key.key(), id),
            ),
    {
        let ghost e = self.language_server_ids.entries();
        let ghost m = self.language_server_ids@;
        let ghost f = other_worktree(key.key(), id);
        let n: usize = self.language_server_ids.len();
        let mut i: usize = 0;
        let mut j: usize = 0;
        proof {
            lemma_take_all(e);
            assert(orphaned@ + Seq::<WorktreeId>::empty() =~= orphaned@);
            assert(e.skip(0) =~= e);
        }
        while j < n
            invariant
                sorted(e),
                m == crate::map::entries_map(e),
                n == e.len(),
                j <= n,
                i <= j,
                i + (n - j) == self.language_server_ids.entries().len(),
                self.language_server_ids.entries().skip(i as int) == e.skip(j as int),
                forall|k: (WorktreeId, Seq<char>)| #[trigger]
                    self.language_server_ids@.contains_key(k) <==> m.contains_key(k) && !belongs(
                        e,
                        j as int,
                        k,
                        id,
                    ),
                forall|k: (WorktreeId, Seq<char>)| #[trigger]
                    self.language_server_ids@.contains_key(k) ==> self.language_server_ids@[k]
                        == m[k],
                *self == (Project {
                    language_server_ids: self.language_server_ids,
                    ..*old(self)
                }),
                f == other_worktree(key.key(), id),
                orphaned@ == old(orphaned)@ + e.take(j as int).filter_map(f),
            decreases n - j,
        {
            let ghost done = e.take(j as int).filter_map(f);
            let ghost cur = self.language_server_ids.entries();
            let ghost seen = self.language_server_ids@;
            proof {
                lemma_filter_map_step(e, f, j as int);
                assert(cur.skip(i as int)[0] == cur[i as int]);
                assert(e.skip(j as int)[0] == e[j as int]);
                lemma_entry(e, j as int);
            }
            let value = *self.language_server_ids.value_of(i);
            if value == id {
                let (k, _) = self.language_server_ids.remove_at(i);
                proof {
                    assert(self.language_server_ids.entries().skip(i as int) =~= e.skip(j + 1)) by {
                        assert(cur.remove(i as int).skip(i as int) =~= cur.skip(i as int).skip(1));
                        assert(e.skip(j + 1) =~= e.skip(j as int).skip(1));
                    }
                    assert forall|q: (WorktreeId, Seq<char>)| #[trigger]
                        self.language_server_ids@.contains_key(q) <==> m.contains_key(q)
                            && !belongs(e, j + 1, q, id) by {
                        lemma_belongs_step(e, j as int, q, id);
                    }
                }
                if !same(&k, key) {
                    orphaned.push(k.0);
                    assert(orphaned@ =~= old(orphaned)@ + done.push(k.0));
                }
            } else {
                i = i + 1;
                proof {
                    assert(cur.skip(i as int) =~= e.skip(j + 1)) by {
                        assert(cur.skip(i as int) =~= cur.skip(i - 1).skip(1));
                        assert(e.skip(j + 1) =~= e.skip(j as int).skip(1));
                    }
                    assert forall|q: (WorktreeId, Seq<char>)| #[trigger]
                        self.language_server_ids@.contains_key(q) <==> m.contains_key(q)
                            && !belongs(e, j + 1, q, id) by {
                        lemma_belongs_step(e, j as int, q, id);
                    }
                }
            }
            j = j + 1;
        }
        proof {
            assert forall|k: (WorktreeId, Seq<char>)| #[trigger]
                self.language_server_ids@.contains_key(k) == without_server(m, id).contains_key(
                    k,
                ) by {
                if m.contains_key(k) {
                    let a = lemma_has_entry(e, k);
                    if m[k] == id {
                        assert(entry_of_server(e, n as int, k, id, a));
                    }
                    if belongs(e, n as int, k, id) {
                        let b = choose|b: int| entry_of_server(e, n as int, k, id, b);
                        lemma_entry(e, b);
                    }
                }
            }
            assert(self.language_server_ids@ =~= without_server(m, id));
        }
    }

    /// Stops the server that works on a worktree under a name. It is taken away from all worktrees
    /// that it works on. What comes back has to be shut down.
    pub fn stop_language_server(
        &mut self,
        worktree_id: WorktreeId,
        adapter_name: LanguageServerName,
        cx: &AppContext,
        out: &mut Vec<Effect>,
    ) -> (r: Option<StoppedServer>)
        ensures
            ({
                let key = (worktree_id, adapter_name@);
                let ids = old(self).language_server_ids@;
                let id = ids[key];
                match r {
                    None => !ids.contains_key(key) && *final(self) == *old(self) && final(out)@
                        == old(out)@,
                    Some(stopped) => {
                        &&& ids.contains_key(key)
                        &&& stopped.server_id == id
                        &&& stopped.state == stopped_state(old(self).language_servers@, id)
                        &&& stopped.orphaned_worktrees@ == seq![worktree_id] + old(
                            self,
                        ).language_server_ids.entries().filter_map(other_worktree(key, id))
                        &&& lists_orphans(stopped.orphaned_worktrees@, ids, worktree_id, id)
                        &&& final(self).language_server_ids@ == without_server(ids, id)
                        &&& final(self).language_server_statuses@ == old(
                            self,
                        ).language_server_statuses@.remove(id)
                        &&& final(self).language_servers@ == old(self).language_servers@.remove(id)
                        &&& final(out)@ == old(out)@ + stop_effects(*old(self), *cx, id)
                    },
                }
            }),
            *final(self) == (Project {
                language_server_ids: final(self).language_server_ids,
                language_server_statuses: final(self).language_server_statuses,
                language_servers: final(self).language_servers,
                ..*old(self)
            }),
    {
        let key = (worktree_id, adapter_name);
        let id: LanguageServerId = match self.language_server_ids.get(&key) {
            Some(id) => *id,
            None => return None,
        };
        let mut orphaned_worktrees: Vec<WorktreeId> = Vec::with_capacity(
            self.language_server_ids.len(),
        );
        proof {
            lemma_orphans(self.language_server_ids.entries(), key.key(), id);
        }
        orphaned_worktrees.push(worktree_id);
        self.remove_server_keys(&key, id, &mut orphaned_worktrees);
        assert(orphaned_worktrees@ =~= seq![worktree_id] + old(
            self,
        ).language_server_ids.entries().filter_map(other_worktree(key.key(), id)));
        self.clear_diagnostics(id, cx, out);
        self.language_server_statuses.remove(&id);
        out.push(Effect::Notify);
        let state = match self.language_servers.remove(&id) {
            Some(LanguageServerState::Starting) => StoppedState::Starting,
            Some(LanguageServerState::Running { server, .. }) => StoppedState::Running(server),
            None => StoppedState::Missing,
        };
        out.push(Effect::Emit(Event::LanguageServerRemoved(id)));
        assert(out@ =~= old(out)@ + stop_effects(*old(self), *cx, id));
        Some(StoppedServer { server_id: id, state, orphaned_worktrees })
    }

    /// Forgets the status of a server once it has been shut down.
    pub fn finish_stopping(&mut self, server_id: LanguageServerId, out: &mut Vec<Effect>)
        ensures
            final(self).language_server_statuses@ == old(self).language_server_statuses@.remove(
                server_id,
            ),
            *final(self) == (Project {
                language_server_statuses: final(self).language_server_statuses,
                ..*old(self)
            }),
            final(out)@ == old(out)@.push(Effect::Notify),
    {
        self.language_server_statuses.remove(&server_id);
        out.push(Effect::Notify);
    }
}

/// A stopped server works nowhere any more, and no other server was touched.
pub proof fn stopped_server_is_gone(
    ids: Map<(WorktreeId, Seq<char>), LanguageServerId>,
    id: LanguageServerId,
    key: (WorktreeId, Seq<char>),
)
    ensures
        without_server(ids, id).contains_key(key) ==> without_server(ids, id)[key] != id,
        ids.contains_key(key) && ids[key] != id ==> without_server(ids, id).contains_key(key)
            && without_server(ids, id)[key] == ids[key],
{
}

/// The adapter at `i` has a server on a worktree, and it is the server `id`.
pub open spec fn adapter_has(
    ids: Map<(WorktreeId, Seq<char>), LanguageServerId>,
    worktree_id: WorktreeId,
    adapters: Seq<Arc<LspAdapter>>,
    i: int,
    id: LanguageServerId,
) -> bool {
    let key = (worktree_id, adapters[i].name@);
    ids.contains_key(key) && ids[key] == id
}

/// The servers of the first `n` adapters on a worktree.
pub open spec fn servers_of_adapters(
    ids: Map<(WorktreeId, Seq<char>), LanguageServerId>,
    worktree_id: WorktreeId,
    adapters: Seq<Arc<LspAdapter>>,
    n: int,
) -> Set<LanguageServerId> {
    Set::new(
        |id: LanguageServerId|
            exists|i: int| 0 <= i < n && #[trigger] adapter_has(ids, worktree_id, adapters, i, id),
    )
}

/// The servers by worktree and name without some of them.
pub open spec fn without_servers(
    ids: Map<(WorktreeId, Seq<char>), LanguageServerId>,
    gone: Set<LanguageServerId>,
) -> Map<(WorktreeId, Seq<char>), LanguageServerId> {
    Map::new(
        |k: (WorktreeId, Seq<char>)| ids.contains_key(k) && !gone.contains(ids[k]),
        |k: (WorktreeId, Seq<char>)| ids[k],
    )
}

/// Stopping the adapter at `i` stops a server that no adapter before it has had.
pub open spec fn stops_another(
    ids: Map<(WorktreeId, Seq<char>), LanguageServerId>,
    worktree_id: WorktreeId,
    adapters: Seq<Arc<LspAdapter>>,
    i: int,
) -> bool {
    let key = (worktree_id, adapters[i].name@);
    ids.contains_key(key) && !servers_of_adapters(ids, worktree_id, adapters, i).contains(ids[key])
}

/// What is done when the servers of the first `n` adapters are stopped.
pub open spec fn restart_effects(
    project: Project,
    cx: AppContext,
    worktree_id: WorktreeId,
    adapters: Seq<Arc<LspAdapter>>,
    n: int,
) -> Seq<Effect>
    decreases n,
{
    if n <= 0 {
        Seq::empty()
    } else {
        let done = restart_effects(project, cx, worktree_id, adapters, n - 1);
        let ids = project.language_server_ids@;
        if stops_another(ids, worktree_id, adapters, n - 1) {
            done + stop_effects(project, cx, ids[(worktree_id, adapters[n - 1].name@)])
        } else {
            done
        }
    }
}

proof fn lemma_servers_step(
    ids: Map<(WorktreeId, Seq<char>), LanguageServerId>,
    worktree_id: WorktreeId,
    adapters: Seq<Arc<LspAdapter>>,
    n: int,
)
    requires
        0 <= n < adapters.len(),
    ensures
        ({
            let key = (worktree_id, adapters[n].name@);
            servers_of_adapters(ids, worktree_id, adapters, n + 1) == (if ids.contains_key(key) {
                servers_of_adapters(ids, worktree_id, adapters, n).insert(ids[key])
            } else {
                servers_of_adapters(ids, worktree_id, adapters, n)
            })
        }),
{
    let key = (worktree_id, adapters[n].name@);
    let a = servers_of_adapters(ids, worktree_id, adapters, n);
    let b = servers_of_adapters(ids, worktree_id, adapters, n + 1);
    assert forall|id: LanguageServerId| b.contains(id) == (a.contains(id) || (ids.contains_key(key)
        && ids[key] == id)) by {
        if b.contains(id) {
            let i = choose|i: int|
                0 <= i < n + 1 && #[trigger] adapter_has(ids, worktree_id, adapters, i, id);
            if i < n {
                assert(adapter_has(ids, worktree_id, adapters, i, id));
            }
        }
        if ids.contains_key(key) && ids[key] == id {
            assert(adapter_has(ids, worktree_id, adapters, n, id));
        }
    }
    if ids.contains_key(key) {
        assert(b =~= a.insert(ids[key]));
    } else {
        assert(b =~= a);
    }
}

impl Project {
    /// Stops the servers of a language on a worktree, so that they can be started anew. For each
    /// adapter comes back what has to be shut down, if anything.
    pub fn restart_language_servers(
        &mut self,
        worktree_id: WorktreeId,
        language: &Language,
        cx: &AppContext,
        out: &mut Vec<Effect>,
    ) -> (r: Vec<Option<StoppedServer>>)
        ensures
            ({
                let ids = old(self).language_server_ids@;
                let adapters = language.lsp_adapters@;
                let gone = servers_of_adapters(ids, worktree_id, adapters, adapters.len() as int);
                &&& final(self).language_server_ids@ == without_servers(ids, gone)
                &&& final(self).language_server_statuses@ == old(
                    self,
                ).language_server_statuses@.remove_keys(gone)
                &&& final(self).language_servers@ == old(self).language_servers@.remove_keys(gone)
                &&& final(out)@ == old(out)@ + restart_effects(
                    *old(self),
                    *cx,
                    worktree_id,
                    adapters,
                    adapters.len() as int,
                )
                &&& r@.len() == adapters.len()
                &&& forall|i: int|
                    0 <= i < r@.len() ==> {
                        let id = ids[(worktree_id, adapters[i].name@)];
                        match #[trigger] r@[i] {
                            None => !stops_another(ids, worktree_id, adapters, i),
                            Some(s) => stops_another(ids, worktree_id, adapters, i) && s.server_id
                                == id && s.state == stopped_state(old(self).language_servers@, id)
                                && lists_orphans(s.orphaned_worktrees@, ids, worktree_id, id),
                        }
                    }
            }),
            *final(self) == (Project {
                language_server_ids: final(self).language_server_ids,
                language_server_statuses: final(self).language_server_statuses,
                language_servers: final(self).language_servers,
                ..*old(self)
            }),
    {
        let mut r: Vec<Option<StoppedServer>> = Vec::new();
        let ghost ids = self.language_server_ids@;
        let ghost adapters = language.lsp_adapters@;
        proof {
            let none = servers_of_adapters(ids, worktree_id, adapters, 0);
            assert(none =~= Set::<LanguageServerId>::empty());
            assert(without_servers(ids, none) =~= ids);
            assert(self.language_server_statuses@.remove_keys(none)
                =~= self.language_server_statuses@);
            assert(self.language_servers@.remove_keys(none) =~= self.language_servers@);
            assert(out@ + Seq::<Effect>::empty() =~= out@);
        }
        for i in 0..language.lsp_adapters.len()
            invariant
                ids == old(self).language_server_ids@,
                adapters == language.lsp_adapters@,
                r@.len() == i,
                self.language_server_ids@ == without_servers(
                    ids,
                    servers_of_adapters(ids, worktree_id, adapters, i as int),
                ),
                self.language_server_statuses@ == old(self).language_server_statuses@.remove_keys(
                    servers_of_adapters(ids, worktree_id, adapters, i as int),
                ),
                self.language_servers@ == old(self).language_servers@.remove_keys(
                    servers_of_adapters(ids, worktree_id, adapters, i as int),
                ),
                out@ == old(out)@ + restart_effects(
                    *old(self),
                    *cx,
                    worktree_id,
                    adapters,
                    i as int,
                ),
                forall|k: int|
                    0 <= k < i ==> {
                        let id = ids[(worktree_id, adapters[k].name@)];
                        match #[trigger] r@[k] {
                            None => !stops_another(ids, worktree_id, adapters, k),
                            Some(s) => stops_another(ids, worktree_id, adapters, k) && s.server_id
                                == id && s.state == stopped_state(old(self).language_servers@, id)
                                && lists_orphans(s.orphaned_worktrees@, ids, worktree_id, id),
                        }
                    },
                *self == (Project {
                    language_server_ids: self.language_server_ids,
                    language_server_statuses: self.language_server_statuses,
                    language_servers: self.language_servers,
                    ..*old(self)
                }),
        {
            let ghost gone = servers_of_adapters(ids, worktree_id, adapters, i as int);
            let ghost before = *self;
            let ghost effects = restart_effects(*old(self), *cx, worktree_id, adapters, i as int);
            let stopped = self.stop_language_server(
                worktree_id,
                language.lsp_adapters[i].name.clone(),
                cx,
                out,
            );
            proof {
                let key = (worktree_id, adapters[i as int].name@);
                let next = servers_of_adapters(ids, worktree_id, adapters, i + 1);
                lemma_servers_step(ids, worktree_id, adapters, i as int);
                if stopped is Some {
                        let id = ids[key];
                        assert(without_server(without_servers(ids, gone), id) =~= without_servers(
                            ids,
                            next,
                        ));
                        assert(old(self).language_server_statuses@.remove_keys(gone).remove(id)
                            =~= old(self).language_server_statuses@.remove_keys(next));
                        assert(old(self).language_servers@.remove_keys(gone).remove(id) =~= old(
                            self,
                        ).language_servers@.remove_keys(next));
                        assert(stop_effects(before, *cx, id) == stop_effects(
                            *old(self),
                            *cx,
                            id,
                        ));
                        assert(out@ =~= old(out)@ + (effects + stop_effects(
                            *old(self),
                            *cx,
                            id,
                        )));
                        assert forall|w: WorktreeId|
                            #[trigger] works_on(ids, id, w) == works_on(
                            before.language_server_ids@,
                            id,
                            w,
                        ) by {
                            let now = before.language_server_ids@;
                            if works_on(ids, id, w) {
                                let name = choose|name: Seq<char>|
                                    #![trigger ids.contains_key((w, name))]
                                    ids.contains_key((w, name)) && ids[(w, name)] == id;
                                assert(now.contains_key((w, name)));
                            }
                            if works_on(now, id, w) {
                                let name = choose|name: Seq<char>|
                                    #![trigger now.contains_key((w, name))]
                                    now.contains_key((w, name)) && now[(w, name)] == id;
                                assert(ids.contains_key((w, name)));
                            }
                        }
                } else {
                    assert(next =~= gone);
                }
            }
            r.push(stopped);
        }
        r
    }
}

/// One of the adapters has the name.
pub open spec fn names_adapter(adapters: Seq<Arc<LspAdapter>>, n: int, name: Seq<char>) -> bool {
    exists|i: int| 0 <= i < n && (#[trigger] adapters[i]).name@ == name
}

/// The servers after those that have been started anew for a worktree under the names of the first
/// `n` adapters have been given to the orphaned worktrees too.
pub open spec fn adopted(
    ids: Map<(WorktreeId, Seq<char>), LanguageServerId>,
    worktree_id: WorktreeId,
    adapters: Seq<Arc<LspAdapter>>,
    orphaned: Seq<WorktreeId>,
    n: int,
) -> Map<(WorktreeId, Seq<char>), LanguageServerId> {
    Map::new(
        |k: (WorktreeId, Seq<char>)|
            ids.contains_key(k) || (orphaned.contains(k.0) && names_adapter(adapters, n, k.1)
                && ids.contains_key((worktree_id, k.1))),
        |k: (WorktreeId, Seq<char>)|
            if orphaned.contains(k.0) && names_adapter(adapters, n, k.1) && ids.contains_key(
                (worktree_id, k.1),
            ) {
                ids[(worktree_id, k.1)]
            } else {
                ids[k]
            },
    )
}

impl Project {
    /// Gives a server to the orphaned worktrees.
    fn adopt(&mut self, orphaned: &Vec<WorktreeId>, name: &LanguageServerName, id: LanguageServerId)
        ensures
            final(self).language_server_ids@ == Map::new(
                |k: (WorktreeId, Seq<char>)|
                    old(self).language_server_ids@.contains_key(k) || (k.1 == name@
                        && orphaned@.contains(k.0)),
                |k: (WorktreeId, Seq<char>)|
                    if k.1 == name@ && orphaned@.contains(k.0) {
                        id
                    } else {
                        old(self).language_server_ids@[k]
                    },
            ),
            *final(self) == (Project {
                language_server_ids: final(self).language_server_ids,
                ..*old(self)
            }),
    {
        let ghost ids = self.language_server_ids@;
        for i in 0..orphaned.len()
            invariant
                ids == old(self).language_server_ids@,
                *self == (Project {
                    language_server_ids: self.language_server_ids,
                    ..*old(self)
                }),
                forall|k: (WorktreeId, Seq<char>)| #[trigger]
                    self.language_server_ids@.contains_key(k) <==> ids.contains_key(k) || (k.1
                        == name@ && orphaned@.take(i as int).contains(k.0)),
                forall|k: (WorktreeId, Seq<char>)| #[trigger]
                    self.language_server_ids@.contains_key(k) ==> self.language_server_ids@[k] == (
                    if k.1 == name@ && orphaned@.take(i as int).contains(k.0) {
                        id
                    } else {
                        ids[k]
                    }),
        {
            proof {
                assert forall|w: WorktreeId|
                    orphaned@.take(i + 1).contains(w) == (#[trigger] orphaned@.take(
                        i as int,
                    ).contains(w) || w == orphaned@[i as int]) by {
                    lemma_contains_step(orphaned@, i as int, w);
                }
            }
            self.language_server_ids.insert((orphaned[i], name.clone()), id);
        }
        assert(orphaned@.take(orphaned@.len() as int) =~= orphaned@);
        assert(self.language_server_ids@ =~= Map::new(
            |k: (WorktreeId, Seq<char>)|
                ids.contains_key(k) || (k.1 == name@ && orphaned@.contains(k.0)),
            |k: (WorktreeId, Seq<char>)|
                if k.1 == name@ && orphaned@.contains(k.0) {
                    id
                } else {
                    ids[k]
                },
        ));
    }

    /// Starts the servers of a language for a worktree once the former ones have been shut down,
    /// at the root that the first of them had, and gives them to the other worktrees that those
    /// worked on.
    pub fn finish_restarting(
        &mut self,
        worktree: &Worktree,
        language: &Language,
        original_root_path: Option<Path>,
        orphaned_worktrees: &Vec<WorktreeId>,
        pending: &Vec<Option<LanguageServerId>>,
        cx: &AppContext,
        out: &mut Vec<Effect>,
    )
        requires
            pending@.len() == language.lsp_adapters@.len(),
        ensures
            ({
                let enabled = cx.settings_in(language.id, worktree.root()).enable_language_server;
                let adapters = language.lsp_adapters@;
                let n = adapters.len() as int;
                let root_path = match original_root_path {
                    Some(path) => path,
                    None => worktree.abs_path,
                };
                let ids = if enabled {
                    started_ids(*old(self), worktree.id, adapters, pending@, n)
                } else {
                    old(self).language_server_ids@
                };
                &&& final(self).language_server_ids@ == adopted(
                    ids,
                    worktree.id,
                    adapters,
                    orphaned_worktrees@,
                    n,
                )
                &&& final(self).language_servers@ == (if enabled {
                    started_servers(*old(self), worktree.id, adapters, pending@, n)
                } else {
                    old(self).language_servers@
                })
                &&& final(out)@ == (if enabled {
                    old(out)@ + start_effects(
                        *old(self),
                        worktree.id,
                        root_path,
                        *language,
                        pending@,
                        n,
                    )
                } else {
                    old(out)@
                })
            }),
            *final(self) == (Project {
                language_server_ids: final(self).language_server_ids,
                language_servers: final(self).language_servers,
                ..*old(self)
            }),
    {
        let root_path = match original_root_path {
            Some(path) => path,
            None => worktree.abs_path.clone(),
        };
        self.start_language_servers(worktree, &root_path, language, pending, cx, out);
        let ghost ids = self.language_server_ids@;
        let ghost started = *self;
        let ghost adapters = language.lsp_adapters@;
        let ghost orphaned = orphaned_worktrees@;
        assert(adopted(ids, worktree.id, adapters, orphaned, 0) =~= ids);
        for i in 0..language.lsp_adapters.len()
            invariant
                adapters == language.lsp_adapters@,
                orphaned == orphaned_worktrees@,
                self.language_server_ids@ == adopted(
                    ids,
                    worktree.id,
                    adapters,
                    orphaned,
                    i as int,
                ),
                *self == (Project { language_server_ids: self.language_server_ids, ..started }),
        {
            let name = language.lsp_adapters[i].name.clone();
            let key = (worktree.id, name.clone());
            let ghost before = adopted(ids, worktree.id, adapters, orphaned, i as int);
            let ghost after = adopted(ids, worktree.id, adapters, orphaned, i + 1);
            proof {
                assert forall|q: Seq<char>| #[trigger]
                    names_adapter(adapters, i + 1, q) == (names_adapter(adapters, i as int, q) || q
                        == name@) by {
                    if names_adapter(adapters, i + 1, q) {
                        let k = choose|k: int|
                            0 <= k < i + 1 && (#[trigger] adapters[k]).name@ == q;
                        if k < i {
                            assert(adapters[k].name@ == q);
                        }
                    }
                    if q == name@ {
                        assert(adapters[i as int].name@ == q);
                    }
                }
            }
            let found: Option<LanguageServerId> = match self.language_server_ids.get(&key) {
                Some(id) => Some(*id),
                None => None,
            };
            match found {
                Some(id) => {
                    self.adopt(orphaned_worktrees, &name, id);
                    assert(self.language_server_ids@ =~= after);
                },
                None => {
                    assert(before =~= after);
                },
            }
        }
    }
}

/// A server that runs comes back to be shut down; one that was still starting, or was not known any
/// more, is told apart.
pub proof fn stopped_servers_are_handed_out(
    servers: Map<LanguageServerId, LanguageServerState>,
    id: LanguageServerId,
)
    ensures
        servers.contains_key(id) && servers[id] is Running ==> stopped_state(servers, id)
            == StoppedState::Running(servers[id]->server),
        servers.contains_key(id) && servers[id] is Starting ==> stopped_state(servers, id)
            is Starting,
        !servers.contains_key(id) ==> stopped_state(servers, id) is Missing,
{
}

/// Stopping a server takes its problems away from every live buffer and every live worktree on this
/// disk, and the observers hear that the server is gone.
pub proof fn problems_of_a_stopped_server_go(project: Project, cx: AppContext, id: LanguageServerId)
    ensures
        ({
            let effects = stop_effects(project, cx, id);
            let es = project.opened_buffers.entries();
            let hs = project.worktrees@;
            &&& forall|i: int|
                0 <= i < es.len() && (#[trigger] es[i]).1.live(cx) is Some ==> effects.contains(
                    Effect::ClearBufferDiagnostics {
                        buffer: es[i].1.live(cx)->0.entity_id,
                        server_id: id,
                    },
                )
            &&& forall|i: int|
                0 <= i < hs.len() && (#[trigger] hs[i]).live(cx) is Some
                    && hs[i].live(cx)->0.is_local ==> effects.contains(
                    Effect::ClearWorktreeDiagnostics {
                        worktree: hs[i].live(cx)->0.entity_id,
                        server_id: id,
                    },
                )
            &&& effects.last() == Effect::Emit(Event::LanguageServerRemoved(id))
            &&& effects.contains(Effect::Notify)
        }),
{
    let effects = stop_effects(project, cx, id);
    let es = project.opened_buffers.entries();
    let hs = project.worktrees@;
    let f = clear_buffer(cx, id);
    let g = clear_worktree(cx, id);
    let a = es.filter_map(f);
    let b = hs.filter_map(g);
    assert forall|i: int| 0 <= i < es.len() && (#[trigger] es[i]).1.live(cx) is Some implies
        effects.contains(
        Effect::ClearBufferDiagnostics {
            buffer: es[i].1.live(cx)->0.entity_id,
            server_id: id,
        },
    ) by {
        lemma_filter_map_has(es, f, i);
        let e = f(es[i])->0;
        let k = choose|k: int| 0 <= k < a.len() && a[k] == e;
        assert(effects[k] == e);
    }
    assert forall|i: int|
        0 <= i < hs.len() && (#[trigger] hs[i]).live(cx) is Some && hs[i].live(
            cx,
        )->0.is_local implies effects.contains(
        Effect::ClearWorktreeDiagnostics {
            worktree: hs[i].live(cx)->0.entity_id,
            server_id: id,
        },
    ) by {
        lemma_filter_map_has(hs, g, i);
        let e = g(hs[i])->0;
        let k = choose|k: int| 0 <= k < b.len() && b[k] == e;
        assert(effects[a.len() + k] == e);
    }
    assert(effects[(a.len() + b.len()) as int] == Effect::Notify);
}

/// Restarting the servers of a language takes every server that one of its adapters has on the
/// worktree away from all worktrees, and no other one.
pub proof fn servers_of_the_language_are_taken_away(
    ids: Map<(WorktreeId, Seq<char>), LanguageServerId>,
    worktree_id: WorktreeId,
    adapters: Seq<Arc<LspAdapter>>,
    key: (WorktreeId, Seq<char>),
)
    requires
        ids.contains_key(key),
    ensures
        ({
            let n = adapters.len() as int;
            let left = without_servers(ids, servers_of_adapters(ids, worktree_id, adapters, n));
            &&& left.contains_key(key) <==> forall|i: int|
                0 <= i < n && ids.contains_key((worktree_id, (#[trigger] adapters[i]).name@))
                    ==> ids[(worktree_id, adapters[i].name@)] != ids[key]
            &&& left.contains_key(key) ==> left[key] == ids[key]
        }),
{
    let n = adapters.len() as int;
    let gone = servers_of_adapters(ids, worktree_id, adapters, n);
    if gone.contains(ids[key]) {
        let i = choose|i: int|
            0 <= i < n && #[trigger] adapter_has(ids, worktree_id, adapters, i, ids[key]);
        assert(ids[(worktree_id, adapters[i].name@)] == ids[key]);
    } else {
        assert forall|i: int|
            0 <= i < n && ids.contains_key(
                (worktree_id, (#[trigger] adapters[i]).name@),
            ) implies ids[(worktree_id, adapters[i].name@)] != ids[key] by {
            if ids[(worktree_id, adapters[i].name@)] == ids[key] {
                assert(adapter_has(ids, worktree_id, adapters, i, ids[key]));
            }
        }
    }
}

/// Each server is stopped once: by the first adapter that has it.
pub proof fn each_server_is_stopped_once(
    ids: Map<(WorktreeId, Seq<char>), LanguageServerId>,
    worktree_id: WorktreeId,
    adapters: Seq<Arc<LspAdapter>>,
    i: int,
)
    requires
        0 <= i < adapters.len(),
    ensures
        stops_another(ids, worktree_id, adapters, i) <==> ids.contains_key(
            (worktree_id, adapters[i].name@),
        ) && forall|j: int|
            0 <= j < i && ids.contains_key((worktree_id, (#[trigger] adapters[j]).name@))
                ==> ids[(worktree_id, adapters[j].name@)] != ids[(worktree_id, adapters[i].name@)],
{
    let id = ids[(worktree_id, adapters[i].name@)];
    let before = servers_of_adapters(ids, worktree_id, adapters, i);
    if before.contains(id) {
        let j = choose|j: int|
            0 <= j < i && #[trigger] adapter_has(ids, worktree_id, adapters, j, id);
        assert(ids[(worktree_id, adapters[j].name@)] == id);
    } else {
        assert forall|j: int|
            0 <= j < i && ids.contains_key(
                (worktree_id, (#[trigger] adapters[j]).name@),
            ) implies ids[(worktree_id, adapters[j].name@)] != id by {
            if ids[(worktree_id, adapters[j].name@)] == id {
                assert(adapter_has(ids, worktree_id, adapters, j, id));
            }
        }
    }
}

/// The observers hear of every server that is stopped for a restart.
pub proof fn restarted_servers_are_announced(
    project: Project,
    cx: AppContext,
    worktree_id: WorktreeId,
    adapters: Seq<Arc<LspAdapter>>,
    n: int,
    i: int,
)
    requires
        0 <= i < n <= adapters.len(),
        stops_another(project.language_server_ids@, worktree_id, adapters, i),
    ensures
        restart_effects(project, cx, worktree_id, adapters, n).contains(
            Effect::Emit(
                Event::LanguageServerRemoved(
                    project.language_server_ids@[(worktree_id, adapters[i].name@)],
                ),
            ),
        ),
    decreases n,
{
    let before = restart_effects(project, cx, worktree_id, adapters, n - 1);
    let after = restart_effects(project, cx, worktree_id, adapters, n);
    let id = project.language_server_ids@[(worktree_id, adapters[i].name@)];
    let e = Effect::Emit(Event::LanguageServerRemoved(id));
    if i < n - 1 {
        restarted_servers_are_announced(project, cx, worktree_id, adapters, n - 1, i);
        let k = choose|k: int| 0 <= k < before.len() && before[k] == e;
        assert(after[k] == e);
    } else {
        let stop = stop_effects(project, cx, id);
        assert(stop.last() == e);
        assert(after[before.len() + stop.len() - 1] == e);
    }
}

/// An orphaned worktree gets the server that was started anew under the same name, and every other
/// entry stays.
pub proof fn orphans_are_adopted(
    ids: Map<(WorktreeId, Seq<char>), LanguageServerId>,
    worktree_id: WorktreeId,
    adapters: Seq<Arc<LspAdapter>>,
    orphaned: Seq<WorktreeId>,
    key: (WorktreeId, Seq<char>),
)
    ensures
        ({
            let now = adopted(ids, worktree_id, adapters, orphaned, adapters.len() as int);
            let is_started = (exists|i: int|
                0 <= i < adapters.len() && (#[trigger] adapters[i]).name@ == key.1)
                && ids.contains_key((worktree_id, key.1));
            &&& orphaned.contains(key.0) && is_started ==> now.contains_key(key) && now[key]
                == ids[(worktree_id, key.1)]
            &&& !(orphaned.contains(key.0) && is_started) ==> now.contains_key(key)
                == ids.contains_key(key) && (ids.contains_key(key) ==> now[key] == ids[key])
        }),
{
}

/// A stopped server leaves behind exactly the worktree that it was stopped for and those that it
/// worked on under any name.
pub proof fn orphans_are_listed(
    list: Seq<WorktreeId>,
    ids: Map<(WorktreeId, Seq<char>), LanguageServerId>,
    worktree_id: WorktreeId,
    id: LanguageServerId,
    other: WorktreeId,
    name: Seq<char>,
)
    requires
        lists_orphans(list, ids, worktree_id, id),
    ensures
        list.contains(worktree_id),
        ids.contains_key((other, name)) && ids[(other, name)] == id ==> list.contains(other),
        list.contains(other) && other != worktree_id ==> exists|n: Seq<char>|
            #![trigger ids.contains_key((other, n))]
            ids.contains_key((other, n)) && ids[(other, n)] == id,
{
    if ids.contains_key((other, name)) && ids[(other, name)] == id {
        assert(works_on(ids, id, other));
    }
    assert(list.contains(worktree_id) == (worktree_id == worktree_id || works_on(
        ids,
        id,
        worktree_id,
    )));
}

/// Another entry of a stopped server tells of its worktree; entries of other servers do not.
pub proof fn other_entries_tell_of_worktrees(
    key: (WorktreeId, Seq<char>),
    id: LanguageServerId,
    e: ((WorktreeId, LanguageServerName), LanguageServerId),
)
    ensures
        other_worktree(key, id)(e) is Some <==> e.1 == id && !(e.0.0 == key.0 && e.0.1@ == key.1),
        other_worktree(key, id)(e) is Some ==> other_worktree(key, id)(e)->0 == e.0.0,
{
}

} // verus!
