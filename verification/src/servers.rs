//! Which language servers work on which worktrees and buffers.

use crate::effects::Effect;
use crate::ids::{LanguageServerId, LanguageServerName, WorktreeId};
use crate::map::{SortedMap, SortedSet};
use crate::model::{AppContext, Buffer, Language, LanguageServer, LspAdapter, Worktree};
use crate::path::Path;
use crate::project::{LanguageServerState, LanguageServerStatus, Project, WorktreeHandle};
use crate::seqs::{
    find_map, lemma_filter_map_from, lemma_filter_map_has, lemma_filter_map_step,
    lemma_find_map_found, lemma_find_map_none, lemma_take_all,
};
use std::sync::Arc;
use vstd::prelude::*;

verus! {

/// How often a server is installed anew before it is given up.
pub const MAX_SERVER_REINSTALL_ATTEMPT_COUNT: u64 = 4;

/// The server that works on a worktree under an adapter's name.
pub open spec fn id_for_adapter(
    ids: Map<(WorktreeId, Seq<char>), LanguageServerId>,
    worktree_id: WorktreeId,
) -> spec_fn(Arc<LspAdapter>) -> Option<LanguageServerId> {
    |a: Arc<LspAdapter>|
        if ids.contains_key((worktree_id, a.name@)) {
            Some(ids[(worktree_id, a.name@)])
        } else {
            None
        }
}

/// A server that is up and running.
pub open spec fn running(servers: Map<LanguageServerId, LanguageServerState>) -> spec_fn(
    LanguageServerId,
) -> Option<(Arc<LspAdapter>, Arc<LanguageServer>)> {
    |id: LanguageServerId|
        if servers.contains_key(id) {
            match servers[id] {
                LanguageServerState::Running { adapter, server, .. } => Some((adapter, server)),
                LanguageServerState::Starting => None,
            }
        } else {
            None
        }
}

pub open spec fn running_in(
    servers: Map<LanguageServerId, LanguageServerState>,
    worktree_id: WorktreeId,
) -> spec_fn(((WorktreeId, LanguageServerName), LanguageServerId)) -> Option<
    (Arc<LspAdapter>, Arc<LanguageServer>),
> {
    |e: ((WorktreeId, LanguageServerName), LanguageServerId)|
        if e.0.0 == worktree_id {
            running(servers)(e.1)
        } else {
            None
        }
}

pub open spec fn with_server_id(id: LanguageServerId) -> spec_fn(
    (Arc<LspAdapter>, Arc<LanguageServer>),
) -> Option<(Arc<LspAdapter>, Arc<LanguageServer>)> {
    |s: (Arc<LspAdapter>, Arc<LanguageServer>)|
        if s.1.server_id == id {
            Some(s)
        } else {
            None
        }
}

/// The entry of a status that nothing is known of yet.
pub open spec fn is_fresh_status(status: LanguageServerStatus, name: String) -> bool {
    &&& status.name == name
    &&& status.pending_work@ == Map::<Seq<char>, crate::project::LanguageServerProgress>::empty()
    &&& !status.has_pending_diagnostic_updates
    &&& status.progress_tokens@ == Set::<Seq<char>>::empty()
}

pub(crate) fn fresh_status(name: String) -> (r: LanguageServerStatus)
    ensures
        is_fresh_status(r, name),
{
    LanguageServerStatus {
        name,
        pending_work: SortedMap::new(),
        has_pending_diagnostic_updates: false,
        progress_tokens: SortedSet::new(),
    }
}

impl Project {
    /// The ids of the servers that work on a buffer, in the order of its language's adapters.
    pub open spec fn server_ids_of_buffer(self, buffer: Buffer) -> Seq<LanguageServerId> {
        match (buffer.file, buffer.language) {
            (Some(file), Some(language)) => language.lsp_adapters@.filter_map(
                id_for_adapter(self.language_server_ids@, file.worktree_id),
            ),
            _ => Seq::empty(),
        }
    }

    /// The running servers that work on a buffer.
    pub open spec fn servers_of_buffer(self, buffer: Buffer) -> Seq<
        (Arc<LspAdapter>, Arc<LanguageServer>),
    > {
        self.server_ids_of_buffer(buffer).filter_map(running(self.language_servers@))
    }

    pub open spec fn servers_of_worktree(self, worktree_id: WorktreeId) -> Seq<
        (Arc<LspAdapter>, Arc<LanguageServer>),
    > {
        self.language_server_ids.entries().filter_map(
            running_in(self.language_servers@, worktree_id),
        )
    }

    pub open spec fn server_of_id(self, id: LanguageServerId) -> Option<Arc<LanguageServer>> {
        match running(self.language_servers@)(id) {
            Some(s) => Some(s.1),
            None => if self.supplementary_language_servers@.contains_key(id) {
                Some(self.supplementary_language_servers@[id].1)
            } else {
                None
            },
        }
    }

    pub fn language_server_ids_for_buffer(&self, buffer: &Buffer) -> (r: Vec<LanguageServerId>)
        ensures
            r@ == self.server_ids_of_buffer(*buffer),
    {
        let mut r: Vec<LanguageServerId> = Vec::new();
        if let (Some(file), Some(language)) = (&buffer.file, &buffer.language) {
            let ghost f = id_for_adapter(self.language_server_ids@, file.worktree_id);
            proof {
                lemma_take_all(language.lsp_adapters@);
            }
            for i in 0..language.lsp_adapters.len()
                invariant
                    f == id_for_adapter(self.language_server_ids@, file.worktree_id),
                    r@ == language.lsp_adapters@.take(i as int).filter_map(f),
            {
                proof {
                    lemma_filter_map_step(language.lsp_adapters@, f, i as int);
                }
                let key = (file.worktree_id, language.lsp_adapters[i].name.clone());
                if let Some(id) = self.language_server_ids.get(&key) {
                    r.push(*id);
                }
            }
        }
        r
    }

    /// A server, if it is up and running, with its adapter.
    pub(crate) fn running_server(&self, id: LanguageServerId) -> (r: Option<
        (Arc<LspAdapter>, Arc<LanguageServer>),
    >)
        ensures
            r == running(self.language_servers@)(id),
    {
        match self.language_servers.get(&id) {
            Some(LanguageServerState::Running { adapter, server, .. }) => {
                Some((adapter.clone(), server.clone()))
            },
            _ => None,
        }
    }

    /// The running servers that work on a buffer, with their adapters.
    pub fn language_servers_for_buffer(&self, buffer: &Buffer) -> (r: Vec<
        (Arc<LspAdapter>, Arc<LanguageServer>),
    >)
        ensures
            r@ == self.servers_of_buffer(*buffer),
    {
        let ids = self.language_server_ids_for_buffer(buffer);
        let mut r: Vec<(Arc<LspAdapter>, Arc<LanguageServer>)> = Vec::new();
        let ghost f = running(self.language_servers@);
        proof {
            lemma_take_all(ids@);
        }
        for i in 0..ids.len()
            invariant
                f == running(self.language_servers@),
                r@ == ids@.take(i as int).filter_map(f),
        {
            proof {
                lemma_filter_map_step(ids@, f, i as int);
            }
            if let Some(s) = self.running_server(ids[i]) {
                r.push(s);
            }
        }
        r
    }

    /// The first running server that works on a buffer.
    pub fn primary_language_server_for_buffer(&self, buffer: &Buffer) -> (r: Option<
        (Arc<LspAdapter>, Arc<LanguageServer>),
    >)
        ensures
            r == (if self.servers_of_buffer(*buffer).len() > 0 {
                Some(self.servers_of_buffer(*buffer)[0])
            } else {
                None
            }),
    {
        let servers = self.language_servers_for_buffer(buffer);
        if servers.len() > 0 {
            Some((servers[0].0.clone(), servers[0].1.clone()))
        } else {
            None
        }
    }

    /// A certain running server, if it works on a buffer.
    pub fn language_server_for_buffer(&self, buffer: &Buffer, server_id: LanguageServerId) -> (r:
        Option<(Arc<LspAdapter>, Arc<LanguageServer>)>)
        ensures
            r == find_map(self.servers_of_buffer(*buffer), with_server_id(server_id)),
    {
        let servers = self.language_servers_for_buffer(buffer);
        for i in 0..servers.len()
            invariant
                servers@ == self.servers_of_buffer(*buffer),
                forall|j: int|
                    0 <= j < i ==> with_server_id(server_id)(#[trigger] servers@[j]) is None,
        {
            if servers[i].1.server_id == server_id {
                proof {
                    lemma_find_map_found(servers@, with_server_id(server_id), i as int);
                }
                return Some((servers[i].0.clone(), servers[i].1.clone()));
            }
        }
        proof {
            lemma_find_map_none(servers@, with_server_id(server_id));
        }
        None
    }

    pub fn language_server_for_id(&self, id: LanguageServerId) -> (r: Option<Arc<LanguageServer>>)
        ensures
            r == self.server_of_id(id),
    {
        match self.running_server(id) {
            Some(s) => Some(s.1),
            None => match self.supplementary_language_servers.get(&id) {
                Some(s) => Some(s.1.clone()),
                None => None,
            },
        }
    }

    /// All servers, with the names and worktrees that they work under.
    pub fn language_servers(&self) -> (r: Vec<(LanguageServerId, LanguageServerName, WorktreeId)>)
        ensures
            r@ == self.language_server_ids.entries().map_values(
                |e: ((WorktreeId, LanguageServerName), LanguageServerId)| (e.1, e.0.1, e.0.0),
            ),
    {
        let mut r: Vec<(LanguageServerId, LanguageServerName, WorktreeId)> = Vec::new();
        let ghost all = self.language_server_ids.entries().map_values(
            |e: ((WorktreeId, LanguageServerName), LanguageServerId)| (e.1, e.0.1, e.0.0),
        );
        let n: usize = self.language_server_ids.len();
        for i in 0..n
            invariant
                n == self.language_server_ids.entries().len(),
                all == self.language_server_ids.entries().map_values(
                    |e: ((WorktreeId, LanguageServerName), LanguageServerId)| (e.1, e.0.1, e.0.0),
                ),
                r@ == all.take(i as int),
        {
            let key = self.language_server_ids.key_of(i);
            let id = self.language_server_ids.value_of(i);
            r.push((*id, key.1.clone(), key.0));
            assert(r@ =~= all.take(i + 1));
        }
        assert(r@ =~= all);
        r
    }

    /// The servers that run beside those of the languages.
    pub fn supplementary_language_servers(&self) -> (r: Vec<
        (LanguageServerId, LanguageServerName, Arc<LanguageServer>),
    >)
        ensures
            r@ == self.supplementary_language_servers.entries().map_values(
                |e: (LanguageServerId, (LanguageServerName, Arc<LanguageServer>))|
                    (e.0, e.1.0, e.1.1),
            ),
    {
        let mut r: Vec<(LanguageServerId, LanguageServerName, Arc<LanguageServer>)> = Vec::new();
        let ghost all = self.supplementary_language_servers.entries().map_values(
            |e: (LanguageServerId, (LanguageServerName, Arc<LanguageServer>))| (e.0, e.1.0, e.1.1),
        );
        let n: usize = self.supplementary_language_servers.len();
        for i in 0..n
            invariant
                n == self.supplementary_language_servers.entries().len(),
                all == self.supplementary_language_servers.entries().map_values(
                    |e: (LanguageServerId, (LanguageServerName, Arc<LanguageServer>))|
                        (e.0, e.1.0, e.1.1),
                ),
                r@ == all.take(i as int),
        {
            let id = self.supplementary_language_servers.key_of(i);
            let s = self.supplementary_language_servers.value_of(i);
            r.push((*id, s.0.clone(), s.1.clone()));
            assert(r@ =~= all.take(i + 1));
        }
        assert(r@ =~= all);
        r
    }

    /// The running servers that work on a worktree, with their adapters.
    pub fn language_servers_for_worktree(&self, worktree_id: WorktreeId) -> (r: Vec<
        (Arc<LspAdapter>, Arc<LanguageServer>),
    >)
        ensures
            r@ == self.servers_of_worktree(worktree_id),
    {
        let mut r: Vec<(Arc<LspAdapter>, Arc<LanguageServer>)> = Vec::new();
        let ghost s = self.language_server_ids.entries();
        let ghost f = running_in(self.language_servers@, worktree_id);
        proof {
            lemma_take_all(s);
        }
        let n: usize = self.language_server_ids.len();
        for i in 0..n
            invariant
                n == self.language_server_ids.entries().len(),
                s == self.language_server_ids.entries(),
                f == running_in(self.language_servers@, worktree_id),
                r@ == s.take(i as int).filter_map(f),
        {
            proof {
                lemma_filter_map_step(s, f, i as int);
            }
            let key = self.language_server_ids.key_of(i);
            if key.0 == worktree_id {
                if let Some(server) = self.running_server(*self.language_server_ids.value_of(i)) {
                    r.push(server);
                }
            }
        }
        r
    }
}

/// Whether a server may be started for a worktree under an adapter's name: none is there yet, and
/// it has not been installed anew too often.
pub open spec fn may_start(project: Project, worktree_id: WorktreeId, adapter: LspAdapter) -> bool {
    &&& adapter.reinstall_attempt_count <= MAX_SERVER_REINSTALL_ATTEMPT_COUNT
    &&& !project.language_server_ids@.contains_key((worktree_id, adapter.name@))
}

/// The options that a server is started with.
#[derive(Debug, PartialEq, Eq)]
pub enum InitializationOptions {
    /// The adapter's options, with the settings' merged into them.
    Merge { options: String, overriding: String },
    Use(Option<String>),
}

/// The options that a server is started with: the settings' are merged into the adapter's.
pub fn initialization_options(adapter: &LspAdapter, overriding: Option<String>) -> (r:
    InitializationOptions)
    ensures
        r == (match (adapter.initialization_options, overriding) {
            (Some(options), Some(overriding)) => InitializationOptions::Merge {
                options,
                overriding,
            },
            (Some(options), None) => InitializationOptions::Use(Some(options)),
            (None, overriding) => InitializationOptions::Use(overriding),
        }),
{
    match (&adapter.initialization_options, overriding) {
        (Some(options), Some(overriding)) => InitializationOptions::Merge {
            options: options.clone(),
            overriding,
        },
        (Some(options), None) => InitializationOptions::Use(Some(options.clone())),
        (None, overriding) => InitializationOptions::Use(overriding),
    }
}

/// What came of running a server's test binary.
#[derive(Clone, Copy, Debug, PartialEq, Eq, Structural)]
pub enum TestBinaryOutcome {
    /// There is no test binary, or it could not be started.
    NotLaunched,
    Exited { success: bool },
    /// Its exit status could not be determined.
    StatusUnknown,
    /// It ran longer than it was given, which counts as a success.
    TimedOut,
}

/// Whether a server that failed to start is to be installed anew.
pub fn check_errored_server(adapter: &LspAdapter, outcome: TestBinaryOutcome) -> (r: bool)
    ensures
        r == (adapter.can_be_reinstalled && match outcome {
            TestBinaryOutcome::NotLaunched => true,
            TestBinaryOutcome::Exited { success } => !success,
            TestBinaryOutcome::StatusUnknown => true,
            TestBinaryOutcome::TimedOut => false,
        }),
{
    if !adapter.can_be_reinstalled {
        return false;
    }
    match outcome {
        TestBinaryOutcome::NotLaunched => true,
        TestBinaryOutcome::Exited { success } => !success,
        TestBinaryOutcome::StatusUnknown => true,
        TestBinaryOutcome::TimedOut => false,
    }
}

impl Project {
    /// Tells whether a server may be started for a worktree.
    pub fn can_start_language_server(&self, worktree_id: WorktreeId, adapter: &LspAdapter) -> (r:
        bool)
        ensures
            r == may_start(*self, worktree_id, *adapter),
    {
        if adapter.reinstall_attempt_count > MAX_SERVER_REINSTALL_ATTEMPT_COUNT {
            return false;
        }
        let key = (worktree_id, adapter.name.clone());
        !self.language_server_ids.contains_key(&key)
    }

    /// Enters a server that is being started for a worktree, under the id that the registry of
    /// languages has given it, if it has given one.
    pub fn start_language_server(
        &mut self,
        worktree_id: WorktreeId,
        root_path: &Path,
        adapter: &LspAdapter,
        language: &Language,
        pending: Option<LanguageServerId>,
        out: &mut Vec<Effect>,
    )
        ensures
            ({
                let starts = pending is Some && may_start(*old(self), worktree_id, *adapter);
                let id = pending->0;
                &&& final(self).language_servers@ == (if starts {
                    old(self).language_servers@.insert(id, LanguageServerState::Starting)
                } else {
                    old(self).language_servers@
                })
                &&& final(self).language_server_ids@ == (if starts {
                    old(self).language_server_ids@.insert((worktree_id, adapter.name@), id)
                } else {
                    old(self).language_server_ids@
                })
                &&& final(out)@ == (if starts {
                    old(out)@.push(
                        Effect::StartServer {
                            server_id: id,
                            worktree_id,
                            root_path: *root_path,
                            language: language.id,
                        },
                    )
                } else {
                    old(out)@
                })
                &&& !starts ==> *final(self) == *old(self)
            }),
            *final(self) == (Project {
                language_servers: final(self).language_servers,
                language_server_ids: final(self).language_server_ids,
                ..*old(self)
            }),
    {
        if !self.can_start_language_server(worktree_id, adapter) {
            return;
        }
        if let Some(server_id) = pending {
            self.language_servers.insert(server_id, LanguageServerState::Starting);
            self.language_server_ids.insert((worktree_id, adapter.name.clone()), server_id);
            out.push(
                Effect::StartServer {
                    server_id,
                    worktree_id,
                    root_path: root_path.clone(),
                    language: language.id,
                },
            );
        }
    }
}

/// Whether an adapter's server is started, where `ids` work already.
pub open spec fn adapter_starts(
    ids: Map<(WorktreeId, Seq<char>), LanguageServerId>,
    worktree_id: WorktreeId,
    adapter: LspAdapter,
    pending: Option<LanguageServerId>,
) -> bool {
    &&& pending is Some
    &&& adapter.reinstall_attempt_count <= MAX_SERVER_REINSTALL_ATTEMPT_COUNT
    &&& !ids.contains_key((worktree_id, adapter.name@))
}

/// The servers by worktree and name after the first `n` adapters of a language have been started.
pub open spec fn started_ids(
    project: Project,
    worktree_id: WorktreeId,
    adapters: Seq<Arc<LspAdapter>>,
    pending: Seq<Option<LanguageServerId>>,
    n: int,
) -> Map<(WorktreeId, Seq<char>), LanguageServerId>
    decreases n,
{
    if n <= 0 {
        project.language_server_ids@
    } else {
        let ids = started_ids(project, worktree_id, adapters, pending, n - 1);
        let adapter = adapters[n - 1];
        if adapter_starts(ids, worktree_id, *adapter, pending[n - 1]) {
            ids.insert((worktree_id, adapter.name@), pending[n - 1]->0)
        } else {
            ids
        }
    }
}

/// The states of the servers after the first `n` adapters of a language have been started.
pub open spec fn started_servers(
    project: Project,
    worktree_id: WorktreeId,
    adapters: Seq<Arc<LspAdapter>>,
    pending: Seq<Option<LanguageServerId>>,
    n: int,
) -> Map<LanguageServerId, LanguageServerState>
    decreases n,
{
    if n <= 0 {
        project.language_servers@
    } else {
        let servers = started_servers(project, worktree_id, adapters, pending, n - 1);
        let ids = started_ids(project, worktree_id, adapters, pending, n - 1);
        if adapter_starts(ids, worktree_id, *adapters[n - 1], pending[n - 1]) {
            servers.insert(pending[n - 1]->0, LanguageServerState::Starting)
        } else {
            servers
        }
    }
}

/// What is done to start the first `n` adapters of a language.
pub open spec fn start_effects(
    project: Project,
    worktree_id: WorktreeId,
    root_path: Path,
    language: Language,
    pending: Seq<Option<LanguageServerId>>,
    n: int,
) -> Seq<Effect>
    decreases n,
{
    if n <= 0 {
        Seq::empty()
    } else {
        let effects = start_effects(project, worktree_id, root_path, language, pending, n - 1);
        let ids = started_ids(project, worktree_id, language.lsp_adapters@, pending, n - 1);
        let adapter = language.lsp_adapters@[n - 1];
        if adapter_starts(ids, worktree_id, *adapter, pending[n - 1]) {
            effects.push(
                Effect::StartServer {
                    server_id: pending[n - 1]->0,
                    worktree_id,
                    root_path,
                    language: language.id,
                },
            )
        } else {
            effects
        }
    }
}

/// Once all servers of a language work on a worktree, starting them again changes nothing.
pub proof fn starting_again_changes_nothing(
    project: Project,
    worktree_id: WorktreeId,
    adapters: Seq<Arc<LspAdapter>>,
    pending: Seq<Option<LanguageServerId>>,
    n: int,
)
    requires
        0 <= n <= adapters.len(),
        forall|i: int|
            0 <= i < adapters.len() ==> project.language_server_ids@.contains_key(
                (worktree_id, (#[trigger] adapters[i]).name@),
            ),
    ensures
        started_ids(project, worktree_id, adapters, pending, n) == project.language_server_ids@,
        started_servers(project, worktree_id, adapters, pending, n) == project.language_servers@,
    decreases n,
{
    if n > 0 {
        starting_again_changes_nothing(project, worktree_id, adapters, pending, n - 1);
        assert(project.language_server_ids@.contains_key((worktree_id, adapters[n - 1].name@)));
    }
}

impl Project {
    /// Starts the servers of a language for a worktree, unless its settings forbid it. `pending`
    /// holds the ids that the registry of languages gives for the adapters, in their order.
    pub fn start_language_servers(
        &mut self,
        worktree: &Worktree,
        root_path: &Path,
        language: &Language,
        pending: &Vec<Option<LanguageServerId>>,
        cx: &AppContext,
        out: &mut Vec<Effect>,
    )
        requires
            pending@.len() == language.lsp_adapters@.len(),
        ensures
            ({
                let enabled = cx.settings_in(language.id, worktree.root()).enable_language_server;
                &&& !enabled ==> *final(self) == *old(self) && final(out)@ == old(out)@
                &&& enabled ==> {
                    let n = pending@.len() as int;
                    let adapters = language.lsp_adapters@;
                    &&& final(self).language_server_ids@ == started_ids(
                        *old(self),
                        worktree.id,
                        adapters,
                        pending@,
                        n,
                    )
                    &&& final(self).language_servers@ == started_servers(
                        *old(self),
                        worktree.id,
                        adapters,
                        pending@,
                        n,
                    )
                    &&& final(out)@ == old(out)@ + start_effects(
                        *old(self),
                        worktree.id,
                        *root_path,
                        *language,
                        pending@,
                        n,
                    )
                }
            }),
            *final(self) == (Project {
                language_servers: final(self).language_servers,
                language_server_ids: final(self).language_server_ids,
                ..*old(self)
            }),
    {
        let settings = cx.language_settings(language.id, worktree.root_file());
        if !settings.enable_language_server {
            return;
        }
        assert(out@ + Seq::<Effect>::empty() =~= out@);
        for i in 0..pending.len()
            invariant
                pending@.len() == language.lsp_adapters@.len(),
                self.language_servers@ == started_servers(
                    *old(self),
                    worktree.id,
                    language.lsp_adapters@,
                    pending@,
                    i as int,
                ),
                out@ == old(out)@ + start_effects(
                    *old(self),
                    worktree.id,
                    *root_path,
                    *language,
                    pending@,
                    i as int,
                ),
                self.language_server_ids@ == started_ids(
                    *old(self),
                    worktree.id,
                    language.lsp_adapters@,
                    pending@,
                    i as int,
                ),
                *self == (Project {
                    language_servers: self.language_servers,
                    language_server_ids: self.language_server_ids,
                    ..*old(self)
                }),
        {
            let adapter = language.lsp_adapters[i].clone();
            self.start_language_server(
                worktree.id,
                root_path,
                &adapter,
                language,
                pending[i],
                out,
            );
            assert(out@ =~= old(out)@ + start_effects(
                *old(self),
                worktree.id,
                *root_path,
                *language,
                pending@,
                i + 1,
            ));
        }
    }
}

/// Counts a failed start of a server that has been installed by the editor, and tells whether its
/// installation is to be tested. `attempt_count` is the adapter's, which all projects share.
pub fn record_failed_start(attempt_count: &mut u64, has_container_dir: bool) -> (r: bool)
    ensures
        r == (has_container_dir && *old(attempt_count) < MAX_SERVER_REINSTALL_ATTEMPT_COUNT),
        *final(attempt_count) == (if !has_container_dir {
            *old(attempt_count)
        } else if *old(attempt_count) == u64::MAX {
            0u64
        } else {
            (*old(attempt_count) + 1) as u64
        }),
{
    if !has_container_dir {
        return false;
    }
    let count: u64 = *attempt_count;
    *attempt_count = if count == u64::MAX {
        0
    } else {
        count + 1
    };
    count < MAX_SERVER_REINSTALL_ATTEMPT_COUNT
}

/// The keys under which an adapter's server can work on a live worktree.
pub open spec fn keys_in_worktrees(
    worktrees: Seq<WorktreeHandle>,
    cx: AppContext,
    name: Seq<char>,
) -> Set<(WorktreeId, Seq<char>)> {
    Set::new(
        |k: (WorktreeId, Seq<char>)|
            k.1 == name && exists|i: int|
                0 <= i < worktrees.len() && (#[trigger] worktrees[i].live(cx)) is Some
                    && worktrees[i].live(cx)->0.id == k.0,
    )
}

impl Project {
    /// Takes a server out of the project, so that it can be installed anew. What comes back is the
    /// server that has to be shut down before.
    pub fn reinstall_language_server(
        &mut self,
        adapter: &LspAdapter,
        server_id: LanguageServerId,
        cx: &AppContext,
    ) -> (r: Option<Arc<LanguageServer>>)
        ensures
            r == (match running(old(self).language_servers@)(server_id) {
                Some(s) => Some(s.1),
                None => None,
            }),
            final(self).language_servers@ == old(self).language_servers@.remove(server_id),
            final(self).language_server_ids@ == old(self).language_server_ids@.remove_keys(
                keys_in_worktrees(old(self).worktrees@, *cx, adapter.name@),
            ),
            *final(self) == (Project {
                language_servers: final(self).language_servers,
                language_server_ids: final(self).language_server_ids,
                ..*old(self)
            }),
    {
        let existing = match self.language_servers.remove(&server_id) {
            Some(LanguageServerState::Running { server, .. }) => Some(server),
            _ => None,
        };
        let ghost name = adapter.name@;
        let ghost ids = self.language_server_ids@;
        let ghost ws = self.worktrees@;
        proof {
            assert(ids.remove_keys(keys_in_worktrees(ws.take(0), *cx, name)) =~= ids);
        }
        let n: usize = self.worktrees.len();
        for i in 0..n
            invariant
                n == ws.len(),
                ws == self.worktrees@,
                name == adapter.name@,
                ids == old(self).language_server_ids@,
                self.language_server_ids@ == ids.remove_keys(
                    keys_in_worktrees(ws.take(i as int), *cx, name),
                ),
                *self == (Project {
                    language_servers: self.language_servers,
                    language_server_ids: self.language_server_ids,
                    ..*old(self)
                }),
                self.language_servers@ == old(self).language_servers@.remove(server_id),
        {
            let ghost before = keys_in_worktrees(ws.take(i as int), *cx, name);
            let ghost after = keys_in_worktrees(ws.take(i + 1), *cx, name);
            if let Some(w) = self.worktrees[i].upgrade(cx) {
                let key = (w.id, adapter.name.clone());
                self.language_server_ids.remove(&key);
                proof {
                    assert(after =~= before.insert((w.id, name))) by {
                        assert forall|k: (WorktreeId, Seq<char>)|
                            after.contains(k) == before.insert((w.id, name)).contains(k) by {
                            if after.contains(k) {
                                let j = choose|j: int|
                                    0 <= j < i + 1 && (#[trigger] ws.take(i + 1)[j].live(
                                        *cx,
                                    )) is Some && ws.take(i + 1)[j].live(*cx)->0.id == k.0;
                                if j < i {
                                    assert(ws.take(i as int)[j] == ws.take(i + 1)[j]);
                                }
                            }
                            if before.contains(k) {
                                let j = choose|j: int|
                                    0 <= j < i && (#[trigger] ws.take(i as int)[j].live(
                                        *cx,
                                    )) is Some && ws.take(i as int)[j].live(*cx)->0.id == k.0;
                                assert(ws.take(i + 1)[j] == ws.take(i as int)[j]);
                            }
                            if k == (w.id, name) {
                                assert(ws.take(i + 1)[i as int].live(*cx) is Some);
                            }
                        }
                    }
                    assert(self.language_server_ids@ =~= ids.remove_keys(after));
                }
            } else {
                proof {
                    assert(after =~= before) by {
                        assert forall|k: (WorktreeId, Seq<char>)|
                            after.contains(k) == before.contains(k) by {
                            if after.contains(k) {
                                let j = choose|j: int|
                                    0 <= j < i + 1 && (#[trigger] ws.take(i + 1)[j].live(
                                        *cx,
                                    )) is Some && ws.take(i + 1)[j].live(*cx)->0.id == k.0;
                                assert(ws.take(i as int)[j] == ws.take(i + 1)[j]);
                            }
                            if before.contains(k) {
                                let j = choose|j: int|
                                    0 <= j < i && (#[trigger] ws.take(i as int)[j].live(
                                        *cx,
                                    )) is Some && ws.take(i as int)[j].live(*cx)->0.id == k.0;
                                assert(ws.take(i + 1)[j] == ws.take(i as int)[j]);
                            }
                        }
                    }
                }
            }
        }
        assert(ws.take(ws.len() as int) =~= ws);
        existing
    }
}

/// A running server works on a buffer if it is entered for the worktree of the buffer's file under
/// the name of an adapter of the buffer's language.
pub proof fn servers_of_the_language_work_on_a_buffer(project: Project, buffer: Buffer, i: int) -> (k:
    int)
    requires
        buffer.file is Some,
        buffer.language is Some,
        0 <= i < buffer.language->0.lsp_adapters@.len(),
        ({
            let key = (buffer.file->0.worktree_id, buffer.language->0.lsp_adapters@[i].name@);
            &&& project.language_server_ids@.contains_key(key)
            &&& project.language_servers@.contains_key(project.language_server_ids@[key])
            &&& project.language_servers@[project.language_server_ids@[key]] is Running
        }),
    ensures
        0 <= k < project.servers_of_buffer(buffer).len(),
        ({
            let key = (buffer.file->0.worktree_id, buffer.language->0.lsp_adapters@[i].name@);
            let state = project.language_servers@[project.language_server_ids@[key]];
            project.servers_of_buffer(buffer)[k] == (state->adapter, state->server)
        }),
{
    let adapters = buffer.language->0.lsp_adapters@;
    let f = id_for_adapter(project.language_server_ids@, buffer.file->0.worktree_id);
    let g = running(project.language_servers@);
    let ids = project.server_ids_of_buffer(buffer);
    lemma_filter_map_has(adapters, f, i);
    let id = f(adapters[i])->0;
    let m = choose|m: int| 0 <= m < ids.len() && ids[m] == id;
    lemma_filter_map_has(ids, g, m);
    let s = g(id)->0;
    choose|k: int|
        0 <= k < project.servers_of_buffer(buffer).len() && project.servers_of_buffer(buffer)[k]
            == s
}

/// No other server works on a buffer.
pub proof fn only_servers_of_the_language_work_on_a_buffer(
    project: Project,
    buffer: Buffer,
    k: int,
) -> (i: int)
    requires
        0 <= k < project.servers_of_buffer(buffer).len(),
    ensures
        buffer.file is Some,
        buffer.language is Some,
        0 <= i < buffer.language->0.lsp_adapters@.len(),
        ({
            let key = (buffer.file->0.worktree_id, buffer.language->0.lsp_adapters@[i].name@);
            let state = project.language_servers@[project.language_server_ids@[key]];
            &&& project.language_server_ids@.contains_key(key)
            &&& project.language_servers@.contains_key(project.language_server_ids@[key])
            &&& state is Running
            &&& project.servers_of_buffer(buffer)[k] == (state->adapter, state->server)
        }),
{
    let ids = project.server_ids_of_buffer(buffer);
    let m = lemma_filter_map_from(ids, running(project.language_servers@), k);
    lemma_filter_map_from(
        buffer.language->0.lsp_adapters@,
        id_for_adapter(project.language_server_ids@, buffer.file->0.worktree_id),
        m,
    )
}

/// A server is found by its id exactly if it is among those that are searched, and what is found has
/// that id.
pub proof fn servers_are_found_by_their_id(
    servers: Seq<(Arc<LspAdapter>, Arc<LanguageServer>)>,
    id: LanguageServerId,
)
    ensures
        ({
            let found = find_map(servers, with_server_id(id));
            &&& found is Some ==> servers.contains(found->0) && (found->0).1.server_id == id
            &&& found is None ==> forall|i: int|
                0 <= i < servers.len() ==> (#[trigger] servers[i]).1.server_id != id
        }),
{
    let f = with_server_id(id);
    if find_map(servers, f) is Some {
        let i = crate::seqs::lemma_find_map_witness(servers, f);
        assert(servers[i] == find_map(servers, f)->0);
    } else {
        assert forall|i: int| 0 <= i < servers.len() implies (
        #[trigger] servers[i]).1.server_id != id by {
            if servers[i].1.server_id == id {
                crate::seqs::lemma_find_map_some(servers, f, i);
            }
        }
    }
}

/// A server that runs is known by its id, and so is one that runs beside those of the languages. One
/// that is still starting is not.
pub proof fn running_servers_are_known(project: Project, id: LanguageServerId)
    ensures
        ({
            let servers = project.language_servers@;
            let others = project.supplementary_language_servers@;
            let runs = servers.contains_key(id) && servers[id] is Running;
            &&& runs ==> project.server_of_id(id) == Some(servers[id]->server)
            &&& !runs && others.contains_key(id) ==> project.server_of_id(id) == Some(others[id].1)
            &&& !runs && !others.contains_key(id) ==> project.server_of_id(id) is None
        }),
{
}

/// The servers of a worktree are those that are entered for it and run.
pub proof fn servers_of_a_worktree_are_entered_for_it(
    project: Project,
    worktree_id: WorktreeId,
    i: int,
)
    requires
        0 <= i < project.language_server_ids.entries().len(),
        ({
            let e = project.language_server_ids.entries()[i];
            &&& e.0.0 == worktree_id
            &&& project.language_servers@.contains_key(e.1)
            &&& project.language_servers@[e.1] is Running
        }),
    ensures
        ({
            let state = project.language_servers@[project.language_server_ids.entries()[i].1];
            project.servers_of_worktree(worktree_id).contains((state->adapter, state->server))
        }),
{
    lemma_filter_map_has(
        project.language_server_ids.entries(),
        running_in(project.language_servers@, worktree_id),
        i,
    );
}

/// A server of a worktree is entered for that worktree, and for no other one.
pub proof fn only_entered_servers_belong_to_a_worktree(
    project: Project,
    worktree_id: WorktreeId,
    k: int,
) -> (i: int)
    requires
        0 <= k < project.servers_of_worktree(worktree_id).len(),
    ensures
        0 <= i < project.language_server_ids.entries().len(),
        ({
            let e = project.language_server_ids.entries()[i];
            &&& e.0.0 == worktree_id
            &&& project.language_servers@.contains_key(e.1)
            &&& project.language_servers@[e.1] is Running
            &&& project.servers_of_worktree(worktree_id)[k].1
                == project.language_servers@[e.1]->server
        }),
{
    lemma_filter_map_from(
        project.language_server_ids.entries(),
        running_in(project.language_servers@, worktree_id),
        k,
    )
}

/// A server is never started twice for a worktree under one name, nor once it has been installed anew
/// more than four times. Otherwise it may be started.
pub proof fn servers_start_once(project: Project, worktree_id: WorktreeId, adapter: LspAdapter)
    ensures
        project.language_server_ids@.contains_key((worktree_id, adapter.name@)) ==> !may_start(
            project,
            worktree_id,
            adapter,
        ),
        adapter.reinstall_attempt_count > 4 ==> !may_start(project, worktree_id, adapter),
        adapter.reinstall_attempt_count <= 4 && !project.language_server_ids@.contains_key(
            (worktree_id, adapter.name@),
        ) ==> may_start(project, worktree_id, adapter),
{
}

/// Starting the servers of a language keeps every server that works already. For each adapter with an
/// id, whose name has no server yet and stands nowhere before it in the list, the server is entered
/// under that id, is noted as starting, and is started at the root of the worktree.
pub proof fn every_adapter_is_started(
    project: Project,
    worktree_id: WorktreeId,
    root_path: Path,
    language: Language,
    pending: Seq<Option<LanguageServerId>>,
    n: int,
    i: int,
)
    requires
        0 <= i < n <= language.lsp_adapters@.len(),
        n <= pending.len(),
        pending[i] is Some,
        language.lsp_adapters@[i].reinstall_attempt_count <= 4,
        !project.language_server_ids@.contains_key(
            (worktree_id, language.lsp_adapters@[i].name@),
        ),
        forall|j: int|
            0 <= j < i ==> (#[trigger] language.lsp_adapters@[j]).name@
                != language.lsp_adapters@[i].name@,
    ensures
        ({
            let adapters = language.lsp_adapters@;
            let key = (worktree_id, adapters[i].name@);
            let ids = started_ids(project, worktree_id, adapters, pending, n);
            let servers = started_servers(project, worktree_id, adapters, pending, n);
            &&& ids.contains_key(key)
            &&& ids[key] == pending[i]->0
            &&& servers.contains_key(pending[i]->0)
            &&& servers[pending[i]->0] is Starting
            &&& start_effects(project, worktree_id, root_path, language, pending, n).contains(
                Effect::StartServer {
                    server_id: pending[i]->0,
                    worktree_id,
                    root_path,
                    language: language.id,
                },
            )
        }),
    decreases n,
{
    let adapters = language.lsp_adapters@;
    let key = (worktree_id, adapters[i].name@);
    let ids = started_ids(project, worktree_id, adapters, pending, n - 1);
    let e = Effect::StartServer {
        server_id: pending[i]->0,
        worktree_id,
        root_path,
        language: language.id,
    };
    let before = start_effects(project, worktree_id, root_path, language, pending, n - 1);
    let after = start_effects(project, worktree_id, root_path, language, pending, n);
    lemma_started_ids(project, worktree_id, adapters, pending, n - 1, key);
    if i < n - 1 {
        every_adapter_is_started(project, worktree_id, root_path, language, pending, n - 1, i);
        let k = choose|k: int| 0 <= k < before.len() && before[k] == e;
        assert(after[k] == e);
    } else {
        assert(!ids.contains_key(key));
        assert(after.last() == e);
        assert(after[after.len() - 1] == e);
    }
}

proof fn lemma_started_ids(
    project: Project,
    worktree_id: WorktreeId,
    adapters: Seq<Arc<LspAdapter>>,
    pending: Seq<Option<LanguageServerId>>,
    n: int,
    key: (WorktreeId, Seq<char>),
)
    requires
        n <= adapters.len(),
    ensures
        started_ids(project, worktree_id, adapters, pending, n).contains_key(key)
            ==> project.language_server_ids@.contains_key(key) || exists|j: int|
            0 <= j < n && (#[trigger] adapters[j]).name@ == key.1 && worktree_id == key.0,
        project.language_server_ids@.contains_key(key) ==> started_ids(
            project,
            worktree_id,
            adapters,
            pending,
            n,
        ).contains_key(key) && started_ids(project, worktree_id, adapters, pending, n)[key]
            == project.language_server_ids@[key],
    decreases n,
{
    if n > 0 {
        lemma_started_ids(project, worktree_id, adapters, pending, n - 1, key);
        if (worktree_id, adapters[n - 1].name@) == key {
            assert(adapters[n - 1].name@ == key.1);
        }
    }
}

/// Servers that work already are left as they are when others are started, and nothing is entered
/// but for adapters of the language in that worktree.
pub proof fn working_servers_are_left_alone(
    project: Project,
    worktree_id: WorktreeId,
    adapters: Seq<Arc<LspAdapter>>,
    pending: Seq<Option<LanguageServerId>>,
    n: int,
    key: (WorktreeId, Seq<char>),
)
    requires
        n <= adapters.len(),
    ensures
        ({
            let ids = started_ids(project, worktree_id, adapters, pending, n);
            &&& project.language_server_ids@.contains_key(key) ==> ids.contains_key(key)
                && ids[key] == project.language_server_ids@[key]
            &&& ids.contains_key(key) && !project.language_server_ids@.contains_key(key) ==> key.0
                == worktree_id && exists|j: int|
                0 <= j < n && (#[trigger] adapters[j]).name@ == key.1
        }),
{
    lemma_started_ids(project, worktree_id, adapters, pending, n, key);
}

/// Nothing but servers of the given language is started, each under an id that was given for it.
pub proof fn only_pending_servers_are_started(
    project: Project,
    worktree_id: WorktreeId,
    root_path: Path,
    language: Language,
    pending: Seq<Option<LanguageServerId>>,
    n: int,
    k: int,
) -> (i: int)
    requires
        0 <= k < start_effects(project, worktree_id, root_path, language, pending, n).len(),
    ensures
        0 <= i < n,
        pending[i] is Some,
        language.lsp_adapters@[i].reinstall_attempt_count <= 4,
        !project.language_server_ids@.contains_key(
            (worktree_id, language.lsp_adapters@[i].name@),
        ) || n > language.lsp_adapters@.len(),
        start_effects(project, worktree_id, root_path, language, pending, n)[k] == (
        Effect::StartServer {
            server_id: pending[i]->0,
            worktree_id,
            root_path,
            language: language.id,
        }),
    decreases n,
{
    let before = start_effects(project, worktree_id, root_path, language, pending, n - 1);
    let after = start_effects(project, worktree_id, root_path, language, pending, n);
    if k < before.len() {
        assert(after[k] == before[k]);
        only_pending_servers_are_started(
            project,
            worktree_id,
            root_path,
            language,
            pending,
            n - 1,
            k,
        )
    } else {
        if n <= language.lsp_adapters@.len() {
            lemma_started_ids(
                project,
                worktree_id,
                language.lsp_adapters@,
                pending,
                n - 1,
                (worktree_id, language.lsp_adapters@[n - 1].name@),
            );
        }
        n - 1
    }
}

/// A server that is installed anew leaves every live worktree in which it works under its adapter's
/// name, and no other place.
pub proof fn reinstalled_servers_leave_live_worktrees(
    worktrees: Seq<WorktreeHandle>,
    cx: AppContext,
    name: Seq<char>,
    key: (WorktreeId, Seq<char>),
)
    ensures
        keys_in_worktrees(worktrees, cx, name).contains(key) <==> key.1 == name && exists|i: int|
            0 <= i < worktrees.len() && ((#[trigger] worktrees[i]).live(cx) matches Some(w) && w.id
                == key.0),
{
    if keys_in_worktrees(worktrees, cx, name).contains(key) {
        let i = choose|i: int|
            0 <= i < worktrees.len() && (#[trigger] worktrees[i].live(cx)) is Some
                && worktrees[i].live(cx)->0.id == key.0;
        assert(worktrees[i].live(cx) is Some);
    }
}

} // verus!
